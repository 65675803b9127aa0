//! The control messages that carry the values of the sliders, and what each
//! message does to the session.

use vstd::prelude::*;
use crate::handlers::{clicked_start, inputted_speed, inputted_step, MainMessage};
use crate::renderer::{is_step_for, ALL_SLEEPS_PER_LOOP};
use crate::rotation::{magnitude, rotated};
use crate::utils::lerp_spec;
use crate::worker::{step, step_outcome, GlobalState, RunState, WorkerAction};

verus! {

/// The new speed, in percent.
#[derive(Clone, Copy, Debug, PartialEq, Eq, Structural)]
pub struct ChangeSpeedMessage {
    pub new_speed_percentage: usize,
}

/// The new place on the step scale, in percent.
#[derive(Clone, Copy, Debug, PartialEq, Eq, Structural)]
pub struct ChangeStepMessage {
    pub new_step_percentage: usize,
}

/// A control message for the session.
#[derive(Clone, Copy, Debug, PartialEq, Eq, Structural)]
pub enum ReceivedWorkerMessage {
    Step,
    Start,
    ChangeSpeed(ChangeSpeedMessage),
    ChangeStep(ChangeStepMessage),
}

impl ReceivedWorkerMessage {
    /// Applies a control message to the session. A single tick is reported
    /// when it is done; a start that the session accepts asks for the loop; a
    /// slider changes its parameter. A message that the session refuses, and
    /// a percentage above 100, change nothing.
    pub fn process(self, global_state: &mut GlobalState) -> (action: WorkerAction)
        requires
            old(global_state).wf(),
        ensures
            final(global_state).wf(),
            action == received_outcome(self, *old(global_state)),
            final(global_state)@.path == old(global_state)@.path,
            final(global_state)@.image_dimensions == old(global_state)@.image_dimensions,
            match self {
                ReceivedWorkerMessage::Step => {
                    &&& final(global_state)@.pixel_data == if action == WorkerAction::Nothing {
                        old(global_state)@.pixel_data
                    } else {
                        rotated(
                            old(global_state)@.path,
                            old(global_state)@.pixel_data,
                            old(global_state)@.steps as int,
                        )
                    }
                    &&& final(global_state)@.run_state == old(global_state)@.run_state
                    &&& final(global_state)@.steps == old(global_state)@.steps
                    &&& final(global_state)@.sleep == old(global_state)@.sleep
                },
                ReceivedWorkerMessage::Start => {
                    &&& final(global_state)@.pixel_data == old(global_state)@.pixel_data
                    &&& final(global_state)@.run_state == if action == WorkerAction::RunLoop {
                        RunState::Running
                    } else {
                        old(global_state)@.run_state
                    }
                    &&& final(global_state)@.steps == old(global_state)@.steps
                    &&& final(global_state)@.sleep == old(global_state)@.sleep
                },
                ReceivedWorkerMessage::ChangeSpeed(message) => {
                    &&& final(global_state)@.pixel_data == old(global_state)@.pixel_data
                    &&& final(global_state)@.run_state == old(global_state)@.run_state
                    &&& final(global_state)@.steps == old(global_state)@.steps
                    &&& final(global_state)@.sleep == if message.new_speed_percentage <= 100 {
                        lerp_spec(ALL_SLEEPS_PER_LOOP@, message.new_speed_percentage as int) as u64
                    } else {
                        old(global_state)@.sleep
                    }
                },
                ReceivedWorkerMessage::ChangeStep(message) => {
                    &&& final(global_state)@.pixel_data == old(global_state)@.pixel_data
                    &&& final(global_state)@.run_state == old(global_state)@.run_state
                    &&& final(global_state)@.sleep == old(global_state)@.sleep
                    &&& if message.new_step_percentage <= 100 && old(global_state)@.path.len() > 0 {
                        &&& is_step_for(
                            final(global_state)@.steps as int,
                            message.new_step_percentage as int,
                            old(global_state)@.path.len() as int,
                        )
                        &&& magnitude(final(global_state)@.steps as int) < old(
                            global_state,
                        )@.path.len()
                    } else {
                        final(global_state)@.steps == old(global_state)@.steps
                    }
                },
            },
    {
        match self {
            ReceivedWorkerMessage::Step => match step(global_state) {
                Ok(()) => WorkerAction::Reply(MainMessage::Stepped),
                Err(_) => WorkerAction::Nothing,
            },
            ReceivedWorkerMessage::Start => match clicked_start(global_state) {
                Some(_) => WorkerAction::RunLoop,
                None => WorkerAction::Nothing,
            },
            ReceivedWorkerMessage::ChangeSpeed(message) => {
                if message.new_speed_percentage <= 100 {
                    inputted_speed(global_state, message.new_speed_percentage as u32);
                }
                WorkerAction::Nothing
            },
            ReceivedWorkerMessage::ChangeStep(message) => {
                if message.new_step_percentage <= 100 {
                    inputted_step(global_state, message.new_step_percentage as u32);
                }
                WorkerAction::Nothing
            },
        }
    }
}

/// What follows a control message, by the session that the message meets.
pub open spec fn received_outcome(message: ReceivedWorkerMessage, global_state: GlobalState)
    -> WorkerAction {
    match message {
        ReceivedWorkerMessage::Step => if step_outcome(global_state) is Ok {
            WorkerAction::Reply(MainMessage::Stepped)
        } else {
            WorkerAction::Nothing
        },
        ReceivedWorkerMessage::Start => if global_state@.run_state == RunState::Idle
            && global_state@.path.len() > 0 {
            WorkerAction::RunLoop
        } else {
            WorkerAction::Nothing
        },
        _ => WorkerAction::Nothing,
    }
}

} // verus!
