//! The page's side of the animation: what a click or a slider does to the
//! session, and what the worker is asked next.

use vstd::prelude::*;
use crate::renderer::{change_speed, change_step, is_step_for, stop, ALL_SLEEPS_PER_LOOP};
use crate::rotation::magnitude;
use crate::utils::lerp_spec;
use crate::worker::{step_outcome, GlobalState, RunState, WorkerMessage};

verus! {

/// What the worker reports to the page.
#[derive(Clone, Copy, Debug, PartialEq, Eq, Structural)]
pub enum MainMessage {
    /// A single tick was done.
    Stepped,
    /// The loop has ended.
    Stopped,
    /// A path was built and installed.
    LoadedPath { path_len: u32 },
}

/// The start button: an idle session with a path starts to run, and the
/// worker is to be asked for the loop. Any other session stays as it is.
pub fn clicked_start(global_state: &mut GlobalState) -> (message: Option<WorkerMessage>)
    requires
        old(global_state).wf(),
    ensures
        final(global_state).wf(),
        message == if old(global_state)@.run_state == RunState::Idle && old(global_state)@.path.len()
            > 0 {
            Some(WorkerMessage::Start)
        } else {
            None
        },
        final(global_state)@.run_state == if message is Some {
            RunState::Running
        } else {
            old(global_state)@.run_state
        },
        final(global_state)@.path == old(global_state)@.path,
        final(global_state)@.pixel_data == old(global_state)@.pixel_data,
        final(global_state)@.image_dimensions == old(global_state)@.image_dimensions,
        final(global_state)@.steps == old(global_state)@.steps,
        final(global_state)@.sleep == old(global_state)@.sleep,
{
    if global_state.run_state() != RunState::Idle || global_state.path().len() == 0 {
        return None;
    }
    global_state.set_run_state(RunState::Running);
    Some(WorkerMessage::Start)
}

/// The stop button: a session that runs is asked to stop, and the page has to
/// wait for the worker's report that the loop has ended. An idle session
/// stays idle, and there is nothing to wait for.
pub fn clicked_stop(global_state: &mut GlobalState) -> (requested: bool)
    requires
        old(global_state).wf(),
    ensures
        final(global_state).wf(),
        requested == (old(global_state)@.run_state != RunState::Idle),
        final(global_state)@.run_state == if requested {
            RunState::StopRequested
        } else {
            RunState::Idle
        },
        final(global_state)@.path == old(global_state)@.path,
        final(global_state)@.pixel_data == old(global_state)@.pixel_data,
        final(global_state)@.image_dimensions == old(global_state)@.image_dimensions,
        final(global_state)@.steps == old(global_state)@.steps,
        final(global_state)@.sleep == old(global_state)@.sleep,
{
    if global_state.run_state() == RunState::Idle {
        return false;
    }
    stop(global_state);
    true
}

/// The step button: the worker is to be asked for a single tick where the
/// session would accept it.
pub fn clicked_step(global_state: &GlobalState) -> (message: Option<WorkerMessage>)
    requires
        global_state.wf(),
    ensures
        message == if step_outcome(*global_state) is Ok {
            Some(WorkerMessage::Step)
        } else {
            None
        },
{
    if global_state.run_state() != RunState::Idle {
        return None;
    }
    let path_len = global_state.path().len();
    let wide: i64 = global_state.steps() as i64;
    let length: u64 = if wide >= 0 {
        wide as u64
    } else {
        (-wide) as u64
    };
    if path_len == 0 || length >= path_len as u64 {
        return None;
    }
    Some(WorkerMessage::Step)
}

/// The speed slider: sets the delay between two ticks. It takes effect with
/// the next tick, whether the animation runs or not.
pub fn inputted_speed(global_state: &mut GlobalState, new_speed_percentage: u32)
    requires
        old(global_state).wf(),
        new_speed_percentage <= 100,
    ensures
        final(global_state).wf(),
        final(global_state)@.sleep == lerp_spec(ALL_SLEEPS_PER_LOOP@, new_speed_percentage as int),
        final(global_state)@.path == old(global_state)@.path,
        final(global_state)@.pixel_data == old(global_state)@.pixel_data,
        final(global_state)@.image_dimensions == old(global_state)@.image_dimensions,
        final(global_state)@.steps == old(global_state)@.steps,
        final(global_state)@.run_state == old(global_state)@.run_state,
{
    global_state.set_sleep(change_speed(new_speed_percentage));
}

/// The step slider: sets the step of a tick by the length of the loaded path.
/// Without a path the step stays as it is. The new step is always one that a
/// tick accepts.
pub fn inputted_step(global_state: &mut GlobalState, new_step_percentage: u32)
    requires
        old(global_state).wf(),
        new_step_percentage <= 100,
    ensures
        final(global_state).wf(),
        old(global_state)@.path.len() == 0 ==> final(global_state)@.steps == old(
            global_state,
        )@.steps,
        old(global_state)@.path.len() > 0 ==> {
            &&& is_step_for(
                final(global_state)@.steps as int,
                new_step_percentage as int,
                old(global_state)@.path.len() as int,
            )
            &&& magnitude(final(global_state)@.steps as int) < old(global_state)@.path.len()
        },
        old(global_state)@.path.len() >= 2 ==> {
            &&& final(global_state)@.steps > 0 <==> new_step_percentage > 50
            &&& final(global_state)@.steps < 0 <==> new_step_percentage < 50
        },
        final(global_state)@.path == old(global_state)@.path,
        final(global_state)@.pixel_data == old(global_state)@.pixel_data,
        final(global_state)@.image_dimensions == old(global_state)@.image_dimensions,
        final(global_state)@.sleep == old(global_state)@.sleep,
        final(global_state)@.run_state == old(global_state)@.run_state,
{
    match global_state.path_len() {
        None => {},
        Some(path_len) => {
            global_state.set_steps(change_step(new_step_percentage, path_len));
        },
    }
}

} // verus!
