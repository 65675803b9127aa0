use pixel_shuffle::handlers::{
    clicked_start, clicked_step, clicked_stop, inputted_speed, inputted_step, MainMessage,
};
use pixel_shuffle::messaging::{ChangeSpeedMessage, ChangeStepMessage, ReceivedWorkerMessage};
use pixel_shuffle::paths::PathFn;
use pixel_shuffle::renderer::{load_image, stop};
use pixel_shuffle::worker::{
    load_path, loop_stopped, run_tick, step, GlobalState, LoadError, LoadPathMessage, RunState,
    StepError, WorkerAction, WorkerMessage,
};

fn numbered_pixels(cells: usize) -> Vec<u8> {
    let mut buffer = Vec::new();
    for n in 0..cells {
        buffer.extend_from_slice(&[(3 * n) as u8, (3 * n + 1) as u8, (3 * n + 2) as u8, 255]);
    }
    buffer
}

/// A session with a 2 by 2 image and its path.
fn loaded() -> GlobalState {
    let mut global_state = GlobalState::new();
    let message = load_image(&mut global_state, numbered_pixels(4), 2, 2).unwrap();
    assert_eq!(
        message.process(&mut global_state),
        WorkerAction::Reply(MainMessage::LoadedPath { path_len: 4 })
    );
    global_state
}

#[test]
fn new_session_is_idle_and_empty() {
    let global_state = GlobalState::new();
    assert_eq!(global_state.run_state(), RunState::Idle);
    assert!(global_state.path().is_empty());
    assert!(global_state.pixel_data().is_empty());
    assert_eq!(global_state.steps(), 1);
    assert_eq!(global_state.sleep(), 0);
    assert_eq!(global_state.path_len(), None);
}

#[test]
fn image_then_path_are_loaded() {
    let mut global_state = GlobalState::new();
    let message = load_image(&mut global_state, numbered_pixels(6), 3, 2);
    assert_eq!(
        message,
        Ok(WorkerMessage::LoadPath(LoadPathMessage::new(3, 2, PathFn::Gilbert)))
    );
    assert_eq!(global_state.image_dimensions().width, 3);
    assert_eq!(global_state.image_dimensions().height, 2);
    assert_eq!(*global_state.pixel_data(), numbered_pixels(6));
    assert_eq!(global_state.path_len(), None);
    let path_len = load_path(LoadPathMessage::new(3, 2, PathFn::Gilbert), &mut global_state);
    assert_eq!(path_len, Ok(6));
    assert_eq!(global_state.path(), &vec![0, 12, 16, 20, 8, 4]);
    assert_eq!(global_state.path_len(), Some(6));
}

#[test]
fn new_image_drops_the_old_path() {
    let mut global_state = loaded();
    assert_eq!(global_state.path_len(), Some(4));
    assert!(load_image(&mut global_state, numbered_pixels(2), 2, 1).is_ok());
    assert_eq!(global_state.path_len(), None);
    assert_eq!(clicked_start(&mut global_state), None);
    assert_eq!(step(&mut global_state), Err(StepError::NoPath));
}

#[test]
fn image_without_pixels_is_refused() {
    let mut global_state = loaded();
    assert_eq!(load_image(&mut global_state, Vec::new(), 0, 5), Err(LoadError::EmptyImage));
    assert_eq!(load_image(&mut global_state, Vec::new(), 5, 0), Err(LoadError::EmptyImage));
    assert_eq!(global_state.path_len(), Some(4));
    assert_eq!(*global_state.pixel_data(), numbered_pixels(4));
}

#[test]
fn image_that_is_too_large_is_refused() {
    let mut global_state = GlobalState::new();
    assert_eq!(
        load_image(&mut global_state, numbered_pixels(1), u32::MAX, 1),
        Err(LoadError::TooLarge)
    );
    assert_eq!(
        load_image(&mut global_state, numbered_pixels(1), 1, 1 << 31),
        Err(LoadError::TooLarge)
    );
    assert_eq!(
        load_image(&mut global_state, numbered_pixels(1), 1 << 16, 1 << 16),
        Err(LoadError::TooLarge)
    );
    assert_eq!(
        load_image(&mut global_state, numbered_pixels(1), 65535, 65537),
        Err(LoadError::TooLarge)
    );
    assert_eq!(
        load_image(&mut global_state, numbered_pixels(1), 65536, 65535),
        Err(LoadError::SizeMismatch)
    );
    assert!(global_state.pixel_data().is_empty());
}

#[test]
fn image_with_a_buffer_of_another_size_is_refused() {
    let mut global_state = loaded();
    assert_eq!(
        load_image(&mut global_state, numbered_pixels(5), 3, 2),
        Err(LoadError::SizeMismatch)
    );
    assert_eq!(load_image(&mut global_state, vec![0; 15], 2, 2), Err(LoadError::SizeMismatch));
    assert_eq!(global_state.path_len(), Some(4));
    assert_eq!(global_state.image_dimensions().width, 2);
}

#[test]
fn image_is_refused_while_the_animation_runs() {
    let mut global_state = loaded();
    assert!(clicked_start(&mut global_state).is_some());
    assert_eq!(
        load_image(&mut global_state, numbered_pixels(4), 2, 2),
        Err(LoadError::Running)
    );
    assert_eq!(
        load_path(LoadPathMessage::new(2, 2, PathFn::Gilbert), &mut global_state),
        Err(LoadError::Running)
    );
}

#[test]
fn path_for_another_size_is_refused() {
    let mut global_state = loaded();
    assert_eq!(
        load_path(LoadPathMessage::new(4, 1, PathFn::Gilbert), &mut global_state),
        Err(LoadError::SizeMismatch)
    );
    assert_eq!(
        load_path(LoadPathMessage::new(0, 2, PathFn::Gilbert), &mut global_state),
        Err(LoadError::EmptyImage)
    );
    assert_eq!(global_state.path(), &vec![0, 8, 12, 4]);
    let mut empty = GlobalState::new();
    assert_eq!(
        load_path(LoadPathMessage::new(2, 2, PathFn::Gilbert), &mut empty),
        Err(LoadError::SizeMismatch)
    );
    assert_eq!(
        WorkerMessage::LoadPath(LoadPathMessage::new(2, 2, PathFn::Gilbert)).process(&mut empty),
        WorkerAction::Nothing
    );
}

#[test]
fn path_can_be_loaded_in_another_order() {
    let mut global_state = loaded();
    assert_eq!(load_path(LoadPathMessage::new(2, 2, PathFn::Shift), &mut global_state), Ok(4));
    assert_eq!(global_state.path(), &vec![0, 12, 8, 4]);
}

#[test]
fn start_needs_a_path() {
    let mut global_state = GlobalState::new();
    assert_eq!(clicked_start(&mut global_state), None);
    assert_eq!(global_state.run_state(), RunState::Idle);
    assert_eq!(WorkerMessage::Start.process(&mut global_state), WorkerAction::Nothing);
}

#[test]
fn start_runs_an_idle_session_once() {
    let mut global_state = loaded();
    assert_eq!(clicked_start(&mut global_state), Some(WorkerMessage::Start));
    assert_eq!(global_state.run_state(), RunState::Running);
    assert_eq!(clicked_start(&mut global_state), None);
    assert_eq!(global_state.run_state(), RunState::Running);
    assert_eq!(WorkerMessage::Start.process(&mut global_state), WorkerAction::RunLoop);
    assert_eq!(global_state.run_state(), RunState::Running);
}

#[test]
fn loop_ticks_until_it_is_asked_to_stop() {
    let mut global_state = loaded();
    inputted_speed(&mut global_state, 50);
    clicked_start(&mut global_state);
    assert_eq!(run_tick(&mut global_state), Some(1500));
    assert_eq!(global_state.pixel_data()[0], 3);
    assert!(!loop_stopped(&mut global_state));
    assert_eq!(run_tick(&mut global_state), Some(1500));
    assert!(!loop_stopped(&mut global_state));
    assert!(clicked_stop(&mut global_state));
    assert_eq!(global_state.run_state(), RunState::StopRequested);
    assert_eq!(run_tick(&mut global_state), Some(1500));
    assert!(loop_stopped(&mut global_state));
    assert_eq!(global_state.run_state(), RunState::Idle);
    assert_eq!(run_tick(&mut global_state), None);
    assert!(loop_stopped(&mut global_state));
}

#[test]
fn loop_without_a_start_does_nothing() {
    let mut global_state = loaded();
    assert_eq!(run_tick(&mut global_state), None);
    assert_eq!(*global_state.pixel_data(), numbered_pixels(4));
    assert!(loop_stopped(&mut global_state));
    assert_eq!(global_state.run_state(), RunState::Idle);
}

#[test]
fn loop_takes_new_parameters_with_the_next_tick() {
    let mut global_state = loaded();
    clicked_start(&mut global_state);
    assert_eq!(run_tick(&mut global_state), Some(0));
    inputted_speed(&mut global_state, 0);
    inputted_step(&mut global_state, 0);
    assert_eq!(global_state.steps(), -2);
    let before = global_state.pixel_data().clone();
    assert_eq!(run_tick(&mut global_state), Some(200_000));
    assert_ne!(*global_state.pixel_data(), before);
    assert_eq!(run_tick(&mut global_state), Some(200_000));
    assert_eq!(*global_state.pixel_data(), before);
}

#[test]
fn loop_skips_a_step_that_is_too_long() {
    let mut global_state = loaded();
    global_state.set_steps(4);
    clicked_start(&mut global_state);
    assert_eq!(run_tick(&mut global_state), Some(0));
    assert_eq!(*global_state.pixel_data(), numbered_pixels(4));
}

#[test]
fn stop_needs_a_running_loop() {
    let mut global_state = loaded();
    assert!(!clicked_stop(&mut global_state));
    assert_eq!(global_state.run_state(), RunState::Idle);
    clicked_start(&mut global_state);
    stop(&mut global_state);
    assert_eq!(global_state.run_state(), RunState::StopRequested);
    assert!(clicked_stop(&mut global_state));
    assert_eq!(global_state.run_state(), RunState::StopRequested);
}

#[test]
fn single_step_ticks_an_idle_session() {
    let mut global_state = loaded();
    assert_eq!(clicked_step(&global_state), Some(WorkerMessage::Step));
    assert_eq!(
        WorkerMessage::Step.process(&mut global_state),
        WorkerAction::Reply(MainMessage::Stepped)
    );
    assert_eq!(
        *global_state.pixel_data(),
        vec![3, 4, 5, 255, 9, 10, 11, 255, 0, 1, 2, 255, 6, 7, 8, 255]
    );
    assert_eq!(global_state.run_state(), RunState::Idle);
}

#[test]
fn single_step_is_refused_while_the_animation_runs() {
    let mut global_state = loaded();
    clicked_start(&mut global_state);
    assert_eq!(clicked_step(&global_state), None);
    assert_eq!(step(&mut global_state), Err(StepError::Running));
    assert_eq!(WorkerMessage::Step.process(&mut global_state), WorkerAction::Nothing);
    assert_eq!(*global_state.pixel_data(), numbered_pixels(4));
    clicked_stop(&mut global_state);
    assert_eq!(step(&mut global_state), Err(StepError::Running));
}

#[test]
fn single_step_needs_a_path_and_a_step_that_fits() {
    let mut global_state = GlobalState::new();
    assert_eq!(clicked_step(&global_state), None);
    assert_eq!(step(&mut global_state), Err(StepError::NoPath));
    let mut global_state = loaded();
    global_state.set_steps(-4);
    assert_eq!(clicked_step(&global_state), None);
    assert_eq!(step(&mut global_state), Err(StepError::StepTooLarge));
    assert_eq!(*global_state.pixel_data(), numbered_pixels(4));
    global_state.set_steps(-3);
    assert_eq!(clicked_step(&global_state), Some(WorkerMessage::Step));
    assert_eq!(step(&mut global_state), Ok(()));
}

#[test]
fn speed_slider_sets_the_delay() {
    let mut global_state = GlobalState::new();
    inputted_speed(&mut global_state, 12);
    assert_eq!(global_state.sleep(), 165_000);
    inputted_speed(&mut global_state, 100);
    assert_eq!(global_state.sleep(), 0);
}

#[test]
fn step_slider_needs_a_path() {
    let mut global_state = GlobalState::new();
    inputted_step(&mut global_state, 100);
    assert_eq!(global_state.steps(), 1);
    let mut global_state = loaded();
    inputted_step(&mut global_state, 100);
    assert_eq!(global_state.steps(), 2);
    inputted_step(&mut global_state, 50);
    assert_eq!(global_state.steps(), 0);
    inputted_step(&mut global_state, 10);
    assert_eq!(global_state.steps(), -2);
    inputted_step(&mut global_state, 30);
    assert_eq!(global_state.steps(), -1);
}

#[test]
fn control_messages_reach_the_session() {
    let mut global_state = loaded();
    let speed = ReceivedWorkerMessage::ChangeSpeed(ChangeSpeedMessage { new_speed_percentage: 50 });
    assert_eq!(speed.process(&mut global_state), WorkerAction::Nothing);
    assert_eq!(global_state.sleep(), 1500);
    let scale = ReceivedWorkerMessage::ChangeStep(ChangeStepMessage { new_step_percentage: 0 });
    assert_eq!(scale.process(&mut global_state), WorkerAction::Nothing);
    assert_eq!(global_state.steps(), -2);
    assert_eq!(
        ReceivedWorkerMessage::Step.process(&mut global_state),
        WorkerAction::Reply(MainMessage::Stepped)
    );
    assert_ne!(*global_state.pixel_data(), numbered_pixels(4));
    assert_eq!(ReceivedWorkerMessage::Start.process(&mut global_state), WorkerAction::RunLoop);
    assert_eq!(global_state.run_state(), RunState::Running);
    assert_eq!(ReceivedWorkerMessage::Start.process(&mut global_state), WorkerAction::Nothing);
    assert_eq!(ReceivedWorkerMessage::Step.process(&mut global_state), WorkerAction::Nothing);
}

#[test]
fn control_messages_above_a_hundred_percent_change_nothing() {
    let mut global_state = loaded();
    inputted_speed(&mut global_state, 50);
    inputted_step(&mut global_state, 100);
    let speed =
        ReceivedWorkerMessage::ChangeSpeed(ChangeSpeedMessage { new_speed_percentage: 101 });
    assert_eq!(speed.process(&mut global_state), WorkerAction::Nothing);
    let scale =
        ReceivedWorkerMessage::ChangeStep(ChangeStepMessage { new_step_percentage: usize::MAX });
    assert_eq!(scale.process(&mut global_state), WorkerAction::Nothing);
    assert_eq!(global_state.sleep(), 1500);
    assert_eq!(global_state.steps(), 2);
}
