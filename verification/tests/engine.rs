use bevy::input::ButtonInput;
use bevy_autoplay::codec::{decode, DecodeError};
use bevy_autoplay::engine::Autoplay;
use bevy_autoplay::keyboard::KeyId;
use bevy_autoplay::mode::AutoplayState;
use bevy_autoplay::session::{ButtonEvent, InputLog, Session};
use std::time::Duration;

const KEY_A: KeyId = 20;
const KEY_F: KeyId = 25;

fn log_at(millis: u64, events: Vec<ButtonEvent<KeyId>>) -> InputLog<KeyId> {
    let mut log = InputLog::new(Duration::from_millis(millis));
    for event in events {
        log.push(event);
    }
    log
}

fn ms(millis: u64) -> Duration {
    Duration::from_millis(millis)
}

fn untouched(input: &ButtonInput<KeyId>) -> bool {
    input.get_pressed().count() == 0
        && input.get_just_pressed().count() == 0
        && input.get_just_released().count() == 0
}

#[test]
fn a_new_engine_is_stopped_and_empty() {
    let engine = Autoplay::new();
    assert_eq!(engine.state(), AutoplayState::Stopped);
    assert_eq!(engine.session().len(), 0);
    assert_eq!(engine.start_time(), Duration::ZERO);
}

#[test]
fn a_stopped_engine_runs_nothing() {
    let mut engine = Autoplay::new();
    let mut input: ButtonInput<KeyId> = ButtonInput::default();
    input.press(KEY_A);
    engine.tick(&mut input, ms(16));
    assert_eq!(engine.state(), AutoplayState::Stopped);
    assert_eq!(engine.session().len(), 0);
    assert!(input.just_pressed(KEY_A));
}

#[test]
fn recorded_session_plays_back_at_the_recorded_times() {
    // Recording starts at 0 s; A goes down at 0.5 s and up at 1.2 s.
    let mut keyboard: ButtonInput<KeyId> = ButtonInput::default();
    let mut recorder = Autoplay::new();
    recorder.toggle_record(Duration::ZERO);
    assert_eq!(recorder.state(), AutoplayState::Recording);
    recorder.tick(&mut keyboard, ms(250));
    assert_eq!(recorder.session().len(), 0);
    keyboard.clear();
    keyboard.press(KEY_A);
    recorder.tick(&mut keyboard, ms(500));
    keyboard.clear();
    recorder.tick(&mut keyboard, ms(800));
    keyboard.clear();
    keyboard.release(KEY_A);
    recorder.tick(&mut keyboard, ms(1200));
    recorder.toggle_record(ms(1500));
    assert_eq!(recorder.state(), AutoplayState::Stopped);
    assert_eq!(recorder.session().len(), 2);
    assert_eq!(
        recorder.session().get(0),
        &log_at(500, vec![ButtonEvent::Press(KEY_A)])
    );
    assert_eq!(
        recorder.session().get(1),
        &log_at(1200, vec![ButtonEvent::Release(KEY_A)])
    );
    let file = recorder.save().unwrap();

    // Another engine loads the file and enters playback at 10 s.
    let mut live: ButtonInput<KeyId> = ButtonInput::default();
    let mut player = Autoplay::new();
    assert_eq!(player.load_and_play(&file, ms(10_000)), Ok(()));
    assert_eq!(player.state(), AutoplayState::Playing);
    assert_eq!(player.start_time(), ms(10_000));
    assert_eq!(player.session().len(), 2);

    player.tick(&mut live, ms(10_016));
    assert!(untouched(&live));
    player.tick(&mut live, ms(10_499));
    assert!(untouched(&live));
    assert_eq!(player.session().len(), 2);

    live.clear();
    player.tick(&mut live, ms(10_500));
    assert!(live.pressed(KEY_A));
    assert!(live.just_pressed(KEY_A));
    assert_eq!(player.session().len(), 1);
    assert_eq!(player.state(), AutoplayState::Playing);

    live.clear();
    player.tick(&mut live, ms(11_000));
    assert!(live.pressed(KEY_A));
    assert!(!live.just_pressed(KEY_A));
    assert!(!live.just_released(KEY_A));

    live.clear();
    player.tick(&mut live, ms(11_200));
    assert!(!live.pressed(KEY_A));
    assert!(live.just_released(KEY_A));
    assert_eq!(player.session().len(), 0);
    assert_eq!(player.state(), AutoplayState::Playing);

    live.clear();
    player.tick(&mut live, ms(11_201));
    assert_eq!(player.state(), AutoplayState::Stopped);
    assert!(untouched(&live));
}

#[test]
fn player_must_press_f_key() {
    let mut session = Session::new();
    session.push_back(log_at(1_000, vec![ButtonEvent::Press(KEY_F)]));
    session.push_back(log_at(1_100, vec![ButtonEvent::Release(KEY_F)]));
    let file = bevy_autoplay::codec::encode(&session).unwrap();

    let mut keyboard_input: ButtonInput<KeyId> = ButtonInput::default();
    let mut engine = Autoplay::new();
    engine.load_and_play(&file, Duration::ZERO).unwrap();
    let mut f_pressed = false;
    let mut frame: u64 = 0;
    while engine.state() == AutoplayState::Playing {
        frame += 1;
        keyboard_input.clear();
        engine.tick(&mut keyboard_input, ms(16 * frame));
        if keyboard_input.just_pressed(KEY_F) {
            f_pressed = true;
            break;
        }
    }
    assert!(f_pressed);
    assert_eq!(frame, 63);
}

#[test]
fn playing_an_empty_session_stops_on_the_first_tick() {
    let mut engine = Autoplay::new();
    let mut input: ButtonInput<KeyId> = ButtonInput::default();
    engine.toggle_play(ms(5));
    assert_eq!(engine.state(), AutoplayState::Playing);
    engine.tick(&mut input, ms(5));
    assert_eq!(engine.state(), AutoplayState::Stopped);
    assert!(untouched(&input));
    assert_eq!(engine.session().len(), 0);
}

#[test]
fn entering_recording_discards_the_old_session() {
    let mut session = Session::new();
    session.push_back(log_at(1, vec![ButtonEvent::Press(KEY_A)]));
    session.push_back(log_at(2, vec![ButtonEvent::Release(KEY_A)]));
    let file = bevy_autoplay::codec::encode(&session).unwrap();
    let mut engine = Autoplay::new();
    assert_eq!(engine.load(&file), Ok(()));
    assert_eq!(engine.session().len(), 2);
    assert_eq!(engine.state(), AutoplayState::Stopped);
    engine.toggle_record(ms(100));
    assert_eq!(engine.state(), AutoplayState::Recording);
    assert_eq!(engine.session().len(), 0);
    assert_eq!(engine.start_time(), ms(100));

    let mut input: ButtonInput<KeyId> = ButtonInput::default();
    input.press(KEY_F);
    engine.tick(&mut input, ms(130));
    assert_eq!(engine.session().len(), 1);
    assert_eq!(
        engine.session().front(),
        Some(&log_at(30, vec![ButtonEvent::Press(KEY_F)]))
    );
}

#[test]
fn only_the_recorder_runs_while_recording() {
    let mut engine = Autoplay::new();
    engine.toggle_record(Duration::ZERO);
    let mut input: ButtonInput<KeyId> = ButtonInput::default();
    input.press(KEY_A);
    engine.tick(&mut input, ms(10));
    // The batch that was just recorded is due at once, and is not played.
    input.clear();
    engine.tick(&mut input, ms(20));
    assert_eq!(engine.session().len(), 1);
    assert!(input.pressed(KEY_A));
    assert!(!input.just_released(KEY_A));
    assert_eq!(engine.state(), AutoplayState::Recording);
}

#[test]
fn only_the_player_runs_while_playing() {
    let mut engine = Autoplay::new();
    let mut session = Session::new();
    session.push_back(log_at(1_000, vec![ButtonEvent::Press(KEY_A)]));
    let file = bevy_autoplay::codec::encode(&session).unwrap();
    engine.load_and_play(&file, Duration::ZERO).unwrap();
    let mut input: ButtonInput<KeyId> = ButtonInput::default();
    input.press(KEY_F);
    engine.tick(&mut input, ms(10));
    // The press of F is not recorded.
    assert_eq!(engine.session().len(), 1);
    assert_eq!(
        engine.session().front(),
        Some(&log_at(1_000, vec![ButtonEvent::Press(KEY_A)]))
    );
}

#[test]
fn the_toggles_change_the_mode() {
    let mut engine = Autoplay::new();
    engine.toggle_play(ms(1));
    assert_eq!(engine.state(), AutoplayState::Playing);
    engine.toggle_record(ms(2));
    assert_eq!(engine.state(), AutoplayState::Recording);
    assert_eq!(engine.start_time(), ms(2));
    engine.toggle_play(ms(3));
    assert_eq!(engine.state(), AutoplayState::Playing);
    assert_eq!(engine.start_time(), ms(3));
    engine.toggle_play(ms(4));
    assert_eq!(engine.state(), AutoplayState::Stopped);
    assert_eq!(engine.start_time(), ms(3));
    engine.toggle_record(ms(5));
    engine.toggle_record(ms(6));
    assert_eq!(engine.state(), AutoplayState::Stopped);
}

#[test]
fn asking_for_the_mode_that_holds_starts_no_new_run() {
    let mut engine = Autoplay::new();
    engine.set_state(AutoplayState::Recording, ms(10));
    let mut input: ButtonInput<KeyId> = ButtonInput::default();
    input.press(KEY_A);
    engine.tick(&mut input, ms(20));
    engine.set_state(AutoplayState::Recording, ms(30));
    assert_eq!(engine.session().len(), 1);
    assert_eq!(engine.start_time(), ms(10));
}

#[test]
fn stopping_keeps_the_session() {
    let mut engine = Autoplay::new();
    engine.set_state(AutoplayState::Recording, ms(10));
    let mut input: ButtonInput<KeyId> = ButtonInput::default();
    input.press(KEY_A);
    engine.tick(&mut input, ms(20));
    engine.set_state(AutoplayState::Stopped, ms(30));
    assert_eq!(engine.session().len(), 1);
    engine.set_state(AutoplayState::Playing, ms(40));
    assert_eq!(engine.session().len(), 1);
    assert_eq!(engine.start_time(), ms(40));
}

#[test]
fn a_corrupt_file_changes_nothing() {
    let mut engine = Autoplay::new();
    engine.set_state(AutoplayState::Recording, ms(10));
    let mut input: ButtonInput<KeyId> = ButtonInput::default();
    input.press(KEY_A);
    engine.tick(&mut input, ms(20));
    engine.set_state(AutoplayState::Stopped, ms(30));
    assert_eq!(engine.load(&[1, 1, 0, 0, 0]), Err(DecodeError::Truncated));
    assert_eq!(engine.session().len(), 1);
    assert_eq!(
        engine.load_and_play(&[9, 0, 0, 0, 0], ms(40)),
        Err(DecodeError::VersionMismatch)
    );
    assert_eq!(engine.state(), AutoplayState::Stopped);
    assert_eq!(engine.session().len(), 1);
    assert_eq!(engine.start_time(), ms(10));
}

#[test]
fn loading_while_playing_goes_on_with_the_new_session() {
    let mut first = Session::new();
    first.push_back(log_at(1_000, vec![ButtonEvent::Press(KEY_A)]));
    let mut second = Session::new();
    second.push_back(log_at(50, vec![ButtonEvent::Press(KEY_F)]));
    let mut engine = Autoplay::new();
    engine
        .load_and_play(&bevy_autoplay::codec::encode(&first).unwrap(), ms(100))
        .unwrap();
    engine
        .load_and_play(&bevy_autoplay::codec::encode(&second).unwrap(), ms(200))
        .unwrap();
    assert_eq!(engine.state(), AutoplayState::Playing);
    assert_eq!(engine.start_time(), ms(100));
    let mut input: ButtonInput<KeyId> = ButtonInput::default();
    engine.tick(&mut input, ms(200));
    assert!(input.pressed(KEY_F));
}

#[test]
fn saving_and_loading_gives_the_session_back() {
    let mut engine = Autoplay::new();
    engine.set_state(AutoplayState::Recording, Duration::ZERO);
    let mut input: ButtonInput<KeyId> = ButtonInput::default();
    for frame in 1..200u64 {
        input.clear();
        if frame % 3 == 0 {
            input.press((frame % 11) as KeyId);
        }
        if frame % 5 == 0 {
            input.release(((frame + 4) % 11) as KeyId);
        }
        engine.tick(&mut input, ms(16 * frame));
    }
    engine.set_state(AutoplayState::Stopped, ms(16 * 200));
    let file = engine.save().unwrap();
    let decoded = decode(&file).unwrap();
    assert_eq!(&decoded, engine.session());
    let mut other = Autoplay::new();
    other.load(&file).unwrap();
    assert_eq!(other.session(), engine.session());
    assert_eq!(other.save(), Ok(file));
}

#[test]
fn a_tick_before_the_start_of_the_recording_records_nothing() {
    let mut engine = Autoplay::new();
    engine.set_state(AutoplayState::Recording, ms(100));
    let mut input: ButtonInput<KeyId> = ButtonInput::default();
    input.press(KEY_A);
    engine.tick(&mut input, ms(99));
    assert_eq!(engine.session().len(), 0);
    engine.tick(&mut input, ms(100));
    assert_eq!(engine.session().len(), 1);
    assert_eq!(
        engine.session().front(),
        Some(&log_at(0, vec![ButtonEvent::Press(KEY_A)]))
    );
}

#[test]
fn a_tick_before_the_last_batch_records_nothing() {
    let mut engine = Autoplay::new();
    engine.set_state(AutoplayState::Recording, ms(100));
    let mut input: ButtonInput<KeyId> = ButtonInput::default();
    input.press(KEY_A);
    engine.tick(&mut input, ms(150));
    input.clear();
    input.press(KEY_F);
    engine.tick(&mut input, ms(149));
    assert_eq!(engine.session().len(), 1);
    engine.tick(&mut input, ms(150));
    assert_eq!(engine.session().len(), 2);
    assert_eq!(
        engine.session().back(),
        Some(&log_at(50, vec![ButtonEvent::Press(KEY_F)]))
    );
}

#[test]
fn loading_while_recording_keeps_the_session_in_order() {
    let mut later = Session::new();
    later.push_back(log_at(5_000, vec![ButtonEvent::Press(KEY_A)]));
    let file = bevy_autoplay::codec::encode(&later).unwrap();
    let mut engine = Autoplay::new();
    engine.set_state(AutoplayState::Recording, Duration::ZERO);
    assert_eq!(engine.load(&file), Ok(()));
    assert_eq!(engine.state(), AutoplayState::Recording);
    let mut input: ButtonInput<KeyId> = ButtonInput::default();
    input.press(KEY_F);
    engine.tick(&mut input, ms(1_000));
    assert_eq!(engine.session().len(), 1);
    engine.tick(&mut input, ms(5_000));
    assert_eq!(engine.session().len(), 2);
    assert_eq!(
        engine.session().back(),
        Some(&log_at(5_000, vec![ButtonEvent::Press(KEY_F)]))
    );
}
