use bevy_autoplay::mode::{toggle_play, toggle_record, AutoplayState};

#[test]
fn the_initial_mode_is_stopped() {
    assert_eq!(AutoplayState::default(), AutoplayState::Stopped);
}

#[test]
fn record_toggle_follows_the_table() {
    assert_eq!(toggle_record(AutoplayState::Stopped), AutoplayState::Recording);
    assert_eq!(toggle_record(AutoplayState::Recording), AutoplayState::Stopped);
    assert_eq!(toggle_record(AutoplayState::Playing), AutoplayState::Recording);
}

#[test]
fn play_toggle_follows_the_table() {
    assert_eq!(toggle_play(AutoplayState::Stopped), AutoplayState::Playing);
    assert_eq!(toggle_play(AutoplayState::Recording), AutoplayState::Playing);
    assert_eq!(toggle_play(AutoplayState::Playing), AutoplayState::Stopped);
}

#[test]
fn a_toggle_given_twice_from_stopped_stops_again() {
    assert_eq!(
        toggle_record(toggle_record(AutoplayState::Stopped)),
        AutoplayState::Stopped
    );
    assert_eq!(
        toggle_play(toggle_play(AutoplayState::Stopped)),
        AutoplayState::Stopped
    );
}
