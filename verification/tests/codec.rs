use bevy_autoplay::codec::{decode, encode, DecodeError, FORMAT_VERSION, TAG_PRESS, TAG_RELEASE};
use bevy_autoplay::keyboard::KeyId;
use bevy_autoplay::session::{ButtonEvent, InputLog, Session};
use std::time::Duration;

const KEY_A: KeyId = 0x0102_0304;
const KEY_F: KeyId = 25;

fn log_at(timestamp: Duration, events: Vec<ButtonEvent<KeyId>>) -> InputLog<KeyId> {
    let mut log = InputLog::new(timestamp);
    for event in events {
        log.push(event);
    }
    log
}

fn press_and_release() -> Session {
    let mut session = Session::new();
    session.push_back(log_at(
        Duration::from_millis(500),
        vec![ButtonEvent::Press(KEY_A)],
    ));
    session.push_back(log_at(
        Duration::from_millis(1200),
        vec![ButtonEvent::Release(KEY_A)],
    ));
    session
}

fn press_and_release_bytes() -> Vec<u8> {
    vec![
        1, // version
        2, 0, 0, 0, // two batches
        0, 0, 0, 0, 0, 0, 0, 0, // 0 s
        0x00, 0x65, 0xcd, 0x1d, // 500_000_000 ns
        1, 0, 0, 0, // one transition
        0, 0x04, 0x03, 0x02, 0x01, // press
        1, 0, 0, 0, 0, 0, 0, 0, // 1 s
        0x00, 0xc2, 0xeb, 0x0b, // 200_000_000 ns
        1, 0, 0, 0, // one transition
        1, 0x04, 0x03, 0x02, 0x01, // release
    ]
}

#[test]
fn the_format_constants() {
    assert_eq!(FORMAT_VERSION, 1);
    assert_eq!(TAG_PRESS, 0);
    assert_eq!(TAG_RELEASE, 1);
}

#[test]
fn an_empty_session_is_a_header() {
    assert_eq!(encode(&Session::new()), Ok(vec![1, 0, 0, 0, 0]));
    assert_eq!(decode(&[1, 0, 0, 0, 0]), Ok(Session::new()));
}

#[test]
fn encode_writes_the_documented_bytes() {
    assert_eq!(encode(&press_and_release()), Ok(press_and_release_bytes()));
}

#[test]
fn decode_reads_the_documented_bytes() {
    assert_eq!(decode(&press_and_release_bytes()), Ok(press_and_release()));
}

#[test]
fn encode_writes_a_batch_without_transitions() {
    let mut session = Session::new();
    session.push_back(InputLog::new(Duration::new(0x0102_0304_0506_0708, 7)));
    let bytes = vec![
        1, 1, 0, 0, 0, 0x08, 0x07, 0x06, 0x05, 0x04, 0x03, 0x02, 0x01, 7, 0, 0, 0, 0, 0, 0, 0,
    ];
    assert_eq!(encode(&session), Ok(bytes.clone()));
    assert_eq!(decode(&bytes), Ok(session));
}

#[test]
fn round_trip_keeps_offsets_transitions_and_order() {
    let mut session = Session::new();
    session.push_back(log_at(Duration::ZERO, vec![ButtonEvent::Press(0)]));
    session.push_back(log_at(
        Duration::new(0, 1),
        vec![
            ButtonEvent::Press(KEY_F),
            ButtonEvent::Press(KEY_A),
            ButtonEvent::Release(0),
            ButtonEvent::Release(KEY_F),
        ],
    ));
    session.push_back(log_at(
        Duration::new(0, 1),
        vec![ButtonEvent::Release(KEY_A), ButtonEvent::Press(u32::MAX)],
    ));
    session.push_back(log_at(
        Duration::new(u64::MAX, 999_999_999),
        vec![ButtonEvent::Release(u32::MAX)],
    ));
    let bytes = encode(&session).unwrap();
    assert_eq!(bytes.len(), 5 + 4 * 16 + 8 * 5);
    let decoded = decode(&bytes).unwrap();
    assert_eq!(decoded, session);
    assert_eq!(decoded.len(), 4);
    assert_eq!(
        decoded.get(1).events(),
        &vec![
            ButtonEvent::Press(KEY_F),
            ButtonEvent::Press(KEY_A),
            ButtonEvent::Release(0),
            ButtonEvent::Release(KEY_F),
        ]
    );
    assert_eq!(
        decoded.get(3).timestamp(),
        Duration::new(u64::MAX, 999_999_999)
    );
    assert_eq!(encode(&decoded), Ok(bytes));
}

#[test]
fn round_trip_of_many_batches() {
    let mut session = Session::new();
    for tick in 0..1000u32 {
        let mut log = InputLog::new(Duration::from_millis(16 * tick as u64));
        for key in 0..(tick % 7) {
            if (tick + key) % 2 == 0 {
                log.push(ButtonEvent::Press(key * 1000 + tick));
            } else {
                log.push(ButtonEvent::Release(key * 1000 + tick));
            }
        }
        session.push_back(log);
    }
    let bytes = encode(&session).unwrap();
    assert_eq!(decode(&bytes), Ok(session));
}

#[test]
fn decode_refuses_nothing_at_all() {
    assert_eq!(decode(&[]), Err(DecodeError::Truncated));
}

#[test]
fn decode_refuses_another_version() {
    assert_eq!(decode(&[0, 0, 0, 0, 0]), Err(DecodeError::VersionMismatch));
    assert_eq!(decode(&[2, 0, 0, 0, 0]), Err(DecodeError::VersionMismatch));
    assert_eq!(decode(&[2]), Err(DecodeError::VersionMismatch));
    let mut bytes = press_and_release_bytes();
    bytes[0] = 0x93;
    assert_eq!(decode(&bytes), Err(DecodeError::VersionMismatch));
}

#[test]
fn decode_refuses_a_cut_header() {
    assert_eq!(decode(&[1]), Err(DecodeError::Truncated));
    assert_eq!(decode(&[1, 0, 0, 0]), Err(DecodeError::Truncated));
}

#[test]
fn decode_refuses_every_proper_prefix() {
    let bytes = press_and_release_bytes();
    for cut in 0..bytes.len() {
        assert_eq!(
            decode(&bytes[..cut]),
            Err(DecodeError::Truncated),
            "cut at {}",
            cut
        );
    }
}

#[test]
fn decode_refuses_a_missing_batch() {
    assert_eq!(decode(&[1, 1, 0, 0, 0]), Err(DecodeError::Truncated));
    assert_eq!(
        decode(&[1, 0xff, 0xff, 0xff, 0xff]),
        Err(DecodeError::Truncated)
    );
}

#[test]
fn decode_refuses_an_unknown_tag() {
    let mut bytes = press_and_release_bytes();
    bytes[21] = 2;
    assert_eq!(decode(&bytes), Err(DecodeError::UnknownTag));
    bytes[21] = 0xff;
    assert_eq!(decode(&bytes), Err(DecodeError::UnknownTag));
    let mut bytes = press_and_release_bytes();
    bytes[42] = 7;
    assert_eq!(decode(&bytes), Err(DecodeError::UnknownTag));
}

#[test]
fn decode_refuses_nanoseconds_of_a_second_or_more() {
    let mut bytes = press_and_release_bytes();
    bytes[13..17].copy_from_slice(&1_000_000_000u32.to_le_bytes());
    assert_eq!(decode(&bytes), Err(DecodeError::InvalidDuration));
    bytes[13..17].copy_from_slice(&999_999_999u32.to_le_bytes());
    assert!(decode(&bytes).is_ok());
    bytes[13..17].copy_from_slice(&u32::MAX.to_le_bytes());
    assert_eq!(decode(&bytes), Err(DecodeError::InvalidDuration));
}

#[test]
fn decode_refuses_a_batch_before_its_predecessor() {
    let mut bytes = press_and_release_bytes();
    bytes[26] = 0;
    assert_eq!(decode(&bytes), Err(DecodeError::OutOfOrder));
    let mut bytes = press_and_release_bytes();
    bytes[26] = 0;
    bytes[34..38].copy_from_slice(&500_000_000u32.to_le_bytes());
    assert!(decode(&bytes).is_ok());
    bytes[34..38].copy_from_slice(&499_999_999u32.to_le_bytes());
    assert_eq!(decode(&bytes), Err(DecodeError::OutOfOrder));
}

#[test]
fn decode_refuses_bytes_behind_the_last_batch() {
    let mut bytes = press_and_release_bytes();
    bytes.push(0);
    assert_eq!(decode(&bytes), Err(DecodeError::TrailingBytes));
    assert_eq!(decode(&[1, 0, 0, 0, 0, 0]), Err(DecodeError::TrailingBytes));
}

#[test]
fn decode_reports_the_first_fault() {
    // The second batch is both out of order and cut short: the order is
    // checked first.
    let mut bytes = press_and_release_bytes();
    bytes[26] = 0;
    bytes.truncate(42);
    assert_eq!(decode(&bytes), Err(DecodeError::OutOfOrder));
    // A transition count that the bytes cannot hold is found before a tag
    // is looked at.
    let mut bytes = press_and_release_bytes();
    bytes[17] = 9;
    bytes[21] = 5;
    assert_eq!(decode(&bytes), Err(DecodeError::Truncated));
}

#[test]
fn a_corrupt_file_is_not_an_empty_session() {
    let garbage = b"not a session file";
    assert!(decode(garbage).is_err());
    assert_ne!(decode(garbage), Ok(Session::new()));
}
