//! The session file format.
//!
//! A session file is a version byte, the number of batches, and the batches
//! one after another, earliest first. All numbers are little-endian and of
//! fixed width:
//!
//! ```text
//! file       = version:u8  count:u32  batch*count
//! batch      = secs:u64  nanos:u32  count:u32  transition*count
//! transition = tag:u8  key:u32          tag 0 = press, 1 = release
//! ```
//!
//! `session_bytes` says what the file of a session is, `parse_session` what
//! the session of a file is, or why it has none. `encode` and `decode`
//! compute exactly these, and `lemma_round_trip` shows that parsing undoes
//! encoding.

use crate::clock::{lemma_nanos_split, max_nanos, total_nanos, NANOS_PER_SEC};
use crate::keyboard::KeyId;
use crate::session::{chronological, ButtonEvent, Entry, InputLog, Session};
use crate::wire::{
    le_bytes, le_value, lemma_le_bytes_len, lemma_le_bytes_of_value, lemma_le_value_bound,
    lemma_le_value_of_bytes, lemma_limits, put_u32, put_u64, read_u32, read_u64,
};
use std::time::Duration;
use vstd::prelude::*;

verus! {

/// The version of the format that this module writes and reads.
pub const FORMAT_VERSION: u8 = 1;

/// The tag byte of a press.
pub const TAG_PRESS: u8 = 0;

/// The tag byte of a release.
pub const TAG_RELEASE: u8 = 1;

/// Why a session could not be written.
#[derive(Debug, Clone, Copy, PartialEq, Eq, Structural)]
pub enum EncodeError {
    /// The session holds more batches than the count field can say.
    TooManyEntries,
    /// A batch holds more transitions than the count field can say.
    TooManyTransitions,
}

/// Why a byte string is not a session file.
#[derive(Debug, Clone, Copy, PartialEq, Eq, Structural)]
pub enum DecodeError {
    /// The bytes end before the header, a batch or a transition is complete.
    Truncated,
    /// The version byte is not `FORMAT_VERSION`.
    VersionMismatch,
    /// A transition's tag byte is neither `TAG_PRESS` nor `TAG_RELEASE`.
    UnknownTag,
    /// A batch's nanoseconds are a whole second or more.
    InvalidDuration,
    /// A batch is earlier than the batch before it.
    OutOfOrder,
    /// Bytes follow the last batch.
    TrailingBytes,
}

/// The bytes of one transition.
pub open spec fn event_bytes(event: ButtonEvent<KeyId>) -> Seq<u8> {
    match event {
        ButtonEvent::Press(key) => seq![TAG_PRESS] + le_bytes(key as nat, 4),
        ButtonEvent::Release(key) => seq![TAG_RELEASE] + le_bytes(key as nat, 4),
    }
}

/// The bytes of a run of transitions: those of each, in order.
pub open spec fn events_bytes(events: Seq<ButtonEvent<KeyId>>) -> Seq<u8>
    decreases events.len(),
{
    if events.len() == 0 {
        Seq::empty()
    } else {
        event_bytes(events.first()) + events_bytes(events.drop_first())
    }
}

/// The bytes of one batch.
pub open spec fn entry_bytes(entry: Entry<KeyId>) -> Seq<u8> {
    le_bytes(entry.offset / (NANOS_PER_SEC as nat), 8) + le_bytes(
        entry.offset % (NANOS_PER_SEC as nat),
        4,
    ) + le_bytes(entry.events.len(), 4) + events_bytes(entry.events)
}

/// The bytes of a run of batches: those of each, in order.
pub open spec fn entries_bytes(entries: Seq<Entry<KeyId>>) -> Seq<u8>
    decreases entries.len(),
{
    if entries.len() == 0 {
        Seq::empty()
    } else {
        entry_bytes(entries.first()) + entries_bytes(entries.drop_first())
    }
}

/// The file of a session.
pub open spec fn session_bytes(entries: Seq<Entry<KeyId>>) -> Seq<u8> {
    seq![FORMAT_VERSION] + le_bytes(entries.len(), 4) + entries_bytes(entries)
}

/// Whether some batch holds more transitions than a count field can say.
pub open spec fn has_oversized_entry(entries: Seq<Entry<KeyId>>) -> bool {
    exists|i: int| 0 <= i < entries.len() && (#[trigger] entries[i]).events.len() > u32::MAX
}

/// What writing a session gives: its file, unless a count does not fit.
pub open spec fn encode_result(entries: Seq<Entry<KeyId>>) -> Result<Seq<u8>, EncodeError> {
    if entries.len() > u32::MAX {
        Err(EncodeError::TooManyEntries)
    } else if has_oversized_entry(entries) {
        Err(EncodeError::TooManyTransitions)
    } else {
        Ok(session_bytes(entries))
    }
}

/// The bytes of a run of transitions with one more at its end.
pub proof fn lemma_events_bytes_push(events: Seq<ButtonEvent<KeyId>>, event: ButtonEvent<KeyId>)
    ensures
        events_bytes(events.push(event)) == events_bytes(events) + event_bytes(event),
    decreases events.len(),
{
    let pushed = events.push(event);
    if events.len() == 0 {
        assert(pushed.drop_first() =~= Seq::<ButtonEvent<KeyId>>::empty());
        assert(events_bytes(pushed) =~= event_bytes(event) + events_bytes(pushed.drop_first()));
        assert(events_bytes(pushed) =~= events_bytes(events) + event_bytes(event));
    } else {
        assert(pushed.drop_first() =~= events.drop_first().push(event));
        lemma_events_bytes_push(events.drop_first(), event);
        assert(events_bytes(pushed) =~= events_bytes(events) + event_bytes(event));
    }
}

/// The bytes of a run of batches with one more at its end.
pub proof fn lemma_entries_bytes_push(entries: Seq<Entry<KeyId>>, entry: Entry<KeyId>)
    ensures
        entries_bytes(entries.push(entry)) == entries_bytes(entries) + entry_bytes(entry),
    decreases entries.len(),
{
    let pushed = entries.push(entry);
    if entries.len() == 0 {
        assert(pushed.drop_first() =~= Seq::<Entry<KeyId>>::empty());
        assert(entries_bytes(pushed) =~= entry_bytes(entry) + entries_bytes(pushed.drop_first()));
        assert(entries_bytes(pushed) =~= entries_bytes(entries) + entry_bytes(entry));
    } else {
        assert(pushed.drop_first() =~= entries.drop_first().push(entry));
        lemma_entries_bytes_push(entries.drop_first(), entry);
        assert(entries_bytes(pushed) =~= entries_bytes(entries) + entry_bytes(entry));
    }
}

fn put_events(out: &mut Vec<u8>, events: &Vec<ButtonEvent<KeyId>>)
    ensures
        final(out)@ == old(out)@ + events_bytes(events@),
{
    let mut i: usize = 0;
    assert(events@.take(0) =~= Seq::<ButtonEvent<KeyId>>::empty());
    assert(out@ =~= old(out)@ + events_bytes(events@.take(0)));
    while i < events.len()
        invariant
            i <= events.len(),
            out@ == old(out)@ + events_bytes(events@.take(i as int)),
        decreases events.len() - i,
    {
        proof {
            lemma_events_bytes_push(events@.take(i as int), events@[i as int]);
            assert(events@.take(i + 1) =~= events@.take(i as int).push(events@[i as int]));
        }
        let ghost before = out@;
        match &events[i] {
            ButtonEvent::Press(key) => {
                out.push(TAG_PRESS);
                put_u32(out, *key);
                assert(out@ =~= before + event_bytes(events@[i as int]));
            },
            ButtonEvent::Release(key) => {
                out.push(TAG_RELEASE);
                put_u32(out, *key);
                assert(out@ =~= before + event_bytes(events@[i as int]));
            },
        }
        assert(out@ =~= old(out)@ + events_bytes(events@.take(i + 1)));
        i += 1;
    }
    assert(events@.take(i as int) =~= events@);
}

/// Appends the bytes of one batch, unless it holds too many transitions.
fn put_entry(out: &mut Vec<u8>, log: &InputLog<KeyId>) -> (fits: bool)
    ensures
        fits == (log@.events.len() <= u32::MAX),
        fits ==> final(out)@ == old(out)@ + entry_bytes(log@),
        log@.offset <= max_nanos(),
{
    let events = log.events();
    let nanos: u128 = total_nanos(log.timestamp());
    if events.len() > 0xffff_ffff {
        return false;
    }
    assert(NANOS_PER_SEC == 1_000_000_000);
    put_u64(out, (nanos / 1_000_000_000) as u64);
    put_u32(out, (nanos % 1_000_000_000) as u32);
    put_u32(out, events.len() as u32);
    put_events(out, events);
    assert(out@ =~= old(out)@ + entry_bytes(log@));
    true
}

/// Writes a session as its file. What is written can be read back: the
/// file of a well-formed session parses to that session.
pub fn encode(session: &Session) -> (result: Result<Vec<u8>, EncodeError>)
    ensures
        match result {
            Ok(bytes) => encode_result(session@) == Ok::<Seq<u8>, EncodeError>(bytes@),
            Err(error) => encode_result(session@) == Err::<Seq<u8>, EncodeError>(error),
        },
        result is Ok && session.wf() ==> parse_session(result.unwrap()@) == Ok::<
            Seq<Entry<KeyId>>,
            DecodeError,
        >(session@),
{
    let count = session.len();
    if count > 0xffff_ffff {
        return Err(EncodeError::TooManyEntries);
    }
    let mut out: Vec<u8> = Vec::new();
    out.push(FORMAT_VERSION);
    put_u32(&mut out, count as u32);
    let ghost header = out@;
    let mut i: usize = 0;
    assert(session@.take(0) =~= Seq::<Entry<KeyId>>::empty());
    assert(out@ =~= header + entries_bytes(session@.take(0)));
    while i < count
        invariant
            i <= count,
            count == session@.len(),
            count <= u32::MAX,
            header == seq![FORMAT_VERSION] + le_bytes(count as nat, 4),
            out@ == header + entries_bytes(session@.take(i as int)),
            forall|k: int| 0 <= k < i ==> representable(#[trigger] session@[k]),
        decreases count - i,
    {
        let fits = put_entry(&mut out, session.get(i));
        if !fits {
            assert(has_oversized_entry(session@));
            return Err(EncodeError::TooManyTransitions);
        }
        proof {
            lemma_entries_bytes_push(session@.take(i as int), session@[i as int]);
            assert(session@.take(i + 1) =~= session@.take(i as int).push(session@[i as int]));
            assert(out@ =~= header + entries_bytes(session@.take(i + 1)));
        }
        i += 1;
    }
    assert(session@.take(i as int) =~= session@);
    assert(!has_oversized_entry(session@));
    proof {
        if session.wf() {
            lemma_round_trip(session@);
        }
    }
    Ok(out)
}

/// The number at `pos`, four bytes wide.
pub open spec fn u32_at(bytes: Seq<u8>, pos: int) -> nat {
    le_value(bytes.subrange(pos, pos + 4))
}

/// The number at `pos`, eight bytes wide.
pub open spec fn u64_at(bytes: Seq<u8>, pos: int) -> nat {
    le_value(bytes.subrange(pos, pos + 8))
}

/// The tag byte of the transition number `index` of a run that begins at `pos`.
pub open spec fn tag_at(bytes: Seq<u8>, pos: int, index: int) -> u8 {
    bytes[pos + 5 * index]
}

/// The transition number `index` of a run that begins at `pos`.
pub open spec fn event_at(bytes: Seq<u8>, pos: int, index: int) -> ButtonEvent<KeyId> {
    if tag_at(bytes, pos, index) == TAG_PRESS {
        ButtonEvent::Press(u32_at(bytes, pos + 5 * index + 1) as u32)
    } else {
        ButtonEvent::Release(u32_at(bytes, pos + 5 * index + 1) as u32)
    }
}

/// Whether each of the `count` transitions at `pos` has a tag that is known.
pub open spec fn tags_known(bytes: Seq<u8>, pos: int, count: nat) -> bool {
    forall|index: int| 0 <= index < count ==> #[trigger] tag_at(bytes, pos, index) <= TAG_RELEASE
}

/// The `count` transitions at `pos`.
pub open spec fn events_at(bytes: Seq<u8>, pos: int, count: nat) -> Seq<ButtonEvent<KeyId>> {
    Seq::new(count, |index: int| event_at(bytes, pos, index))
}

/// The batch at `pos` and the position behind it, where no batch before it
/// is later than `floor`; or why there is no such batch. The checks are made
/// in this order: the fixed part is complete; the nanoseconds are less than a
/// second; the batch is not earlier than `floor`; the transitions are
/// complete; their tags are known.
pub open spec fn parse_entry(bytes: Seq<u8>, pos: int, floor: nat) -> Result<
    (Entry<KeyId>, int),
    DecodeError,
> {
    let secs = u64_at(bytes, pos);
    let nanos = u32_at(bytes, pos + 8);
    let count = u32_at(bytes, pos + 12);
    let offset = secs * (NANOS_PER_SEC as nat) + nanos;
    if pos + 16 > bytes.len() {
        Err(DecodeError::Truncated)
    } else if nanos >= NANOS_PER_SEC {
        Err(DecodeError::InvalidDuration)
    } else if offset < floor {
        Err(DecodeError::OutOfOrder)
    } else if pos + 16 + 5 * count > bytes.len() {
        Err(DecodeError::Truncated)
    } else if !tags_known(bytes, pos + 16, count) {
        Err(DecodeError::UnknownTag)
    } else {
        Ok((Entry { offset, events: events_at(bytes, pos + 16, count) }, pos + 16 + 5 * count))
    }
}

/// What follows `parsed` when the batches of `head` came before it.
pub open spec fn prepend(
    head: Seq<Entry<KeyId>>,
    parsed: Result<Seq<Entry<KeyId>>, DecodeError>,
) -> Result<Seq<Entry<KeyId>>, DecodeError> {
    match parsed {
        Ok(rest) => Ok(head + rest),
        Err(error) => Err(error),
    }
}

/// The `count` batches at `pos`, which must reach the end of the bytes; or
/// the first reason why they are not there.
pub open spec fn parse_entries(bytes: Seq<u8>, pos: int, count: nat, floor: nat) -> Result<
    Seq<Entry<KeyId>>,
    DecodeError,
>
    decreases count,
{
    if count == 0 {
        if pos == bytes.len() {
            Ok(Seq::empty())
        } else {
            Err(DecodeError::TrailingBytes)
        }
    } else {
        match parse_entry(bytes, pos, floor) {
            Err(error) => Err(error),
            Ok((entry, next)) => prepend(
                seq![entry],
                parse_entries(bytes, next, (count - 1) as nat, entry.offset),
            ),
        }
    }
}

/// The session of a file, or the first reason why the bytes are no file.
pub open spec fn parse_session(bytes: Seq<u8>) -> Result<Seq<Entry<KeyId>>, DecodeError> {
    if bytes.len() < 1 {
        Err(DecodeError::Truncated)
    } else if bytes[0] != FORMAT_VERSION {
        Err(DecodeError::VersionMismatch)
    } else if bytes.len() < 5 {
        Err(DecodeError::Truncated)
    } else {
        parse_entries(bytes, 5, u32_at(bytes, 1), 0)
    }
}

/// Reads the `count` transitions at `pos` into `log`, up to the first unknown tag.
fn read_events(bytes: &[u8], pos: usize, count: u32, log: &mut InputLog<KeyId>) -> (known: bool)
    requires
        pos + 5 * count <= bytes@.len(),
        old(log)@.events.len() == 0,
    ensures
        known == tags_known(bytes@, pos as int, count as nat),
        known ==> final(log)@.events == events_at(bytes@, pos as int, count as nat),
        final(log)@.offset == old(log)@.offset,
{
    let mut index: u32 = 0;
    let mut at: usize = pos;
    while index < count
        invariant
            index <= count,
            at == pos + 5 * index,
            pos + 5 * count <= bytes@.len(),
            log@.offset == old(log)@.offset,
            log@.events == events_at(bytes@, pos as int, index as nat),
            tags_known(bytes@, pos as int, index as nat),
        decreases count - index,
    {
        let tag = bytes[at];
        assert(tag == tag_at(bytes@, pos as int, index as int));
        if tag > TAG_RELEASE {
            return false;
        }
        let key = read_u32(bytes, at + 1);
        let event = if tag == TAG_PRESS {
            ButtonEvent::Press(key)
        } else {
            ButtonEvent::Release(key)
        };
        assert(event == event_at(bytes@, pos as int, index as int));
        log.push(event);
        assert(log@.events =~= events_at(bytes@, pos as int, (index + 1) as nat));
        index += 1;
        at += 5;
    }
    true
}

/// Reads the batch at `pos`.
fn read_entry(bytes: &[u8], pos: usize, floor: u128) -> (result: Result<
    (InputLog<KeyId>, usize, u128),
    DecodeError,
>)
    requires
        pos <= bytes@.len(),
    ensures
        match result {
            Ok((log, next, offset)) => parse_entry(bytes@, pos as int, floor as nat) == Ok::<
                (Entry<KeyId>, int),
                DecodeError,
            >((log@, next as int)) && offset == log@.offset && next <= bytes@.len(),
            Err(error) => parse_entry(bytes@, pos as int, floor as nat) == Err::<
                (Entry<KeyId>, int),
                DecodeError,
            >(error),
        },
{
    let len = bytes.len();
    if len - pos < 16 {
        return Err(DecodeError::Truncated);
    }
    let secs = read_u64(bytes, pos);
    let nanos = read_u32(bytes, pos + 8);
    let count = read_u32(bytes, pos + 12);
    assert(NANOS_PER_SEC == 1_000_000_000);
    if nanos >= NANOS_PER_SEC {
        return Err(DecodeError::InvalidDuration);
    }
    let offset: u128 = (secs as u128) * 1_000_000_000 + (nanos as u128);
    if offset < floor {
        return Err(DecodeError::OutOfOrder);
    }
    if ((len - pos - 16) as u64) < (count as u64) * 5 {
        return Err(DecodeError::Truncated);
    }
    let mut log: InputLog<KeyId> = InputLog::new(Duration::new(secs, nanos));
    let known = read_events(bytes, pos + 16, count, &mut log);
    if !known {
        return Err(DecodeError::UnknownTag);
    }
    let next: usize = pos + 16 + (count as usize) * 5;
    Ok((log, next, offset))
}

/// Reads a session from its file.
pub fn decode(bytes: &[u8]) -> (result: Result<Session, DecodeError>)
    ensures
        match result {
            Ok(session) => parse_session(bytes@) == Ok::<Seq<Entry<KeyId>>, DecodeError>(
                session@,
            ) && session.wf(),
            Err(error) => parse_session(bytes@) == Err::<Seq<Entry<KeyId>>, DecodeError>(error),
        },
{
    if bytes.len() < 1 {
        return Err(DecodeError::Truncated);
    }
    if bytes[0] != FORMAT_VERSION {
        return Err(DecodeError::VersionMismatch);
    }
    if bytes.len() < 5 {
        return Err(DecodeError::Truncated);
    }
    let count = read_u32(bytes, 1);
    let mut session = Session::new();
    let mut pos: usize = 5;
    let mut floor: u128 = 0;
    let mut index: u32 = 0;
    assert(session@ + Seq::<Entry<KeyId>>::empty() =~= session@);
    while index < count
        invariant
            index <= count,
            pos <= bytes@.len(),
            session.wf(),
            session@.len() > 0 ==> session@.last().offset == floor,
            parse_session(bytes@) == prepend(
                session@,
                parse_entries(bytes@, pos as int, (count - index) as nat, floor as nat),
            ),
        decreases count - index,
    {
        let ghost before = session@;
        match read_entry(bytes, pos, floor) {
            Err(error) => {
                return Err(error);
            },
            Ok((log, next, offset)) => {
                proof {
                    let rest = parse_entries(
                        bytes@,
                        next as int,
                        (count - index - 1) as nat,
                        log@.offset,
                    );
                    assert(prepend(before, prepend(seq![log@], rest)) == prepend(
                        before.push(log@),
                        rest,
                    )) by {
                        if let Ok(tail) = rest {
                            assert(before + (seq![log@] + tail) =~= before.push(log@) + tail);
                        }
                    }
                }
                session.push_back(log);
                pos = next;
                floor = offset;
            },
        }
        index += 1;
    }
    if pos != bytes.len() {
        return Err(DecodeError::TrailingBytes);
    }
    assert(session@ + Seq::<Entry<KeyId>>::empty() =~= session@);
    Ok(session)
}

/// Whether a batch fits the format: a duration can hold its offset, and a
/// count field can say how many transitions it has.
pub open spec fn representable(entry: Entry<KeyId>) -> bool {
    entry.offset <= max_nanos() && entry.events.len() <= u32::MAX
}

/// Whether a session fits the format: its batches do, a count field can say
/// how many they are, and they are in chronological order.
pub open spec fn encodable(entries: Seq<Entry<KeyId>>) -> bool {
    &&& entries.len() <= u32::MAX
    &&& forall|i: int| 0 <= i < entries.len() ==> representable(#[trigger] entries[i])
    &&& chronological(entries)
}

/// The number of bytes that a batch takes.
pub open spec fn entry_len(entry: Entry<KeyId>) -> nat {
    16 + 5 * entry.events.len()
}

/// A transition takes five bytes.
pub proof fn lemma_event_bytes_len(event: ButtonEvent<KeyId>)
    ensures
        event_bytes(event).len() == 5,
{
    match event {
        ButtonEvent::Press(key) => lemma_le_bytes_len(key as nat, 4),
        ButtonEvent::Release(key) => lemma_le_bytes_len(key as nat, 4),
    }
}

/// A run of transitions takes five bytes for each.
pub proof fn lemma_events_bytes_len(events: Seq<ButtonEvent<KeyId>>)
    ensures
        events_bytes(events).len() == 5 * events.len(),
    decreases events.len(),
{
    if events.len() > 0 {
        lemma_event_bytes_len(events.first());
        lemma_events_bytes_len(events.drop_first());
    }
}

/// In the bytes of a run of transitions, the five bytes of transition number
/// `index` stand at five times `index`.
pub proof fn lemma_events_bytes_index(events: Seq<ButtonEvent<KeyId>>, index: int)
    requires
        0 <= index < events.len(),
    ensures
        5 * index + 5 <= events_bytes(events).len(),
        events_bytes(events).subrange(5 * index, 5 * index + 5) == event_bytes(events[index]),
    decreases events.len(),
{
    lemma_events_bytes_len(events);
    lemma_event_bytes_len(events.first());
    lemma_events_bytes_len(events.drop_first());
    let all = events_bytes(events);
    let head = event_bytes(events.first());
    let tail = events_bytes(events.drop_first());
    assert(all == head + tail);
    if index == 0 {
        assert(all.subrange(0, 5) =~= head);
    } else {
        lemma_events_bytes_index(events.drop_first(), index - 1);
        assert(all.subrange(5 * index, 5 * index + 5) =~= tail.subrange(
            5 * (index - 1),
            5 * (index - 1) + 5,
        ));
        assert(events.drop_first()[index - 1] == events[index]);
    }
}

/// Where the bytes of a run of transitions stand at `pos`, the transitions
/// read at `pos` are that run, and every tag is known.
pub proof fn lemma_events_parse(bytes: Seq<u8>, pos: int, events: Seq<ButtonEvent<KeyId>>)
    requires
        0 <= pos,
        pos + 5 * events.len() <= bytes.len(),
        bytes.subrange(pos, pos + 5 * events.len()) == events_bytes(events),
    ensures
        tags_known(bytes, pos, events.len()),
        events_at(bytes, pos, events.len()) == events,
{
    lemma_limits();
    let run = bytes.subrange(pos, pos + 5 * events.len());
    assert forall|index: int| 0 <= index < events.len() implies #[trigger] tag_at(
        bytes,
        pos,
        index,
    ) <= TAG_RELEASE && event_at(bytes, pos, index) == events[index] by {
        lemma_events_bytes_index(events, index);
        let chunk = event_bytes(events[index]);
        assert(chunk == run.subrange(5 * index, 5 * index + 5));
        assert(bytes[pos + 5 * index] == run[5 * index]);
        assert(run[5 * index] == chunk[0]);
        assert(bytes.subrange(pos + 5 * index + 1, pos + 5 * index + 5) =~= chunk.subrange(1, 5));
        match events[index] {
            ButtonEvent::Press(key) => {
                lemma_le_bytes_len(key as nat, 4);
                lemma_le_value_of_bytes(key as nat, 4);
                assert(chunk.subrange(1, 5) =~= le_bytes(key as nat, 4));
            },
            ButtonEvent::Release(key) => {
                lemma_le_bytes_len(key as nat, 4);
                lemma_le_value_of_bytes(key as nat, 4);
                assert(chunk.subrange(1, 5) =~= le_bytes(key as nat, 4));
            },
        }
    }
    assert(events_at(bytes, pos, events.len()) =~= events);
}

/// A batch takes sixteen bytes and five for each transition.
pub proof fn lemma_entry_bytes_len(entry: Entry<KeyId>)
    ensures
        entry_bytes(entry).len() == entry_len(entry),
{
    lemma_le_bytes_len(entry.offset / (NANOS_PER_SEC as nat), 8);
    lemma_le_bytes_len(entry.offset % (NANOS_PER_SEC as nat), 4);
    lemma_le_bytes_len(entry.events.len(), 4);
    lemma_events_bytes_len(entry.events);
}

/// Where the bytes of a batch that fits the format stand at `pos`, and the
/// batch is not earlier than `floor`, the batch read at `pos` is that batch.
pub proof fn lemma_entry_parse(bytes: Seq<u8>, pos: int, entry: Entry<KeyId>, floor: nat)
    requires
        0 <= pos,
        representable(entry),
        floor <= entry.offset,
        pos + entry_len(entry) <= bytes.len(),
        bytes.subrange(pos, pos + entry_len(entry)) == entry_bytes(entry),
    ensures
        parse_entry(bytes, pos, floor) == Ok::<(Entry<KeyId>, int), DecodeError>(
            (entry, pos + entry_len(entry)),
        ),
{
    lemma_limits();
    lemma_events_bytes_len(entry.events);
    let secs = entry.offset / (NANOS_PER_SEC as nat);
    let nanos = entry.offset % (NANOS_PER_SEC as nat);
    assert(secs <= u64::MAX && nanos < NANOS_PER_SEC && secs * (NANOS_PER_SEC as nat) + nanos
        == entry.offset) by (nonlinear_arith)
        requires
            secs == entry.offset / (NANOS_PER_SEC as nat),
            nanos == entry.offset % (NANOS_PER_SEC as nat),
            NANOS_PER_SEC == 1_000_000_000,
            entry.offset <= 0xffff_ffff_ffff_ffff * 1_000_000_000 + 999_999_999,
    ;
    let chunk = entry_bytes(entry);
    let count = entry.events.len() as int;
    lemma_le_bytes_len(secs, 8);
    lemma_le_bytes_len(nanos, 4);
    lemma_le_bytes_len(count as nat, 4);
    lemma_le_value_of_bytes(secs, 8);
    lemma_le_value_of_bytes(nanos, 4);
    lemma_le_value_of_bytes(count as nat, 4);
    assert(bytes.subrange(pos, pos + 8) =~= chunk.subrange(0, 8));
    assert(chunk.subrange(0, 8) =~= le_bytes(secs, 8));
    assert(bytes.subrange(pos + 8, pos + 12) =~= chunk.subrange(8, 12));
    assert(chunk.subrange(8, 12) =~= le_bytes(nanos, 4));
    assert(bytes.subrange(pos + 12, pos + 16) =~= chunk.subrange(12, 16));
    assert(chunk.subrange(12, 16) =~= le_bytes(count as nat, 4));
    assert(u64_at(bytes, pos) == secs);
    assert(u32_at(bytes, pos + 8) == nanos);
    assert(u32_at(bytes, pos + 12) == count);
    assert(bytes.subrange(pos + 16, pos + 16 + 5 * count) =~= chunk.subrange(
        16,
        16 + 5 * count,
    ));
    assert(chunk.subrange(16, 16 + 5 * count) =~= events_bytes(entry.events));
    lemma_events_parse(bytes, pos + 16, entry.events);
}

/// Where the bytes of a session that fits the format stand from `pos` to the
/// end, and no batch is earlier than `floor`, the batches read at `pos` are
/// that session.
pub proof fn lemma_entries_parse(
    bytes: Seq<u8>,
    pos: int,
    entries: Seq<Entry<KeyId>>,
    floor: nat,
)
    requires
        0 <= pos <= bytes.len(),
        bytes.subrange(pos, bytes.len() as int) == entries_bytes(entries),
        forall|i: int| 0 <= i < entries.len() ==> representable(#[trigger] entries[i]),
        chronological(entries),
        entries.len() > 0 ==> floor <= entries[0].offset,
    ensures
        parse_entries(bytes, pos, entries.len(), floor) == Ok::<Seq<Entry<KeyId>>, DecodeError>(
            entries,
        ),
    decreases entries.len(),
{
    if entries.len() == 0 {
        assert(bytes.subrange(pos, bytes.len() as int).len() == 0);
        assert(entries =~= Seq::<Entry<KeyId>>::empty());
    } else {
        let entry = entries.first();
        let rest = entries.drop_first();
        let tail = bytes.subrange(pos, bytes.len() as int);
        lemma_entry_bytes_len(entry);
        assert(tail == entry_bytes(entry) + entries_bytes(rest));
        let next = pos + entry_len(entry);
        assert(bytes.subrange(pos, next) =~= tail.subrange(0, entry_len(entry) as int));
        assert(tail.subrange(0, entry_len(entry) as int) =~= entry_bytes(entry));
        assert(representable(entries[0]));
        lemma_entry_parse(bytes, pos, entry, floor);
        assert(bytes.subrange(next, bytes.len() as int) =~= tail.subrange(
            entry_len(entry) as int,
            tail.len() as int,
        ));
        assert(tail.subrange(entry_len(entry) as int, tail.len() as int) =~= entries_bytes(rest));
        assert forall|i: int| 0 <= i < rest.len() implies representable(#[trigger] rest[i]) by {
            assert(rest[i] == entries[i + 1]);
        }
        assert forall|i: int, j: int| 0 <= i <= j < rest.len() implies (#[trigger] rest[i]).offset
            <= (#[trigger] rest[j]).offset by {
            assert(entries[i + 1].offset <= entries[j + 1].offset);
        }
        if rest.len() > 0 {
            assert(entries[0].offset <= entries[1].offset);
        }
        lemma_entries_parse(bytes, next, rest, entry.offset);
        assert(seq![entry] + rest =~= entries);
    }
}

/// Reading back what was written gives the session that was written: for
/// every session that fits the format, the file of the session parses, and
/// parses to that session, with the same offsets, the same transitions and
/// the same keys in the same order.
pub proof fn lemma_round_trip(entries: Seq<Entry<KeyId>>)
    requires
        encodable(entries),
    ensures
        parse_session(session_bytes(entries)) == Ok::<Seq<Entry<KeyId>>, DecodeError>(entries),
{
    lemma_limits();
    lemma_le_bytes_len(entries.len(), 4);
    lemma_le_value_of_bytes(entries.len(), 4);
    let bytes = session_bytes(entries);
    let count = le_bytes(entries.len(), 4);
    assert(bytes[0] == FORMAT_VERSION);
    assert(bytes.subrange(1, 5) =~= count);
    assert(u32_at(bytes, 1) == entries.len());
    assert(bytes.subrange(5, bytes.len() as int) =~= entries_bytes(entries));
    lemma_entries_parse(bytes, 5, entries, 0);
}

/// Where `count` transitions with known tags stand at `pos`, their bytes are
/// the bytes that stand there.
pub proof fn lemma_events_unparse(bytes: Seq<u8>, pos: int, count: nat)
    requires
        0 <= pos,
        pos + 5 * count <= bytes.len(),
        tags_known(bytes, pos, count),
    ensures
        events_bytes(events_at(bytes, pos, count)) == bytes.subrange(pos, pos + 5 * count),
    decreases count,
{
    let events = events_at(bytes, pos, count);
    if count == 0 {
        assert(events_bytes(events) =~= bytes.subrange(pos, pos + 5 * count));
    } else {
        let rest = events_at(bytes, pos + 5, (count - 1) as nat);
        assert forall|index: int| 0 <= index < count - 1 implies #[trigger] tag_at(
            bytes,
            pos + 5,
            index,
        ) <= TAG_RELEASE && event_at(bytes, pos + 5, index) == event_at(bytes, pos, index + 1) by {
            assert(tag_at(bytes, pos, index + 1) == tag_at(bytes, pos + 5, index));
        }
        assert(events.drop_first() =~= rest);
        lemma_events_unparse(bytes, pos + 5, (count - 1) as nat);
        let key = bytes.subrange(pos + 1, pos + 5);
        lemma_limits();
        lemma_le_value_bound(key);
        lemma_le_bytes_of_value(key);
        assert(tag_at(bytes, pos, 0) == bytes[pos]);
        assert(bytes[pos] <= TAG_RELEASE);
        assert(events.first() == event_at(bytes, pos, 0));
        assert(event_bytes(events.first()) =~= bytes.subrange(pos, pos + 5));
        assert(bytes.subrange(pos, pos + 5) + bytes.subrange(pos + 5, pos + 5 * count)
            =~= bytes.subrange(pos, pos + 5 * count));
    }
}

/// Where a batch parses at `pos`, it fits the format, it is not earlier than
/// `floor`, and its bytes are the bytes that stand there.
pub proof fn lemma_entry_unparse(bytes: Seq<u8>, pos: int, floor: nat)
    requires
        0 <= pos,
        parse_entry(bytes, pos, floor) is Ok,
    ensures
        ({
            let (entry, next) = parse_entry(bytes, pos, floor).unwrap();
            &&& representable(entry)
            &&& floor <= entry.offset
            &&& next == pos + entry_len(entry)
            &&& next <= bytes.len()
            &&& entry_bytes(entry) == bytes.subrange(pos, next)
        }),
{
    let (entry, next) = parse_entry(bytes, pos, floor).unwrap();
    let secs = u64_at(bytes, pos);
    let nanos = u32_at(bytes, pos + 8);
    let count = u32_at(bytes, pos + 12);
    lemma_limits();
    lemma_le_value_bound(bytes.subrange(pos, pos + 8));
    lemma_le_value_bound(bytes.subrange(pos + 8, pos + 12));
    lemma_le_value_bound(bytes.subrange(pos + 12, pos + 16));
    lemma_le_bytes_of_value(bytes.subrange(pos, pos + 8));
    lemma_le_bytes_of_value(bytes.subrange(pos + 8, pos + 12));
    lemma_le_bytes_of_value(bytes.subrange(pos + 12, pos + 16));
    lemma_nanos_split(secs, nanos);
    assert(entry.offset <= max_nanos()) by (nonlinear_arith)
        requires
            entry.offset == secs * (NANOS_PER_SEC as nat) + nanos,
            secs <= u64::MAX,
            nanos < NANOS_PER_SEC,
            max_nanos() == (u64::MAX as nat) * (NANOS_PER_SEC as nat) + (NANOS_PER_SEC as nat
                - 1) as nat,
    ;
    lemma_events_unparse(bytes, pos + 16, count);
    assert(entry.events.len() == count);
    assert(entry_bytes(entry) =~= bytes.subrange(pos, next));
}

/// Where `count` batches parse at `pos`, they fit the format, they are in
/// chronological order and not earlier than `floor`, and their bytes are the
/// bytes from `pos` to the end.
pub proof fn lemma_entries_unparse(bytes: Seq<u8>, pos: int, count: nat, floor: nat)
    requires
        0 <= pos <= bytes.len(),
        parse_entries(bytes, pos, count, floor) is Ok,
    ensures
        ({
            let entries = parse_entries(bytes, pos, count, floor).unwrap();
            &&& entries.len() == count
            &&& forall|i: int| 0 <= i < entries.len() ==> representable(#[trigger] entries[i])
            &&& chronological(entries)
            &&& entries.len() > 0 ==> floor <= entries[0].offset
            &&& entries_bytes(entries) == bytes.subrange(pos, bytes.len() as int)
        }),
    decreases count,
{
    let entries = parse_entries(bytes, pos, count, floor).unwrap();
    if count == 0 {
        assert(entries_bytes(entries) =~= bytes.subrange(pos, bytes.len() as int));
    } else {
        let (entry, next) = parse_entry(bytes, pos, floor).unwrap();
        lemma_entry_unparse(bytes, pos, floor);
        lemma_entries_unparse(bytes, next, (count - 1) as nat, entry.offset);
        let rest = parse_entries(bytes, next, (count - 1) as nat, entry.offset).unwrap();
        assert(entries == seq![entry] + rest);
        assert(entries.first() == entry);
        assert(entries.drop_first() =~= rest);
        assert forall|i: int| 0 <= i < entries.len() implies representable(
            #[trigger] entries[i],
        ) by {
            if i > 0 {
                assert(entries[i] == rest[i - 1]);
            }
        }
        assert forall|i: int, j: int| 0 <= i <= j < entries.len() implies (
        #[trigger] entries[i]).offset <= (#[trigger] entries[j]).offset by {
            if i > 0 {
                assert(entries[i] == rest[i - 1]);
                assert(entries[j] == rest[j - 1]);
            } else if j > 0 {
                assert(entries[j] == rest[j - 1]);
                assert(rest[0].offset <= rest[j - 1].offset);
            }
        }
        assert(bytes.subrange(pos, next) + bytes.subrange(next, bytes.len() as int)
            =~= bytes.subrange(pos, bytes.len() as int));
    }
}

/// Only what was written is read: bytes that parse to a session are the
/// file of that session, byte for byte, and the session fits the format. So
/// no two files hold the same session, and nothing that `encode` would not
/// write is taken for a session.
pub proof fn lemma_parse_is_exact(bytes: Seq<u8>)
    requires
        parse_session(bytes) is Ok,
    ensures
        encodable(parse_session(bytes).unwrap()),
        session_bytes(parse_session(bytes).unwrap()) == bytes,
{
    let entries = parse_session(bytes).unwrap();
    let count = bytes.subrange(1, 5);
    lemma_limits();
    lemma_le_value_bound(count);
    lemma_le_bytes_of_value(count);
    lemma_entries_unparse(bytes, 5, u32_at(bytes, 1), 0);
    assert(session_bytes(entries) =~= bytes);
}

} // verus!
