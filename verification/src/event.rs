//! Decoding of raw device records into typed events, and the filter that
//! keeps reserved event categories away from the dispatcher.

use vstd::prelude::*;

verus! {

/// Number of bytes in one raw device record: a 16-byte timestamp
/// (ignored entirely), then a 16-bit type, a 16-bit code and a 32-bit
/// signed value.
pub const EVENT_RECORD_SIZE: usize = 24;

/// Reserved type code for synchronization marker events.
pub const EV_SYN: u16 = 0;

/// Reserved type code for miscellaneous scan-code events.
pub const EV_MSC: u16 = 4;

/// One decoded input event: a type, a sub-code and a signed value.
#[derive(Clone, Copy, PartialEq, Eq, Structural, Debug)]
pub struct Event {
    pub type_: u16,
    pub code: u16,
    pub value: i32,
}

/// The buffer was shorter than one full event record.
#[derive(Clone, Copy, PartialEq, Eq, Structural, Debug)]
pub struct FramingError;

/// The 16-bit value that two bytes encode little-endian.
pub open spec fn le_u16(b0: u8, b1: u8) -> u16 {
    (b0 + b1 * 256) as u16
}

/// The 32-bit value that four bytes encode little-endian.
pub open spec fn le_u32(b0: u8, b1: u8, b2: u8, b3: u8) -> u32 {
    (b0 + b1 * 256 + b2 * 65536 + b3 * 16777216) as u32
}

/// The event one raw record encodes: type at offset 16, code at 18 and
/// value at 20, each little-endian; the leading timestamp is skipped.
pub open spec fn event_decoded(bytes: Seq<u8>) -> Event
    recommends
        bytes.len() >= EVENT_RECORD_SIZE,
{
    Event {
        type_: le_u16(bytes[16], bytes[17]),
        code: le_u16(bytes[18], bytes[19]),
        value: le_u32(bytes[20], bytes[21], bytes[22], bytes[23]) as i32,
    }
}

/// Decodes one raw record. Succeeds exactly when the buffer holds at
/// least one full record; bytes past the record are ignored.
pub fn decode_event(buf: &Vec<u8>) -> (r: Result<Event, FramingError>)
    ensures
        buf@.len() >= EVENT_RECORD_SIZE ==> r == Ok::<Event, FramingError>(event_decoded(buf@)),
        buf@.len() < EVENT_RECORD_SIZE ==> r == Err::<Event, FramingError>(FramingError),
{
    if buf.len() < EVENT_RECORD_SIZE {
        return Err(FramingError);
    }
    let t: u16 = buf[16] as u16 + (buf[17] as u16) * 256;
    let c: u16 = buf[18] as u16 + (buf[19] as u16) * 256;
    let v_bits: u32 = buf[20] as u32 + (buf[21] as u32) * 256 + (buf[22] as u32) * 65536
        + (buf[23] as u32) * 16777216;
    Ok(Event { type_: t, code: c, value: v_bits as i32 })
}

/// An event carries actionable button or axis semantics exactly when its
/// type is neither of the two reserved categories.
pub open spec fn is_actionable(e: Event) -> bool {
    e.type_ != EV_SYN && e.type_ != EV_MSC
}

/// Whether a reader task forwards this event to the shared queue.
pub fn should_forward(e: &Event) -> (r: bool)
    ensures
        r == is_actionable(*e),
{
    e.type_ != EV_SYN && e.type_ != EV_MSC
}

/// What a reader task does with one raw record it read.
#[derive(Clone, Copy, PartialEq, Eq, Structural, Debug)]
pub enum ReaderStep {
    /// The record was short: the device's task terminates.
    Stop,
    /// The record decoded to a reserved category: it is dropped.
    Skip,
    /// The decoded event is forwarded to the dispatcher's queue.
    Forward(Event),
}

/// The decision a reader task owes for one raw record.
pub open spec fn reader_decision(bytes: Seq<u8>) -> ReaderStep {
    if bytes.len() < EVENT_RECORD_SIZE {
        ReaderStep::Stop
    } else if is_actionable(event_decoded(bytes)) {
        ReaderStep::Forward(event_decoded(bytes))
    } else {
        ReaderStep::Skip
    }
}

/// Decode-and-filter step of a device reader task: decode the record,
/// stop the task on a framing failure, drop reserved categories, and
/// forward everything else.
pub fn reader_step(buf: &Vec<u8>) -> (r: ReaderStep)
    ensures
        r == reader_decision(buf@),
{
    match decode_event(buf) {
        Err(_) => ReaderStep::Stop,
        Ok(e) => {
            if should_forward(&e) {
                ReaderStep::Forward(e)
            } else {
                ReaderStep::Skip
            }
        },
    }
}

/// Events of the two reserved categories are never forwarded: whatever a
/// reader task forwards is actionable, so no synchronization marker and
/// no miscellaneous scan code ever reaches the dispatcher.
pub proof fn lemma_reserved_never_forwarded(bytes: Seq<u8>, e: Event)
    requires
        reader_decision(bytes) == ReaderStep::Forward(e),
    ensures
        e.type_ != EV_SYN && e.type_ != EV_MSC,
{
}

} // verus!
