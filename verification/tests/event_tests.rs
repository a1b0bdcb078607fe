use input2cmds::event::{decode_event, reader_step, should_forward, Event, ReaderStep};

fn record(type_: u16, code: u16, value: i32) -> Vec<u8> {
    let mut buf = vec![0u8; 24];
    buf[16] = (type_ & 0xff) as u8;
    buf[17] = (type_ >> 8) as u8;
    buf[18] = (code & 0xff) as u8;
    buf[19] = (code >> 8) as u8;
    let v = value as u32;
    buf[20] = (v & 0xff) as u8;
    buf[21] = ((v >> 8) & 0xff) as u8;
    buf[22] = ((v >> 16) & 0xff) as u8;
    buf[23] = ((v >> 24) & 0xff) as u8;
    buf
}

#[test]
fn decodes_fields_little_endian() {
    let buf = record(1, 2, 1);
    assert_eq!(decode_event(&buf), Ok(Event { type_: 1, code: 2, value: 1 }));
}

#[test]
fn decodes_wide_and_negative_values() {
    let buf = record(513, 65535, -2);
    assert_eq!(decode_event(&buf), Ok(Event { type_: 513, code: 65535, value: -2 }));
}

#[test]
fn ignores_timestamp_bytes() {
    let mut buf = record(3, 4, 5);
    for i in 0..16 {
        buf[i] = 0xAA;
    }
    assert_eq!(decode_event(&buf), Ok(Event { type_: 3, code: 4, value: 5 }));
}

#[test]
fn short_buffer_is_framing_error() {
    let buf = vec![0u8; 23];
    assert!(decode_event(&buf).is_err());
    assert!(decode_event(&Vec::new()).is_err());
}

#[test]
fn sync_events_never_forwarded() {
    assert!(!should_forward(&Event { type_: 0, code: 7, value: 9 }));
    assert!(!should_forward(&Event { type_: 0, code: 0, value: 0 }));
}

#[test]
fn misc_events_never_forwarded() {
    assert!(!should_forward(&Event { type_: 4, code: 4, value: -1 }));
}

#[test]
fn other_events_forwarded() {
    assert!(should_forward(&Event { type_: 1, code: 0, value: 0 }));
    assert!(should_forward(&Event { type_: 3, code: 4, value: 0 }));
}

#[test]
fn reader_step_stops_on_short_read() {
    assert_eq!(reader_step(&vec![0u8; 10]), ReaderStep::Stop);
}

#[test]
fn reader_step_skips_reserved_categories() {
    assert_eq!(reader_step(&record(0, 1, 2)), ReaderStep::Skip);
    assert_eq!(reader_step(&record(4, 1, 2)), ReaderStep::Skip);
}

#[test]
fn reader_step_forwards_actionable_events() {
    assert_eq!(
        reader_step(&record(1, 288, 1)),
        ReaderStep::Forward(Event { type_: 1, code: 288, value: 1 })
    );
}
