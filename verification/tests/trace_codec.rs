use spsc_ring::control::{command_nr, ioc, ion, ior, iorw};
use spsc_ring::{ControlChannel, FormatError, Timestamp, TimestampRecorder, TimestampTag};

fn sample_entries() -> Vec<Timestamp> {
    vec![
        Timestamp { tag: TimestampTag::WriteSyncStart, ku: true, ticker: 0, time: 100 },
        Timestamp { tag: TimestampTag::WriteSyncEnd, ku: true, ticker: 0, time: 150 },
        Timestamp { tag: TimestampTag::WriteStart, ku: true, ticker: 0, time: 160 },
        Timestamp { tag: TimestampTag::WriteEnd, ku: true, ticker: 0, time: 200 },
        Timestamp { tag: TimestampTag::ReadSyncStart, ku: false, ticker: 1, time: 205 },
        Timestamp { tag: TimestampTag::ReadSyncEnd, ku: false, ticker: 1, time: 215 },
    ]
}

#[test]
fn wire_record_layout_is_fixed() {
    let ts = Timestamp { tag: TimestampTag::WriteEnd, ku: true, ticker: 2, time: 3 };
    let raw = ts.generate_bytes();
    let expected: [u8; 18] = [7, 1, 2, 0, 0, 0, 0, 0, 0, 0, 3, 0, 0, 0, 0, 0, 0, 0];
    assert_eq!(raw, expected);
    assert_eq!(ts.into_raw(), expected);
    assert_eq!(Timestamp::from_bytes(&raw), ts);
}

#[test]
fn tag_codes_round_trip() {
    let tags = [
        TimestampTag::ReadSyncStart,
        TimestampTag::ReadSyncEnd,
        TimestampTag::ReadStart,
        TimestampTag::ReadEnd,
        TimestampTag::WriteSyncStart,
        TimestampTag::WriteSyncEnd,
        TimestampTag::WriteStart,
        TimestampTag::WriteEnd,
    ];
    for (i, tag) in tags.iter().enumerate() {
        assert_eq!(tag.to_byte(), i as u8);
        assert_eq!(TimestampTag::from_byte(i as u8), Some(*tag));
    }
    assert_eq!(TimestampTag::from_byte(8), None);
    assert_eq!(TimestampTag::from_byte(255), None);
}

#[test]
fn encode_decode_round_trip() {
    let mut rcder = TimestampRecorder::new();
    for ts in sample_entries() {
        rcder.push(ts);
    }
    let bytes = rcder.encode();
    assert_eq!(bytes.len(), 18 * 6);
    let decoded = TimestampRecorder::decode(&bytes).unwrap();
    assert_eq!(decoded, sample_entries());
}

#[test]
fn empty_trace_round_trips() {
    let rcder = TimestampRecorder::new();
    let bytes = rcder.encode();
    assert_eq!(bytes.len(), 0);
    assert_eq!(TimestampRecorder::decode(&bytes).unwrap(), Vec::new());
}

#[test]
fn decode_rejects_truncated_buffer() {
    let bytes = [0u8; 17];
    assert_eq!(TimestampRecorder::decode(&bytes), Err(FormatError));
}

#[test]
fn decode_rejects_out_of_range_tag() {
    let mut bytes = [0u8; 18];
    bytes[0] = 9;
    assert_eq!(TimestampRecorder::decode(&bytes), Err(FormatError));
}

#[test]
fn recorder_is_append_only_until_reset() {
    let mut rcder = TimestampRecorder::new();
    rcder.record(TimestampTag::ReadStart, false, 5);
    rcder.record(TimestampTag::ReadEnd, false, 5);
    assert_eq!(rcder.len(), 2);
    assert_eq!(rcder.entry(0).tag, TimestampTag::ReadStart);
    assert_eq!(rcder.entry(1).tag, TimestampTag::ReadEnd);
    assert!(!rcder.entry(0).ku);
    assert_eq!(rcder.entry(1).ticker, 5);
    rcder.reset();
    assert_eq!(rcder.len(), 0);
}

#[test]
fn recorder_extend_appends_in_order() {
    let mut rcder = TimestampRecorder::new();
    let entries = sample_entries();
    rcder.extend(&entries[..2]);
    rcder.extend(&entries[2..]);
    assert_eq!(rcder.len(), 6);
    for (i, ts) in entries.iter().enumerate() {
        assert_eq!(rcder.entry(i), ts);
    }
}

#[test]
fn latched_count_survives_later_appends() {
    let mut rcder = TimestampRecorder::new();
    let entries = sample_entries();
    rcder.extend(&entries[..3]);
    let mut channel = ControlChannel::new();
    let reply = channel.count_request(&rcder);
    assert_eq!(reply, vec![3, 0, 0, 0]);
    rcder.extend(&entries[3..]);
    assert_eq!(rcder.len(), 6);
    let fetched = channel.fetch_request(&rcder);
    assert_eq!(fetched.len(), 3 * 18);
    let decoded = TimestampRecorder::decode(&fetched).unwrap();
    assert_eq!(decoded, entries[..3].to_vec());
}

#[test]
fn fetch_before_any_count_returns_nothing() {
    let mut rcder = TimestampRecorder::new();
    rcder.extend(&sample_entries());
    let channel = ControlChannel::new();
    assert_eq!(channel.fetch_request(&rcder), Vec::<u8>::new());
}

#[test]
fn unknown_command_fails_loudly() {
    let mut rcder = TimestampRecorder::new();
    rcder.extend(&sample_entries());
    let mut channel = ControlChannel::new();
    assert!(channel.handle_request(0, &rcder).is_ok());
    assert!(channel.handle_request(1, &rcder).is_ok());
    assert!(channel.handle_request(2, &rcder).is_err());
    assert!(channel.handle_request(7, &rcder).is_err());
    // the command number lives in the low byte
    assert!(channel.handle_request(0x6b00, &rcder).is_ok());
}

#[test]
fn analyze_splits_wait_from_copy() {
    let mut rcder = TimestampRecorder::new();
    for ts in sample_entries() {
        rcder.push(ts);
    }
    // one write-sync pair of 50 ns, one write-copy pair of 40 ns, and one
    // read-sync pair of 10 ns
    assert_eq!(rcder.analyze(), (60, 40));
}

#[test]
fn analyze_ignores_unmatched_entries() {
    let mut rcder = TimestampRecorder::new();
    rcder.push(Timestamp { tag: TimestampTag::ReadSyncStart, ku: false, ticker: 0, time: 10 });
    // different ordinal: not a pair
    rcder.push(Timestamp { tag: TimestampTag::ReadSyncEnd, ku: false, ticker: 1, time: 30 });
    rcder.push(Timestamp { tag: TimestampTag::ReadStart, ku: false, ticker: 1, time: 40 });
    // different domain: not a pair
    rcder.push(Timestamp { tag: TimestampTag::ReadEnd, ku: true, ticker: 1, time: 70 });
    assert_eq!(rcder.analyze(), (0, 0));
}

#[test]
fn ioctl_numbers_match_the_command_transport() {
    assert_eq!(ioc(2, 107, 0, 8), 2 * 0x4000_0000 + 8 * 0x1_0000 + 107 * 0x100);
    assert_eq!(ior(107, 0, 8), 2148035328);
    assert_eq!(iorw(1, 2, 3), 3 * 0x4000_0000 + 3 * 0x1_0000 + 0x100 + 2);
    assert_eq!(ion(5, 1, 0), 5 * 0x100 + 1);
    assert_eq!(command_nr(0x1234), 0x34);
    assert_eq!(command_nr(1), 1);
}

#[test]
fn timestamp_report_line() {
    let ts = Timestamp { tag: TimestampTag::ReadStart, ku: false, ticker: 3, time: 9 };
    assert_eq!(ts.to_string(), "ReadStart user 3 9");
    let ts = Timestamp { tag: TimestampTag::WriteSyncEnd, ku: true, ticker: 41, time: 1000 };
    assert_eq!(ts.to_string(), "WriteSyncEnd kernel 41 1000");
}

#[test]
fn timestamps_carry_their_fields() {
    let ts = Timestamp::new(TimestampTag::ReadEnd, 12);
    assert_eq!(ts.tag, TimestampTag::ReadEnd);
    assert!(!ts.ku);
    assert_eq!(ts.ticker, 12);
    let ts = Timestamp::new_in_domain(TimestampTag::WriteStart, true, 7);
    assert!(ts.ku);
    assert_eq!(ts.ticker, 7);
}
