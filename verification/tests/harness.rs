use spsc_ring::message::parse_payload;
use spsc_ring::text::{parse_usize, u64_to_decimal_string};
use spsc_ring::{
    run_session, Config, Message, ReadOutcome, Session, SyncStrategy, WriteOutcome,
};

fn args(list: &[&str]) -> Vec<String> {
    list.iter().map(|s| s.to_string()).collect()
}

#[test]
fn config_defaults() {
    let cfg = Config::build(&args(&["harness"])).unwrap();
    assert_eq!(cfg.file_path, "/dev/rustdev");
    assert_eq!(cfg.data_offset, 4096);
    assert_eq!(cfg.msg_slots, 8);
    assert_eq!(cfg.msg_size, 4096);
    assert_eq!(cfg.msg_num, 1000);
}

#[test]
fn config_positional_arguments() {
    let cfg = Config::build(&args(&["harness", "/dev/other", "8192", "4", "64", "10"])).unwrap();
    assert_eq!(cfg.file_path, "/dev/other");
    assert_eq!(cfg.data_offset, 8192);
    assert_eq!(cfg.msg_slots, 4);
    assert_eq!(cfg.msg_size, 64);
    assert_eq!(cfg.msg_num, 10);
}

#[test]
fn config_rejects_malformed_numbers() {
    assert!(Config::build(&args(&["harness", "/dev/x", "12x"])).is_err());
    assert!(Config::build(&args(&["harness", "/dev/x", "4096", ""])).is_err());
}

#[test]
fn config_report_string() {
    let cfg = Config::build(&args(&["harness"])).unwrap();
    assert_eq!(
        cfg.to_string(),
        "file_path: /dev/rustdev\ndata_offset: 4096\nmsg_slots: 8\nmsg_size: 4096\nmsg_num: 1000"
    );
}

#[test]
fn decimal_text_round_trip() {
    assert_eq!(u64_to_decimal_string(0), "0");
    assert_eq!(u64_to_decimal_string(90210), "90210");
    assert_eq!(parse_usize("123"), Some(123));
    assert_eq!(parse_usize("0"), Some(0));
    assert_eq!(parse_usize(""), None);
    assert_eq!(parse_usize("12a"), None);
    assert_eq!(parse_usize("-3"), None);
}

#[test]
fn message_payload_is_right_aligned_and_terminated() {
    let msg = Message::from_msgid_with_size(7, 5);
    assert_eq!(msg.len(), 5);
    assert_eq!(msg.as_bytes(), &[32, 32, 32, 55, 0]);
    let msg = Message::from_msgid_with_size(123, 6);
    assert_eq!(msg.as_bytes(), b"  123\0");
}

#[test]
fn payload_parsing() {
    assert_eq!(parse_payload(b"  42\0xyz"), Some(42));
    assert_eq!(parse_payload(b"7\0"), Some(7));
    assert_eq!(parse_payload(b"junk\0"), None);
    assert_eq!(parse_payload(b"no terminator"), None);
    assert_eq!(parse_payload(b"  \0"), None);
    let msg = Message::from_msgid_with_size(90210, 32);
    assert_eq!(parse_payload(msg.as_bytes()), Some(90210));
}

#[test]
fn session_steps_hand_over_one_message() {
    let mut session = Session::new(32, 4, 16, SyncStrategy::BusyWaitAtomic).unwrap();
    let mut buf = Vec::new();
    assert_eq!(session.consumer_step(&mut buf), ReadOutcome::ReadWouldBlock);
    assert_eq!(session.producer_step(), WriteOutcome::Written);
    assert_eq!(session.ticker, 1);
    assert_eq!(session.consumer_step(&mut buf), ReadOutcome::ReadMessage);
    assert_eq!(session.expected, 1);
    assert_eq!(session.data_size, 32);
    assert!(session.sync);
    assert_eq!(parse_payload(&buf), Some(0));
    assert_eq!(session.producer_recorder.len(), 4);
    assert_eq!(session.consumer_recorder.len(), 4);
}

#[test]
fn stopped_producer_exits_without_writing() {
    // capacity one: a single write fills the ring
    let mut session = Session::new(32, 2, 16, SyncStrategy::BusyWaitAtomic).unwrap();
    assert_eq!(session.producer_step(), WriteOutcome::Written);
    assert_eq!(session.producer_step(), WriteOutcome::WouldBlock);
    session.stop();
    assert_eq!(session.producer_step(), WriteOutcome::Stopped);
    assert_eq!(session.ticker, 1);
    // the slot it was about to write is uncorrupted: the pending message
    // still reads back with its ordinal intact
    let mut buf = Vec::new();
    assert_eq!(session.consumer_step(&mut buf), ReadOutcome::ReadMessage);
    assert_eq!(parse_payload(&buf), Some(0));
    assert!(session.sync);
}

#[test]
fn reference_session_capacity_8_slot_4096_1000_messages() {
    let metrics = run_session(4096, 8, 4096, 1000, SyncStrategy::BusyWaitAtomic).unwrap();
    assert!(metrics.sync);
    assert_eq!(metrics.data_size, 1000 * 4096);
    assert_eq!(metrics.recorder.len(), 8 * 1000);
}

#[test]
fn short_session_merges_both_traces() {
    let metrics = run_session(32, 4, 16, 3, SyncStrategy::BlockingMutexCondvar).unwrap();
    assert!(metrics.sync);
    assert_eq!(metrics.data_size, 96);
    assert_eq!(metrics.recorder.len(), 24);
    // consumer entries first, then the fetched producer trace
    assert!(!metrics.recorder.entry(0).ku);
    assert!(metrics.recorder.entry(12).ku);
    let (wait, copy) = metrics.recorder.analyze();
    let _ = (wait, copy);
}

#[test]
fn session_creation_fails_when_region_cannot_fit() {
    assert!(Session::new(usize::MAX, 2, 16, SyncStrategy::BusyWaitAtomic).is_err());
    assert!(run_session(21, usize::MAX / 2, 16, 0, SyncStrategy::BusyWaitAtomic).is_err());
}
