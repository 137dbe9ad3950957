use kinesis_cli::decode::{decode_record, DecodeError, EMPTY_PAYLOAD_TEXT};
use kinesis_cli::shard::make_shard_id;
use kinesis_cli::tail::{run_scripted, TailError, TailEvent, TailRequest, TailState};

fn cursor(s: &str) -> Option<String> {
    Some(s.to_string())
}

fn recs(items: &[&str]) -> Vec<Vec<u8>> {
    items.iter().map(|s| s.as_bytes().to_vec()).collect()
}

#[test]
fn empty_payload_decodes_to_placeholder() {
    let line = decode_record(b"").unwrap();
    assert_eq!(line, "Record payload is empty.");
    assert_eq!(line, EMPTY_PAYLOAD_TEXT);
    assert!(!line.is_empty());
}

#[test]
fn utf8_payload_decodes_to_its_text() {
    assert_eq!(decode_record(b"hello").unwrap(), "hello");
    assert_eq!(decode_record("caf\u{e9} \u{1f600}".as_bytes()).unwrap(), "caf\u{e9} \u{1f600}");
}

#[test]
fn invalid_utf8_is_a_decode_error() {
    assert_eq!(decode_record(&[0x66, 0xff, 0x6f]), Err(DecodeError::InvalidUtf8));
    assert_eq!(decode_record(&[0xc3]), Err(DecodeError::InvalidUtf8));
}

#[test]
fn shard_id_is_zero_padded() {
    assert_eq!(make_shard_id(0), "shardId-000000000000");
    assert_eq!(make_shard_id(42), "shardId-000000000042");
    assert_eq!(make_shard_id(999_999_999_999), "shardId-999999999999");
    assert_eq!(make_shard_id(1_234_567_890_123), "shardId-1234567890123");
}

#[test]
fn drained_after_absent_cursor() {
    let step = run_scripted(vec![
        TailEvent::Positioned(cursor("c0")),
        TailEvent::Polled(recs(&["a", "b"]), cursor("c1")),
        TailEvent::Polled(Vec::new(), cursor("c2")),
        TailEvent::Polled(recs(&["c"]), None),
    ]);
    assert!(matches!(step.state, TailState::Drained));
    assert_eq!(step.lines, vec!["a", "b", "c"]);
}

#[test]
fn poll_error_fails_with_prior_lines_only() {
    let step = run_scripted(vec![
        TailEvent::Positioned(cursor("c0")),
        TailEvent::Polled(recs(&["a"]), cursor("c1")),
        TailEvent::TransportFailed,
        TailEvent::Polled(recs(&["late"]), None),
    ]);
    assert!(matches!(step.state, TailState::Failed(TailError::Transport)));
    assert_eq!(step.lines, vec!["a"]);
}

#[test]
fn positioning_error_fails() {
    let step = run_scripted(vec![TailEvent::TransportFailed]);
    assert!(matches!(step.state, TailState::Failed(TailError::Transport)));
    assert!(step.lines.is_empty());
}

#[test]
fn absent_initial_cursor_drains_at_once() {
    let step = run_scripted(vec![TailEvent::Positioned(None)]);
    assert!(matches!(step.state, TailState::Drained));
    assert!(step.lines.is_empty());
}

#[test]
fn corrupt_payload_fails_after_earlier_lines() {
    let step = run_scripted(vec![
        TailEvent::Positioned(cursor("c0")),
        TailEvent::Polled(vec![b"ok".to_vec(), Vec::new(), vec![0xff], b"never".to_vec()], cursor("c1")),
    ]);
    assert!(matches!(step.state, TailState::Failed(TailError::Decode)));
    assert_eq!(step.lines, vec!["ok", "Record payload is empty."]);
}

#[test]
fn requests_follow_the_state() {
    let state = TailState::new();
    assert!(matches!(state.next_request(), TailRequest::GetShardIterator));
    assert!(!state.is_terminal());
    let step = state.advance(TailEvent::Positioned(cursor("it-1")));
    match step.state.next_request() {
        TailRequest::GetRecords(c) => assert_eq!(c, "it-1"),
        _ => panic!("expected a poll"),
    }
    let step = step.state.advance(TailEvent::Polled(recs(&["x"]), cursor("it-2")));
    assert_eq!(step.lines, vec!["x"]);
    match step.state.next_request() {
        TailRequest::GetRecords(c) => assert_eq!(c, "it-2"),
        _ => panic!("expected a poll"),
    }
    let step = step.state.advance(TailEvent::Polled(Vec::new(), None));
    assert!(step.state.is_terminal());
    assert!(matches!(step.state.next_request(), TailRequest::Stop));
}

#[test]
fn unexpected_event_changes_nothing() {
    let step = TailState::new().advance(TailEvent::Polled(recs(&["x"]), None));
    assert!(matches!(step.state, TailState::Positioning));
    assert!(step.lines.is_empty());
    let step = TailState::Drained.advance(TailEvent::TransportFailed);
    assert!(matches!(step.state, TailState::Drained));
}
