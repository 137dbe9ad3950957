use kinesis_cli::batch::{
    batch_lines, Batch, BatchAccumulator, BatchAction, MAX_BATCH_BYTES, MAX_BATCH_RECORDS,
    MAX_RECORD_BYTES,
};
use kinesis_cli::partition::{hex_key, partition_key};

const MIB: usize = 1024 * 1024;

fn payloads(b: &Batch) -> Vec<Vec<u8>> {
    b.records.iter().map(|r| r.data.clone()).collect()
}

#[test]
fn limits_have_documented_values() {
    assert_eq!(MAX_RECORD_BYTES, MIB);
    assert_eq!(MAX_BATCH_BYTES, 5 * MIB);
    assert_eq!(MAX_BATCH_RECORDS, 500);
}

#[test]
fn oversized_line_is_skipped_and_others_batched() {
    let lines = vec![b"a".to_vec(), b"b".to_vec(), vec![0u8; 2 * MIB], b"c".to_vec()];
    let plan = batch_lines(&lines);
    assert_eq!(plan.batches.len(), 1);
    assert_eq!(payloads(&plan.batches[0]), vec![b"a".to_vec(), b"b".to_vec(), b"c".to_vec()]);
    assert_eq!(plan.skipped, vec![3]);
}

#[test]
fn five_hundred_and_one_lines_make_two_batches() {
    let lines: Vec<Vec<u8>> = (0..501).map(|i| vec![b'a' + (i % 26) as u8]).collect();
    let plan = batch_lines(&lines);
    assert_eq!(plan.batches.len(), 2);
    assert_eq!(plan.batches[0].len(), 500);
    assert_eq!(plan.batches[1].len(), 1);
    assert!(plan.skipped.is_empty());
}

#[test]
fn empty_input_makes_no_batch() {
    let plan = batch_lines(&Vec::new());
    assert!(plan.batches.is_empty());
    assert!(plan.skipped.is_empty());
}

#[test]
fn batches_hold_the_kept_lines_in_order() {
    let lines = vec![
        b"one".to_vec(),
        vec![7u8; MIB + 1],
        b"two".to_vec(),
        Vec::new(),
        vec![1u8; MIB],
        b"three".to_vec(),
    ];
    let plan = batch_lines(&lines);
    let all: Vec<Vec<u8>> = plan.batches.iter().flat_map(payloads).collect();
    let kept: Vec<Vec<u8>> = lines.iter().filter(|l| l.len() <= MIB).cloned().collect();
    assert_eq!(all, kept);
    assert_eq!(plan.skipped, vec![2]);
}

#[test]
fn line_of_exactly_one_mib_is_kept() {
    let plan = batch_lines(&vec![vec![0u8; MIB]]);
    assert_eq!(plan.batches.len(), 1);
    assert_eq!(plan.batches[0].len(), 1);
    assert!(plan.skipped.is_empty());
}

#[test]
fn byte_ceiling_flushes_before_append() {
    let lines: Vec<Vec<u8>> = (0..6).map(|i| vec![i as u8; MIB]).collect();
    let plan = batch_lines(&lines);
    assert_eq!(plan.batches.len(), 2);
    assert_eq!(plan.batches[0].len(), 5);
    assert_eq!(plan.batches[1].len(), 1);
    assert_eq!(payloads(&plan.batches[1]), vec![vec![5u8; MIB]]);
}

#[test]
fn every_batch_within_limits() {
    let mut lines: Vec<Vec<u8>> = Vec::new();
    for i in 0..1200 {
        lines.push(vec![b'x'; (i * 7919) % 20000]);
    }
    for _ in 0..12 {
        lines.push(vec![b'y'; MIB - 3]);
    }
    let plan = batch_lines(&lines);
    for b in &plan.batches {
        assert!(b.len() >= 1 && b.len() <= 500);
        let bytes: usize = b.records.iter().map(|r| r.data.len()).sum();
        assert!(bytes <= 5 * MIB);
    }
    let total: usize = plan.batches.iter().map(|b| b.len()).sum();
    assert_eq!(total, lines.len());
}

#[test]
fn offer_reports_each_action() {
    let mut acc = BatchAccumulator::new();
    assert!(matches!(acc.offer(b"x".to_vec()), BatchAction::Appended));
    assert!(matches!(acc.offer(vec![0u8; MIB + 1]), BatchAction::Skipped(2)));
    for _ in 0..498 {
        assert!(matches!(acc.offer(b"y".to_vec()), BatchAction::Appended));
    }
    match acc.offer(b"z".to_vec()) {
        BatchAction::AppendedAndFlushed(b) => {
            assert_eq!(b.len(), 500);
            assert_eq!(b.records[0].data, b"x".to_vec());
            assert_eq!(b.records[499].data, b"z".to_vec());
        }
        _ => panic!("expected a flush at the count ceiling"),
    }
    assert_eq!(acc.lines_seen(), 501);
    assert!(acc.finish().is_none());
}

#[test]
fn pre_check_flush_hands_out_previous_batch() {
    let mut acc = BatchAccumulator::new();
    for i in 0..5u8 {
        assert!(matches!(acc.offer(vec![i; MIB]), BatchAction::Appended));
    }
    match acc.offer(b"tail".to_vec()) {
        BatchAction::AppendedAndFlushed(b) => assert_eq!(b.len(), 5),
        _ => panic!("expected a flush at the byte ceiling"),
    }
    let rest = acc.finish().expect("a partial batch");
    assert_eq!(payloads(&rest), vec![b"tail".to_vec()]);
}

#[test]
fn records_carry_the_payload_key() {
    let lines = vec![b"same".to_vec(), b"other".to_vec(), b"same".to_vec()];
    let plan = batch_lines(&lines);
    let b = &plan.batches[0];
    for r in &b.records {
        assert_eq!(r.partition_key, partition_key(&r.data));
    }
    assert_eq!(b.records[0].partition_key, b.records[2].partition_key);
    assert_ne!(b.records[0].partition_key, b.records[1].partition_key);
}

#[test]
fn partition_key_is_hash_in_sixteen_hex_digits() {
    let key = partition_key(b"hello");
    assert_eq!(key, format!("{:016x}", seahash::hash(b"hello")));
    assert_eq!(key.len(), 16);
    assert_eq!(partition_key(b"hello"), key);
    assert_eq!(partition_key(b""), format!("{:016x}", seahash::hash(b"")));
}

#[test]
fn hex_key_pads_and_uses_lower_case() {
    assert_eq!(hex_key(0), "0000000000000000");
    assert_eq!(hex_key(0x1f), "000000000000001f");
    assert_eq!(hex_key(0xdead_beef_0123_4567), "deadbeef01234567");
    assert_eq!(hex_key(u64::MAX), "ffffffffffffffff");
}
