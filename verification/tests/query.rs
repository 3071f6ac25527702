use block_sync::codec::BlockKey;
use block_sync::planner::{ExplicitKeySet, HeightRange, Plan};
use block_sync::query::{materialize, materialize_keys, materialize_range, QueryBatch};

fn key(height: u32, hash: &str) -> BlockKey {
    BlockKey {
        bucket: "b".to_string(),
        network: "mainnet".to_string(),
        height,
        hash: hash.to_string(),
    }
}

#[test]
fn a_range_is_written_out_in_ascending_order() {
    let batch = materialize_range("b", "mainnet", &HeightRange { start: 2, end: 4 });
    assert_eq!(
        batch.lines,
        vec!["gs://b/mainnet-2-*.json", "gs://b/mainnet-3-*.json", "gs://b/mainnet-4-*.json"]
    );
}

#[test]
fn a_range_of_one_height() {
    let batch = materialize_range("b", "mainnet", &HeightRange { start: 9, end: 9 });
    assert_eq!(batch.lines, vec!["gs://b/mainnet-9-*.json"]);
}

#[test]
fn an_empty_range_is_an_empty_batch() {
    let batch = materialize_range("b", "mainnet", &HeightRange { start: 5, end: 4 });
    assert!(batch.lines.is_empty());
    assert_eq!(batch.text(), "");
}

#[test]
fn a_range_at_the_end_of_the_numbers() {
    let batch =
        materialize_range("b", "n", &HeightRange { start: u64::MAX - 1, end: u64::MAX });
    assert_eq!(
        batch.lines,
        vec!["gs://b/n-18446744073709551614-*.json", "gs://b/n-18446744073709551615-*.json"]
    );
}

#[test]
fn a_long_range_has_no_duplicates() {
    let batch = materialize_range("b", "mainnet", &HeightRange { start: 95, end: 1094 });
    assert_eq!(batch.lines.len(), 1000);
    for (i, line) in batch.lines.iter().enumerate() {
        assert_eq!(line, &format!("gs://b/mainnet-{}-*.json", 95 + i));
    }
    let mut sorted = batch.lines.clone();
    sorted.sort();
    sorted.dedup();
    assert_eq!(sorted.len(), 1000);
}

#[test]
fn keys_are_written_out_in_their_order() {
    let set = ExplicitKeySet { floor: 10, keys: vec![key(10, "b"), key(10, "a"), key(12, "x")] };
    assert_eq!(
        materialize_keys(&set).lines,
        vec!["gs://b/mainnet-10-b.json", "gs://b/mainnet-10-a.json", "gs://b/mainnet-12-x.json"]
    );
}

#[test]
fn keys_below_the_floor_are_left_out() {
    let set = ExplicitKeySet {
        floor: 11,
        keys: vec![key(10, "b"), key(11, "a"), key(3, "low"), key(12, "x"), key(11, "c")],
    };
    assert_eq!(
        materialize_keys(&set).lines,
        vec!["gs://b/mainnet-11-a.json", "gs://b/mainnet-12-x.json", "gs://b/mainnet-11-c.json"]
    );
}

#[test]
fn a_plan_is_written_out() {
    let range = Plan::Range(HeightRange { start: 7, end: 8 });
    assert_eq!(
        materialize(&range, "bucket", "devnet").lines,
        vec!["gs://bucket/devnet-7-*.json", "gs://bucket/devnet-8-*.json"]
    );
    let keys = Plan::Keys(ExplicitKeySet { floor: 0, keys: vec![key(1, "h")] });
    assert_eq!(materialize(&keys, "ignored", "ignored").lines, vec!["gs://b/mainnet-1-h.json"]);
}

#[test]
fn the_text_of_a_batch_has_one_pattern_to_a_line() {
    let batch = materialize_range("b", "mainnet", &HeightRange { start: 2, end: 4 });
    assert_eq!(
        batch.text(),
        "gs://b/mainnet-2-*.json\ngs://b/mainnet-3-*.json\ngs://b/mainnet-4-*.json\n"
    );
    let text = batch.text();
    let lines: Vec<&str> = text.lines().collect();
    assert_eq!(lines, batch.lines);
    let one = QueryBatch { lines: vec!["x".to_string()] };
    assert_eq!(one.text(), "x\n");
}
