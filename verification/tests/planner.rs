use block_sync::codec::BlockKey;
use block_sync::coverage::CoverageSnapshot;
use block_sync::planner::{
    plan, plan_catalog, plan_range, sort_by_height, ExplicitKeySet, HeightRange, Plan, SyncPolicy,
    CATALOG_MARGIN, HEIGHT_FLOOR,
};

fn at(max_height: u32) -> CoverageSnapshot {
    CoverageSnapshot { max_height, newest_file_age: None }
}

fn key(height: u32, hash: &str) -> BlockKey {
    BlockKey {
        bucket: "b".to_string(),
        network: "mainnet".to_string(),
        height,
        hash: hash.to_string(),
    }
}

#[test]
fn buffered_starts_below_the_greatest_height() {
    for lookahead in [0u32, 1, 3, 100, u32::MAX] {
        assert_eq!(
            plan_range(&at(100), SyncPolicy::Buffered { buffer: 5 }, lookahead),
            Some(HeightRange { start: 95, end: 100 + lookahead as u64 })
        );
    }
}

#[test]
fn buffered_is_clamped_to_the_floor() {
    let range = plan_range(&at(3), SyncPolicy::Buffered { buffer: 5 }, 1).unwrap();
    assert_eq!(range.start, 2);
    assert_eq!(range.end, 4);
    for max in 0..20u32 {
        for buffer in [0u32, 1, 5, 19, 20, u32::MAX] {
            let range = plan_range(&at(max), SyncPolicy::Buffered { buffer }, 0).unwrap();
            assert!(range.start >= HEIGHT_FLOOR);
            assert_eq!(range.start, std::cmp::max(2, max.saturating_sub(buffer)) as u64);
        }
    }
}

#[test]
fn strict_forward_leaves_out_what_is_present() {
    let range = plan_range(&at(100), SyncPolicy::StrictForward, 7).unwrap();
    assert_eq!(range, HeightRange { start: 101, end: 107 });
    assert!(!range.holds(100));
    assert!(!range.holds(99));
    assert!(range.holds(101));
    assert!(range.holds(107));
    assert!(!range.holds(108));
}

#[test]
fn strict_forward_on_an_empty_directory() {
    assert_eq!(
        plan_range(&at(0), SyncPolicy::StrictForward, 5),
        Some(HeightRange { start: 2, end: 5 })
    );
    assert_eq!(
        plan_range(&at(1), SyncPolicy::StrictForward, 5),
        Some(HeightRange { start: 2, end: 6 })
    );
}

#[test]
fn strict_forward_without_lookahead_is_empty() {
    let range = plan_range(&at(100), SyncPolicy::StrictForward, 0).unwrap();
    assert!(range.is_empty());
    let range = plan_range(&at(100), SyncPolicy::Buffered { buffer: 5 }, 0).unwrap();
    assert_eq!(range, HeightRange { start: 95, end: 100 });
    assert!(!range.is_empty());
}

#[test]
fn explicit_start_is_taken_as_it_is() {
    assert_eq!(
        plan_range(&at(100), SyncPolicy::ExplicitStart { height: 0 }, 3),
        Some(HeightRange { start: 0, end: 103 })
    );
    assert_eq!(
        plan_range(&at(100), SyncPolicy::ExplicitStart { height: 50 }, 3),
        Some(HeightRange { start: 50, end: 103 })
    );
    let range = plan_range(&at(100), SyncPolicy::ExplicitStart { height: 500 }, 3).unwrap();
    assert!(range.is_empty());
}

#[test]
fn the_greatest_heights_do_not_overflow() {
    assert_eq!(
        plan_range(&at(u32::MAX), SyncPolicy::Buffered { buffer: 0 }, u32::MAX),
        Some(HeightRange { start: 4294967295, end: 8589934590 })
    );
    assert_eq!(
        plan_range(&at(u32::MAX), SyncPolicy::StrictForward, 1),
        Some(HeightRange { start: 4294967296, end: 4294967296 })
    );
}

#[test]
fn catalog_policy_has_no_range() {
    assert_eq!(plan_range(&at(100), SyncPolicy::FullRemoteCatalog, 3), None);
}

#[test]
fn catalog_keeps_the_keys_near_and_above_the_greatest_height() {
    let catalog = vec![key(89, "a"), key(90, "b"), key(91, "c"), key(100, "d"), key(250, "e")];
    let set = plan_catalog(&at(100), &catalog);
    assert_eq!(set.floor, 100 - CATALOG_MARGIN);
    assert_eq!(set.keys, vec![key(90, "b"), key(91, "c"), key(100, "d"), key(250, "e")]);
}

#[test]
fn catalog_floor_does_not_go_below_zero() {
    let catalog = vec![key(0, "a"), key(3, "b")];
    let set = plan_catalog(&at(4), &catalog);
    assert_eq!(set.floor, 0);
    assert_eq!(set.keys, catalog);
}

#[test]
fn catalog_is_sorted_and_forks_keep_their_order() {
    let catalog = vec![
        key(12, "x"),
        key(10, "b"),
        key(11, "m"),
        key(10, "a"),
        key(2, "low"),
        key(12, "w"),
        key(10, "c"),
    ];
    let set = plan_catalog(&at(15), &catalog);
    assert_eq!(set.floor, 5);
    assert_eq!(
        set.keys,
        vec![key(10, "b"), key(10, "a"), key(10, "c"), key(11, "m"), key(12, "x"), key(12, "w")]
    );
}

#[test]
fn sort_by_height_is_stable() {
    let keys = vec![key(3, "c"), key(1, "z"), key(3, "a"), key(2, "m"), key(1, "y"), key(3, "b")];
    assert_eq!(
        sort_by_height(&keys),
        vec![key(1, "z"), key(1, "y"), key(2, "m"), key(3, "c"), key(3, "a"), key(3, "b")]
    );
    assert_eq!(sort_by_height(&Vec::new()), Vec::new());
}

#[test]
fn plan_goes_by_the_policy() {
    let catalog = vec![key(95, "a"), key(5, "b")];
    assert_eq!(
        plan(&at(100), SyncPolicy::Buffered { buffer: 5 }, 3, &catalog),
        Plan::Range(HeightRange { start: 95, end: 103 })
    );
    assert_eq!(
        plan(&at(100), SyncPolicy::FullRemoteCatalog, 3, &catalog),
        Plan::Keys(ExplicitKeySet { floor: 90, keys: vec![key(95, "a")] })
    );
    assert_eq!(
        plan(&at(100), SyncPolicy::FullRemoteCatalog, 3, &Vec::new()),
        Plan::Keys(ExplicitKeySet { floor: 90, keys: Vec::new() })
    );
}

#[test]
fn key_clone_is_equal() {
    let k = key(7, "h");
    assert_eq!(k.clone(), k);
}

#[test]
fn a_long_catalog_is_sorted_in_good_time() {
    let mut catalog = Vec::new();
    for i in 0..50_000u32 {
        let height = (i.wrapping_mul(7919)) % 10_007;
        catalog.push(key(height, &format!("h{}", i)));
    }
    let sorted = sort_by_height(&catalog);
    assert_eq!(sorted.len(), catalog.len());
    let mut expected = catalog.clone();
    expected.sort_by(|x, y| x.height.cmp(&y.height));
    assert_eq!(sorted, expected);
    let set = plan_catalog(&at(5_010), &catalog);
    let expected: Vec<BlockKey> = expected.into_iter().filter(|k| k.height >= 5_000).collect();
    assert_eq!(set.keys, expected);
}

#[test]
fn sort_by_height_agrees_with_a_stable_sort() {
    for len in 0..40u32 {
        let keys: Vec<BlockKey> =
            (0..len).map(|i| key((i * 37 + len) % 5, &format!("h{}", i))).collect();
        let mut expected = keys.clone();
        expected.sort_by(|x, y| x.height.cmp(&y.height));
        assert_eq!(sort_by_height(&keys), expected);
    }
}
