use block_sync::coverage::{find_newest, newest_file_age, scan, CoverageSnapshot, DirEntry};
use block_sync::driver::Lookahead;
use block_sync::planner::{plan_range, HeightRange, SyncPolicy};

fn entry(name: &str, created_at: u64) -> DirEntry {
    DirEntry { name: name.to_string(), created_at }
}

#[test]
fn scan_reports_the_greatest_height() {
    let entries = vec![entry("mainnet-10-h1.json", 100), entry("mainnet-12-h2.json", 160)];
    let coverage = scan(&entries, "mainnet", 200);
    assert_eq!(coverage.max_height, 12);
    assert_eq!(coverage.newest_file_age, Some(40));
}

#[test]
fn scan_then_buffered_plan() {
    let entries = vec![entry("mainnet-10-h1.json", 0), entry("mainnet-12-h2.json", 0)];
    let coverage = scan(&entries, "mainnet", 0);
    assert_eq!(coverage.max_height, 12);
    let range = plan_range(&coverage, SyncPolicy::Buffered { buffer: 5 }, 3);
    assert_eq!(range, Some(HeightRange { start: 7, end: 15 }));
}

#[test]
fn empty_directory_is_height_zero() {
    let coverage = scan(&Vec::new(), "mainnet", 50);
    assert_eq!(coverage, CoverageSnapshot { max_height: 0, newest_file_age: None });
    assert_eq!(newest_file_age(&Vec::new(), "mainnet", 50), None);
    assert_eq!(find_newest(&Vec::new(), "mainnet"), None);
}

#[test]
fn malformed_names_are_passed_over() {
    let entries = vec![
        entry("mainnet-900-h.txt", 1),
        entry("notes.md", 2),
        entry("mainnet-abc-h.json", 3),
        entry("mainnet-5-h5.json", 4),
        entry("mainnet-7.json", 5),
        entry("mainnet--8-h.json", 6),
        entry("mainnet-99999999999-h.json", 7),
    ];
    let coverage = scan(&entries, "mainnet", 10);
    assert_eq!(coverage.max_height, 5);
    assert_eq!(coverage.newest_file_age, Some(6));
    assert_eq!(find_newest(&entries, "mainnet"), Some((3, 5)));
}

#[test]
fn only_malformed_names_is_height_zero() {
    let entries = vec![entry("mainnet-x-h.json", 1), entry("readme", 2)];
    assert_eq!(
        scan(&entries, "mainnet", 10),
        CoverageSnapshot { max_height: 0, newest_file_age: None }
    );
}

#[test]
fn other_networks_are_passed_over() {
    let entries = vec![
        entry("devnet-500-a.json", 1),
        entry("mainnet-20-b.json", 2),
        entry("mainnet2-700-c.json", 3),
        entry("main-800-d.json", 4),
    ];
    assert_eq!(scan(&entries, "mainnet", 10).max_height, 20);
    assert_eq!(scan(&entries, "devnet", 10).max_height, 500);
    assert_eq!(scan(&entries, "berkeley", 10).max_height, 0);
    assert_eq!(scan(&entries, "berkeley", 10).newest_file_age, None);
}

#[test]
fn newest_is_the_last_of_the_greatest_height() {
    let entries = vec![
        entry("mainnet-30-a.json", 10),
        entry("mainnet-30-b.json", 20),
        entry("mainnet-29-c.json", 90),
        entry("mainnet-30-c.json", 30),
        entry("mainnet-1-z.json", 95),
    ];
    assert_eq!(find_newest(&entries, "mainnet"), Some((3, 30)));
    assert_eq!(newest_file_age(&entries, "mainnet", 100), Some(70));
}

#[test]
fn height_zero_file_is_a_block_file() {
    let entries = vec![entry("mainnet-0-genesis.json", 5)];
    let coverage = scan(&entries, "mainnet", 9);
    assert_eq!(coverage.max_height, 0);
    assert_eq!(coverage.newest_file_age, Some(4));
}

#[test]
fn a_file_from_the_future_has_age_zero() {
    let entries = vec![entry("mainnet-3-h.json", 500)];
    assert_eq!(newest_file_age(&entries, "mainnet", 100), Some(0));
    assert_eq!(newest_file_age(&entries, "mainnet", 500), Some(0));
    assert_eq!(newest_file_age(&entries, "mainnet", 501), Some(1));
}

#[test]
fn scan_is_the_same_every_time() {
    let entries = vec![entry("mainnet-10-h1.json", 1), entry("mainnet-12-h2.json", 2)];
    assert_eq!(scan(&entries, "mainnet", 77), scan(&entries, "mainnet", 77));
}

#[test]
fn lookahead_by_the_age_of_the_newest_file() {
    let entries = vec![entry("mainnet-10-h1.json", 1000)];
    let coverage = scan(&entries, "mainnet", 1000 + 9 * 60);
    let lookahead = Lookahead::Elapsed { listing_age: 0 };
    assert_eq!(lookahead.heights(&coverage), 4);
}
