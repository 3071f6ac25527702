use block_sync::config::{AllArgs, ContiguousArgs, LoopArgs, NewArgs};
use block_sync::driver::{Lookahead, RunMode};
use block_sync::error::SyncError;
use block_sync::planner::{HeightRange, SyncPolicy};

fn new_args(start: Option<u32>, strict: bool, skip_ls_file: bool) -> NewArgs {
    NewArgs {
        query_file: "/tmp/queries".to_string(),
        blocks_dir: "/tmp/blocks".to_string(),
        ls_file: "/tmp/ls".to_string(),
        buffer: 10,
        start,
        strict,
        bucket: "mina_network_block_data".to_string(),
        network: "mainnet".to_string(),
        skip_ls_file,
    }
}

fn contiguous(start: usize, num: usize) -> ContiguousArgs {
    ContiguousArgs {
        query_file: "/tmp/queries".to_string(),
        blocks_dir: "/tmp/blocks".to_string(),
        start,
        num,
        network: "mainnet".to_string(),
        bucket: "b".to_string(),
    }
}

#[test]
fn all_asks_for_every_object_of_the_network() {
    let args = AllArgs {
        blocks_dir: "/tmp/blocks".to_string(),
        network: "mainnet".to_string(),
        bucket: "mina_network_block_data".to_string(),
    };
    assert_eq!(args.query(), "gs://mina_network_block_data/mainnet-*-*.json");
}

#[test]
fn contiguous_asks_for_a_run_of_heights() {
    assert_eq!(contiguous(2, 1000).range(), HeightRange { start: 2, end: 1001 });
    assert_eq!(contiguous(0, 1).range(), HeightRange { start: 0, end: 0 });
    assert_eq!(
        contiguous(5, 3).batch().lines,
        vec!["gs://b/mainnet-5-*.json", "gs://b/mainnet-6-*.json", "gs://b/mainnet-7-*.json"]
    );
}

#[test]
fn contiguous_of_no_height_asks_for_nothing() {
    assert!(contiguous(2, 0).range().is_empty());
    assert!(contiguous(0, 0).range().is_empty());
    assert!(contiguous(0, 0).batch().lines.is_empty());
    assert!(contiguous(usize::MAX, 0).batch().lines.is_empty());
}

#[test]
fn contiguous_at_the_end_of_the_numbers() {
    assert_eq!(
        contiguous(usize::MAX - 1, 1).range(),
        HeightRange { start: usize::MAX as u64 - 1, end: usize::MAX as u64 - 1 }
    );
    assert_eq!(
        contiguous(usize::MAX, 1).range(),
        HeightRange { start: usize::MAX as u64, end: usize::MAX as u64 }
    );
    assert_eq!(
        contiguous(usize::MAX - 2, 3).batch().lines.len(),
        3
    );
}

#[test]
fn contiguous_knows_what_it_can_write() {
    assert!(contiguous(2, 1000).can_range());
    assert!(contiguous(0, 0).can_range());
    assert!(contiguous(usize::MAX, 0).can_range());
    assert!(contiguous(usize::MAX, 1).can_range());
    assert!(contiguous(0, usize::MAX).can_range());
    assert_eq!(contiguous(usize::MAX, 2).can_range(), (usize::MAX as u64) < u64::MAX);
    assert_eq!(contiguous(2, usize::MAX).can_range(), (usize::MAX as u64) < u64::MAX);
}

#[test]
fn options_that_do_not_conflict_pass() {
    assert_eq!(new_args(None, false, false).validate(), Ok(()));
    assert_eq!(new_args(Some(3), false, true).validate(), Ok(()));
    assert_eq!(new_args(None, true, false).validate(), Ok(()));
    assert_eq!(new_args(Some(3), true, false).validate(), Err(SyncError::PolicyConflict));
}

#[test]
fn loop_options_give_policy_and_mode() {
    let args = LoopArgs {
        blocks_dir: "/tmp/blocks".to_string(),
        frequency: 10,
        query_file: "/tmp/queries".to_string(),
        network: "mainnet".to_string(),
        bucket: "b".to_string(),
        buffer: 5,
        additional: 100,
    };
    assert_eq!(args.policy(), SyncPolicy::Buffered { buffer: 5 });
    assert_eq!(args.mode(), RunMode::Continuous { poll_interval: 10, catch_up_lookahead: 100 });
}

#[test]
fn strict_and_start_together_are_a_conflict() {
    for skip in [false, true] {
        for present in [false, true] {
            assert_eq!(
                new_args(Some(5), true, skip).policy(present),
                Err(SyncError::PolicyConflict)
            );
        }
    }
}

#[test]
fn new_options_choose_the_policy() {
    assert_eq!(new_args(None, false, true).policy(false), Ok(SyncPolicy::Buffered { buffer: 10 }));
    assert_eq!(new_args(None, false, false).policy(true), Ok(SyncPolicy::Buffered { buffer: 10 }));
    assert_eq!(
        new_args(Some(7), false, true).policy(false),
        Ok(SyncPolicy::ExplicitStart { height: 7 })
    );
    assert_eq!(new_args(None, true, true).policy(true), Ok(SyncPolicy::StrictForward));
    assert_eq!(new_args(None, false, false).policy(false), Ok(SyncPolicy::FullRemoteCatalog));
    assert_eq!(new_args(None, true, false).policy(false), Ok(SyncPolicy::FullRemoteCatalog));
    assert_eq!(new_args(Some(7), false, false).policy(false), Ok(SyncPolicy::FullRemoteCatalog));
}

#[test]
fn new_options_run_once() {
    assert_eq!(
        new_args(None, false, true).mode(90),
        RunMode::SingleRun { lookahead: Lookahead::Elapsed { listing_age: 90 } }
    );
}
