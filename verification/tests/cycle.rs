use block_sync::codec::{parse_local_filename, parse_remote_key, BlockKey, LocalBlockFile};
use block_sync::codec::{render_key, render_local_name};
use block_sync::coverage::DirEntry;
use block_sync::cycle::{prepare_cycle, Cycle};
use block_sync::driver::{cycle_event, step, Action, Event, Lookahead, Phase, RunMode};
use block_sync::planner::{HeightRange, Plan, SyncPolicy};
use block_sync::query::QueryBatch;
use block_sync::report::{read_report, CycleResult};

const BUCKET: &str = "b";
const NETWORK: &str = "mainnet";

fn key(height: u32, hash: &str) -> BlockKey {
    BlockKey {
        bucket: BUCKET.to_string(),
        network: NETWORK.to_string(),
        height,
        hash: hash.to_string(),
    }
}

fn entry(name: &str, created_at: u64) -> DirEntry {
    DirEntry { name: name.to_string(), created_at }
}

/// A copier that keeps to what is asked of one: it copies every object that
/// a line of the batch matches and that is not in the directory yet, and
/// says of each line what came of it.
fn copy(batch: &QueryBatch, remote: &[BlockKey], local: &mut Vec<DirEntry>, now: u64) -> String {
    let mut report = String::new();
    for line in &batch.lines {
        let asked = parse_remote_key(line).unwrap();
        let mut matched = false;
        for object in remote {
            let same_place = object.bucket == asked.bucket
                && object.network == asked.network
                && object.height == asked.height;
            if !same_place || (asked.hash != "*" && asked.hash != object.hash) {
                continue;
            }
            matched = true;
            let name = render_local_name(&LocalBlockFile {
                network: object.network.clone(),
                height: object.height,
                hash: object.hash.clone(),
                path: String::new(),
                created_at: 0,
            });
            if local.iter().any(|e| e.name == name) {
                report.push_str(&format!("Skipping existing item: file://{}\n", name));
            } else {
                report.push_str(&format!("Copying {}...\n", render_key(object)));
                local.push(DirEntry { name, created_at: now });
            }
        }
        if !matched {
            report.push_str(&format!("CommandException: No URLs matched: {}\n", line));
        }
    }
    report
}

fn run_cycle(
    remote: &[BlockKey],
    local: &mut Vec<DirEntry>,
    policy: SyncPolicy,
    lookahead: Lookahead,
    now: u64,
) -> (Cycle, CycleResult) {
    let catalog: Vec<BlockKey> = remote.to_vec();
    let cycle = prepare_cycle(local, now, BUCKET, NETWORK, policy, lookahead, &catalog);
    let report = copy(&cycle.batch, remote, local, now);
    (cycle, read_report(&report))
}

#[test]
fn one_cycle_from_listing_to_batch() {
    let local = vec![entry("mainnet-10-h1.json", 0), entry("mainnet-12-h2.json", 0)];
    let cycle = prepare_cycle(
        &local,
        0,
        BUCKET,
        NETWORK,
        SyncPolicy::Buffered { buffer: 5 },
        Lookahead::Fixed { heights: 3 },
        &Vec::new(),
    );
    assert_eq!(cycle.coverage.max_height, 12);
    assert_eq!(cycle.plan, Plan::Range(HeightRange { start: 7, end: 15 }));
    assert_eq!(cycle.batch.lines.len(), 9);
    assert_eq!(cycle.batch.lines[0], "gs://b/mainnet-7-*.json");
    assert_eq!(cycle.batch.lines[8], "gs://b/mainnet-15-*.json");
}

#[test]
fn one_cycle_on_an_empty_directory() {
    let cycle = prepare_cycle(
        &Vec::new(),
        0,
        BUCKET,
        NETWORK,
        SyncPolicy::Buffered { buffer: 5 },
        Lookahead::Fixed { heights: 3 },
        &Vec::new(),
    );
    assert_eq!(cycle.coverage.max_height, 0);
    assert_eq!(cycle.coverage.newest_file_age, None);
    assert_eq!(cycle.plan, Plan::Range(HeightRange { start: 2, end: 3 }));
    assert_eq!(cycle.batch.lines, vec!["gs://b/mainnet-2-*.json", "gs://b/mainnet-3-*.json"]);
}

#[test]
fn one_cycle_with_lookahead_by_age() {
    let local = vec![entry("mainnet-40-h.json", 1_000)];
    let cycle = prepare_cycle(
        &local,
        1_000 + 30 * 60,
        BUCKET,
        NETWORK,
        SyncPolicy::StrictForward,
        Lookahead::Elapsed { listing_age: 0 },
        &Vec::new(),
    );
    assert_eq!(cycle.coverage.newest_file_age, Some(1800));
    assert_eq!(cycle.plan, Plan::Range(HeightRange { start: 41, end: 51 }));
}

#[test]
fn one_cycle_with_lookahead_by_the_age_of_the_listing() {
    let cycle = prepare_cycle(
        &Vec::new(),
        5_000,
        BUCKET,
        NETWORK,
        SyncPolicy::ExplicitStart { height: 0 },
        Lookahead::Elapsed { listing_age: 6 * 60 },
        &Vec::new(),
    );
    assert_eq!(cycle.plan, Plan::Range(HeightRange { start: 0, end: 3 }));
}

#[test]
fn one_cycle_by_catalog() {
    let local = vec![entry("mainnet-20-h.json", 0)];
    let catalog = vec![key(30, "z"), key(9, "low"), key(10, "a"), key(30, "y"), key(25, "m")];
    let cycle = prepare_cycle(
        &local,
        0,
        BUCKET,
        NETWORK,
        SyncPolicy::FullRemoteCatalog,
        Lookahead::Fixed { heights: 1 },
        &catalog,
    );
    assert_eq!(
        cycle.batch.lines,
        vec![
            "gs://b/mainnet-10-a.json",
            "gs://b/mainnet-25-m.json",
            "gs://b/mainnet-30-z.json",
            "gs://b/mainnet-30-y.json"
        ]
    );
}

#[test]
fn a_cycle_fetches_forks() {
    let remote = vec![key(2, "a"), key(3, "b"), key(3, "c"), key(4, "d")];
    let mut local = Vec::new();
    let (_, result) = run_cycle(
        &remote,
        &mut local,
        SyncPolicy::Buffered { buffer: 5 },
        Lookahead::Fixed { heights: 10 },
        1,
    );
    assert_eq!(result.copied_keys.len(), 4);
    assert!(result.remote_said_not_found);
    assert_eq!(local.len(), 4);
    for e in &local {
        assert!(parse_local_filename(&e.name, e.created_at).is_ok());
    }
}

#[test]
fn a_second_cycle_copies_nothing() {
    let remote: Vec<BlockKey> = (2..=40).map(|h| key(h, "h")).collect();
    let policies = [
        SyncPolicy::Buffered { buffer: 5 },
        SyncPolicy::StrictForward,
        SyncPolicy::ExplicitStart { height: 4 },
        SyncPolicy::FullRemoteCatalog,
    ];
    for policy in policies {
        let mut local = vec![entry("mainnet-10-h.json", 0)];
        let lookahead = Lookahead::Fixed { heights: 100 };
        let (_, first) = run_cycle(&remote, &mut local, policy, lookahead, 1);
        assert!(!first.copied_keys.is_empty());
        let after_first = local.clone();
        let (_, second) = run_cycle(&remote, &mut local, policy, lookahead, 2);
        assert_eq!(second.copied_keys, Vec::<String>::new(), "{:?}", policy);
        assert_eq!(local, after_first);
    }
}

#[test]
fn a_second_cycle_copies_what_lay_beyond_the_first() {
    let remote: Vec<BlockKey> = (2..=40).map(|h| key(h, "h")).collect();
    let mut local = vec![entry("mainnet-10-h.json", 0)];
    let policy = SyncPolicy::Buffered { buffer: 5 };
    let lookahead = Lookahead::Fixed { heights: 10 };
    let (first_cycle, first) = run_cycle(&remote, &mut local, policy, lookahead, 1);
    assert_eq!(first_cycle.plan, Plan::Range(HeightRange { start: 5, end: 20 }));
    assert_eq!(first.copied_keys.len(), 15);
    let (second_cycle, second) = run_cycle(&remote, &mut local, policy, lookahead, 2);
    assert_eq!(second_cycle.plan, Plan::Range(HeightRange { start: 15, end: 30 }));
    assert_eq!(second.copied_keys.len(), 10);
    assert_eq!(second.copied_keys[0], "Copying gs://b/mainnet-21-h.json...");
}

#[test]
fn a_continuous_run_catches_up_and_polls() {
    let remote: Vec<BlockKey> = (2..=25).map(|h| key(h, "h")).collect();
    let mut local = Vec::new();
    let mode = RunMode::Continuous { poll_interval: 10, catch_up_lookahead: 10 };
    let policy = SyncPolicy::Buffered { buffer: 5 };
    let mut next = step(mode, Phase::Initializing, Event::Started);
    let mut cycles = 0;
    let mut pauses = 0;
    while pauses < 3 {
        let event = match next.action {
            Action::RunCycle { lookahead } => {
                cycles += 1;
                let (_, result) = run_cycle(&remote, &mut local, policy, lookahead, cycles);
                if next.phase == Phase::CatchingUp && cycles < 3 {
                    assert!(!result.remote_said_not_found);
                }
                cycle_event(&Ok(result))
            }
            Action::Sleep { seconds } => {
                assert_eq!(seconds, 10);
                assert_eq!(next.phase, Phase::Polling);
                pauses += 1;
                Event::Slept
            }
            Action::Stop => unreachable!(),
        };
        next = step(mode, next.phase, event);
    }
    assert_eq!(cycles, 5);
    assert_eq!(local.len(), 24);
    assert_eq!(next.phase, Phase::Polling);
}

#[test]
fn a_continuous_run_polls_after_one_cycle_that_finds_nothing() {
    let mut local = Vec::new();
    let mode = RunMode::Continuous { poll_interval: 30, catch_up_lookahead: 100 };
    let first = step(mode, Phase::Initializing, Event::Started);
    let lookahead = match first.action {
        Action::RunCycle { lookahead } => lookahead,
        _ => unreachable!(),
    };
    let (_, result) =
        run_cycle(&[], &mut local, SyncPolicy::Buffered { buffer: 5 }, lookahead, 1);
    assert!(result.remote_said_not_found);
    let second = step(mode, first.phase, cycle_event(&Ok(result)));
    assert_eq!(second.phase, Phase::Polling);
    assert_eq!(second.action, Action::Sleep { seconds: 30 });
}
