//! One cycle, as far as it is computed: from the listing of the block
//! directory to the batch for the copier.

use vstd::prelude::*;
use crate::codec::{parse_local, BlockKey, NameFields};
use crate::coverage::{
    covers, height_at, is_coverage_of, is_max_height, scan, CoverageSnapshot, DirEntry,
};
use crate::driver::{lookahead_heights, Lookahead};
use crate::planner::{
    catalog_floor, is_plan_of, lemma_start_monotone, plan, planned_end, planned_start, Plan,
    SyncPolicy,
};
use crate::query::{materialize, plan_lines, QueryBatch};

verus! {

/// What a cycle found and what it asks for.
#[derive(Debug, Clone, PartialEq, Eq)]
pub struct Cycle {
    pub coverage: CoverageSnapshot,
    pub plan: Plan,
    pub batch: QueryBatch,
}

/// Prepares one cycle: scans the listing of the block directory for the
/// block files of `network`, plans by the policy and the lookahead over
/// what the scan found, and writes the plan out as the batch.
///
/// `now` is the time of the scan in seconds since the epoch. The catalog is
/// looked at under `FullRemoteCatalog` only.
pub fn prepare_cycle(
    entries: &Vec<DirEntry>,
    now: u64,
    bucket: &str,
    network: &str,
    policy: SyncPolicy,
    lookahead: Lookahead,
    catalog: &Vec<BlockKey>,
) -> (cycle: Cycle)
    ensures
        is_coverage_of(cycle.coverage, entries@, network@, now as nat),
        is_plan_of(
            cycle.plan,
            cycle.coverage.max_height as nat,
            policy,
            lookahead_heights(lookahead, cycle.coverage),
            catalog@,
        ),
        cycle.batch@ == plan_lines(cycle.plan, bucket@, network@),
{
    let coverage = scan(entries, network, now);
    let heights = lookahead.heights(&coverage);
    let plan = plan(&coverage, policy, heights, catalog);
    let batch = materialize(&plan, bucket, network);
    Cycle { coverage, plan, batch }
}

/// A block of one network as a store holds it.
pub ghost struct StoredBlock {
    pub height: nat,
    pub hash: Seq<char>,
}

/// `max` is the greatest height among the blocks that are present, or 0
/// where none is.
pub open spec fn is_greatest_height(present: Set<StoredBlock>, max: nat) -> bool {
    &&& forall|block: StoredBlock| #[trigger] present.contains(block) ==> block.height <= max
    &&& max == 0 || exists|block: StoredBlock| #[trigger]
        present.contains(block) && block.height == max
}

/// The blocks of `network` that a listing of the block directory shows to
/// be present.
pub open spec fn blocks_listed(entries: Seq<DirEntry>, network: Seq<char>) -> Set<StoredBlock> {
    Set::new(
        |block: StoredBlock|
            exists|i: int|
                0 <= i < entries.len() && #[trigger] parse_local(entries[i].name@) == Some(
                    NameFields { network, height: block.height, hash: block.hash },
                ),
    )
}

/// The greatest height that a scan finds in a listing is the greatest
/// height among the blocks that the listing shows to be present.
pub proof fn lemma_listing_greatest_height(entries: Seq<DirEntry>, network: Seq<char>, max: nat)
    requires
        is_max_height(entries, network, max),
    ensures
        is_greatest_height(blocks_listed(entries, network), max),
{
    let present = blocks_listed(entries, network);
    assert forall|block: StoredBlock| #[trigger] present.contains(block) implies block.height
        <= max by {
        let i = choose|i: int|
            0 <= i < entries.len() && #[trigger] parse_local(entries[i].name@) == Some(
                NameFields { network, height: block.height, hash: block.hash },
            );
        assert(covers(entries, network, i));
        assert(height_at(entries, network, i) == block.height);
    }
    if max > 0 {
        let j = choose|j: int| #[trigger]
            covers(entries, network, j) && height_at(entries, network, j) == max;
        let fields = parse_local(entries[j].name@).unwrap();
        let block = StoredBlock { height: max, hash: fields.hash };
        assert(parse_local(entries[j].name@) == Some(
            NameFields { network, height: block.height, hash: block.hash },
        ));
        assert(present.contains(block));
    }
}

/// What the copier owes for the patterns of the heights from `start` to
/// `end`: every block of the remote store at one of these heights that is
/// not present yet.
pub open spec fn copied_in_range(
    remote: Set<StoredBlock>,
    present: Set<StoredBlock>,
    start: nat,
    end: nat,
) -> Set<StoredBlock> {
    Set::new(
        |block: StoredBlock|
            remote.contains(block) && !present.contains(block) && start <= block.height <= end,
    )
}

/// What the copier owes for the keys of a listing of the remote store at
/// or above `floor`: every such block that is not present yet.
pub open spec fn copied_from_catalog(
    remote: Set<StoredBlock>,
    present: Set<StoredBlock>,
    floor: nat,
) -> Set<StoredBlock> {
    Set::new(
        |block: StoredBlock|
            remote.contains(block) && !present.contains(block) && floor <= block.height,
    )
}

/// What a cycle by a range copies over a greatest local height of `max`,
/// where the copier copies what it owes.
pub open spec fn copied_by_range_cycle(
    remote: Set<StoredBlock>,
    present: Set<StoredBlock>,
    policy: SyncPolicy,
    max: nat,
    lookahead: nat,
) -> Set<StoredBlock> {
    copied_in_range(remote, present, planned_start(policy, max), planned_end(max, lookahead))
}

/// What a cycle by a listing of the remote store copies over a greatest
/// local height of `max`, where the copier copies what it owes.
pub open spec fn copied_by_catalog_cycle(
    remote: Set<StoredBlock>,
    present: Set<StoredBlock>,
    max: nat,
) -> Set<StoredBlock> {
    copied_from_catalog(remote, present, catalog_floor(max))
}

/// Where something is added to what is present, the greatest height does
/// not fall.
pub proof fn lemma_greatest_height_grows(
    present: Set<StoredBlock>,
    more: Set<StoredBlock>,
    before: nat,
    after: nat,
)
    requires
        is_greatest_height(present, before),
        is_greatest_height(present.union(more), after),
    ensures
        before <= after,
{
    if before > 0 {
        let block = choose|block: StoredBlock| #[trigger]
            present.contains(block) && block.height == before;
        assert(present.union(more).contains(block));
    }
}

/// What a second cycle copies, where the remote store has not changed
/// since the first and the copier has copied what it owed: the blocks of
/// its range that lie above the range of the first cycle and were not
/// present before it. All else that it asks for is present.
///
/// `first_max` is the greatest height before the first cycle, `second_max`
/// the greatest height after it; the policy goes by a range.
pub proof fn lemma_second_cycle_copies(
    remote: Set<StoredBlock>,
    present: Set<StoredBlock>,
    policy: SyncPolicy,
    first_max: nat,
    first_lookahead: nat,
    second_max: nat,
    second_lookahead: nat,
)
    requires
        policy !is FullRemoteCatalog,
        is_greatest_height(present, first_max),
        is_greatest_height(
            present.union(
                copied_by_range_cycle(remote, present, policy, first_max, first_lookahead),
            ),
            second_max,
        ),
    ensures
        copied_by_range_cycle(
            remote,
            present.union(
                copied_by_range_cycle(remote, present, policy, first_max, first_lookahead),
            ),
            policy,
            second_max,
            second_lookahead,
        ) == Set::new(
            |block: StoredBlock|
                remote.contains(block) && !present.contains(block) && planned_end(
                    first_max,
                    first_lookahead,
                ) < block.height && planned_start(policy, second_max) <= block.height
                    <= planned_end(second_max, second_lookahead),
        ),
{
    let first = copied_by_range_cycle(remote, present, policy, first_max, first_lookahead);
    lemma_greatest_height_grows(present, first, first_max, second_max);
    lemma_start_monotone(policy, first_max, second_max);
    let second = copied_by_range_cycle(
        remote,
        present.union(first),
        policy,
        second_max,
        second_lookahead,
    );
    let above = Set::new(
        |block: StoredBlock|
            remote.contains(block) && !present.contains(block) && planned_end(
                first_max,
                first_lookahead,
            ) < block.height && planned_start(policy, second_max) <= block.height <= planned_end(
                second_max,
                second_lookahead,
            ),
    );
    assert forall|block: StoredBlock| second.contains(block) <==> above.contains(block) by {
        if second.contains(block) {
            assert(!first.contains(block));
        }
        if above.contains(block) {
            assert(!first.contains(block));
        }
    }
    assert(second =~= above);
}

/// A cycle by a range, run twice in a row, copies nothing the second time,
/// where the remote store has not changed, the copier has copied what it
/// owed, and the second range reaches nothing new: no block of the remote
/// store above the first range that was not present before.
pub proof fn lemma_cycle_idempotent(
    remote: Set<StoredBlock>,
    present: Set<StoredBlock>,
    policy: SyncPolicy,
    first_max: nat,
    first_lookahead: nat,
    second_max: nat,
    second_lookahead: nat,
)
    requires
        policy !is FullRemoteCatalog,
        is_greatest_height(present, first_max),
        is_greatest_height(
            present.union(
                copied_by_range_cycle(remote, present, policy, first_max, first_lookahead),
            ),
            second_max,
        ),
        forall|block: StoredBlock|
            #[trigger] remote.contains(block) && planned_end(first_max, first_lookahead)
                < block.height && planned_start(policy, second_max) <= block.height <= planned_end(
                second_max,
                second_lookahead,
            ) ==> present.contains(block),
    ensures
        copied_by_range_cycle(
            remote,
            present.union(
                copied_by_range_cycle(remote, present, policy, first_max, first_lookahead),
            ),
            policy,
            second_max,
            second_lookahead,
        ) == Set::<StoredBlock>::empty(),
{
    lemma_second_cycle_copies(
        remote,
        present,
        policy,
        first_max,
        first_lookahead,
        second_max,
        second_lookahead,
    );
    let second = copied_by_range_cycle(
        remote,
        present.union(copied_by_range_cycle(remote, present, policy, first_max, first_lookahead)),
        policy,
        second_max,
        second_lookahead,
    );
    assert(second =~= Set::<StoredBlock>::empty());
}

/// A cycle by a listing of the remote store, run twice in a row, copies
/// nothing the second time, where the remote store has not changed and the
/// copier has copied what it owed.
pub proof fn lemma_catalog_cycle_idempotent(
    remote: Set<StoredBlock>,
    present: Set<StoredBlock>,
    first_max: nat,
    second_max: nat,
)
    requires
        is_greatest_height(present, first_max),
        is_greatest_height(
            present.union(copied_by_catalog_cycle(remote, present, first_max)),
            second_max,
        ),
    ensures
        copied_by_catalog_cycle(
            remote,
            present.union(copied_by_catalog_cycle(remote, present, first_max)),
            second_max,
        ) == Set::<StoredBlock>::empty(),
{
    let first = copied_by_catalog_cycle(remote, present, first_max);
    lemma_greatest_height_grows(present, first, first_max, second_max);
    let second = copied_by_catalog_cycle(remote, present.union(first), second_max);
    assert forall|block: StoredBlock| !second.contains(block) by {
        if remote.contains(block) && catalog_floor(second_max) <= block.height
            && !present.contains(block) {
            assert(first.contains(block));
        }
    }
    assert(second =~= Set::<StoredBlock>::empty());
}

} // verus!
