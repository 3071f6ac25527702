//! The range planner: which heights, or which keys, to ask the remote store
//! for next.

use vstd::prelude::*;
use crate::codec::BlockKey;
use crate::coverage::CoverageSnapshot;

verus! {

/// Heights below this floor are never planned by a policy that goes by the
/// local coverage: heights 0 and 1 are reserved.
pub const HEIGHT_FLOOR: u64 = 2;

/// How far below the greatest local height the keys of a remote catalog
/// are still asked for: forks near the boundary are fetched again.
pub const CATALOG_MARGIN: u32 = 10;

/// How the next query follows from the local coverage.
#[derive(Debug, Clone, Copy, PartialEq, Eq)]
pub enum SyncPolicy {
    /// From `buffer` heights below the greatest local height upward.
    Buffered { buffer: u32 },
    /// Strictly above the greatest local height.
    StrictForward,
    /// From a given height upward, whatever is present.
    ExplicitStart { height: u32 },
    /// By a listing of the remote store in place of a range.
    FullRemoteCatalog,
}

/// The heights from `start` to `end`, both included; empty where `start`
/// is above `end`.
#[derive(Debug, Clone, Copy, PartialEq, Eq)]
pub struct HeightRange {
    pub start: u64,
    pub end: u64,
}

impl HeightRange {
    /// `height` lies in the range.
    pub open spec fn contains(self, height: nat) -> bool {
        self.start <= height <= self.end
    }

    /// How many heights the range holds.
    pub open spec fn count(self) -> nat {
        if self.start <= self.end {
            (self.end - self.start + 1) as nat
        } else {
            0
        }
    }

    /// Whether the range holds no height.
    pub fn is_empty(&self) -> (r: bool)
        ensures
            r == (self.count() == 0),
            r == (forall|height: nat| !self.contains(height)),
    {
        proof {
            if self.start <= self.end {
                assert(self.contains(self.start as nat));
            }
        }
        self.start > self.end
    }

    /// Whether `height` lies in the range.
    pub fn holds(&self, height: u64) -> (r: bool)
        ensures
            r == self.contains(height as nat),
    {
        self.start <= height && height <= self.end
    }
}

/// The first height that a policy plans from the greatest local height.
/// A policy that goes by the coverage never starts below the floor; an
/// explicit start is taken as it is.
pub open spec fn planned_start(policy: SyncPolicy, max_height: nat) -> nat
    recommends
        policy !is FullRemoteCatalog,
{
    match policy {
        SyncPolicy::Buffered { buffer } => {
            let below = if max_height >= buffer {
                (max_height - buffer) as nat
            } else {
                0
            };
            if below >= HEIGHT_FLOOR {
                below
            } else {
                HEIGHT_FLOOR as nat
            }
        },
        SyncPolicy::StrictForward => if max_height + 1 >= HEIGHT_FLOOR {
            max_height + 1
        } else {
            HEIGHT_FLOOR as nat
        },
        SyncPolicy::ExplicitStart { height } => height as nat,
        SyncPolicy::FullRemoteCatalog => HEIGHT_FLOOR as nat,
    }
}

/// The last height that is planned: `lookahead` heights above the greatest
/// local one.
pub open spec fn planned_end(max_height: nat, lookahead: nat) -> nat {
    max_height + lookahead
}

/// Plans the range of heights to query under a policy that goes by a
/// range; `None` for the policy that goes by a catalog.
pub fn plan_range(coverage: &CoverageSnapshot, policy: SyncPolicy, lookahead: u32) -> (r: Option<
    HeightRange,
>)
    ensures
        r is None <==> policy is FullRemoteCatalog,
        r matches Some(range) ==> {
            &&& range.start == planned_start(policy, coverage.max_height as nat)
            &&& range.end == planned_end(coverage.max_height as nat, lookahead as nat)
        },
{
    let max_height = coverage.max_height;
    let end: u64 = max_height as u64 + lookahead as u64;
    match policy {
        SyncPolicy::Buffered { buffer } => {
            let below = max_height.saturating_sub(buffer) as u64;
            let start = if below >= HEIGHT_FLOOR {
                below
            } else {
                HEIGHT_FLOOR
            };
            Some(HeightRange { start, end })
        },
        SyncPolicy::StrictForward => {
            let above = max_height as u64 + 1;
            let start = if above >= HEIGHT_FLOOR {
                above
            } else {
                HEIGHT_FLOOR
            };
            Some(HeightRange { start, end })
        },
        SyncPolicy::ExplicitStart { height } => Some(HeightRange { start: height as u64, end }),
        SyncPolicy::FullRemoteCatalog => None,
    }
}

/// The keys to ask for by name: those of a remote catalog at or above
/// `floor`, lowest height first.
#[derive(Debug, Clone, PartialEq, Eq)]
pub struct ExplicitKeySet {
    pub floor: u32,
    pub keys: Vec<BlockKey>,
}

impl ExplicitKeySet {
    /// The keys lie at or above the floor, lowest height first.
    pub open spec fn wf(&self) -> bool {
        &&& sorted_by_height(self.keys@)
        &&& forall|i: int| 0 <= i < self.keys@.len() ==> #[trigger] self.keys@[i].height >= self.floor
    }
}

/// What to ask the remote store for: a range of heights, or keys by name.
#[derive(Debug, Clone, PartialEq, Eq)]
pub enum Plan {
    Range(HeightRange),
    Keys(ExplicitKeySet),
}

/// The height from which the keys of a catalog are asked for: the margin
/// below the greatest local height, and 0 where that would be below 0.
pub open spec fn catalog_floor(max_height: nat) -> nat {
    if max_height >= CATALOG_MARGIN {
        (max_height - CATALOG_MARGIN) as nat
    } else {
        0
    }
}

/// The keys of `keys` at or above `floor`, in their order.
pub open spec fn at_or_above(keys: Seq<BlockKey>, floor: nat) -> Seq<BlockKey> {
    keys.filter(|key: BlockKey| key.height >= floor)
}

/// The keys of `keys` at `height`, in their order.
pub open spec fn at_height(keys: Seq<BlockKey>, height: nat) -> Seq<BlockKey> {
    keys.filter(|key: BlockKey| key.height == height)
}

/// No key stands before one of a lower height.
pub open spec fn sorted_by_height(keys: Seq<BlockKey>) -> bool {
    forall|i: int, j: int| 0 <= i <= j < keys.len() ==> keys[i].height <= keys[j].height
}

/// `sorted` holds the keys of `keys`, lowest height first, and those of one
/// height in the order that they have in `keys`.
pub open spec fn is_stable_sort_of(sorted: Seq<BlockKey>, keys: Seq<BlockKey>) -> bool {
    &&& sorted_by_height(sorted)
    &&& forall|height: nat| #[trigger] at_height(sorted, height) == at_height(keys, height)
}

/// Brings two sorted runs of keys together into one: lowest height first,
/// the keys of the first run before those of the second where the heights
/// are the same.
fn merge_by_height(first: &Vec<BlockKey>, second: &Vec<BlockKey>) -> (merged: Vec<BlockKey>)
    requires
        sorted_by_height(first@),
        sorted_by_height(second@),
    ensures
        sorted_by_height(merged@),
        merged@.len() == first@.len() + second@.len(),
        forall|height: nat| #[trigger]
            at_height(merged@, height) == at_height(first@, height) + at_height(second@, height),
{
    let mut merged: Vec<BlockKey> = Vec::new();
    let mut i: usize = 0;
    let mut j: usize = 0;
    proof {
        assert(first@.take(0) =~= Seq::<BlockKey>::empty());
        assert(second@.take(0) =~= Seq::<BlockKey>::empty());
        assert forall|height: nat| #[trigger]
            at_height(merged@, height) == at_height(first@.take(0), height) + at_height(
                second@.take(0),
                height,
            ) by {
            reveal(Seq::filter);
            assert(at_height(merged@, height) =~= Seq::<BlockKey>::empty());
        }
    }
    while i < first.len() || j < second.len()
        invariant
            i <= first.len(),
            j <= second.len(),
            sorted_by_height(first@),
            sorted_by_height(second@),
            sorted_by_height(merged@),
            merged@.len() == i + j,
            forall|k: int|
                0 <= k < merged@.len() && i < first.len() ==> (#[trigger] merged@[k]).height
                    <= first@[i as int].height,
            forall|k: int|
                0 <= k < merged@.len() && j < second.len() ==> (#[trigger] merged@[k]).height
                    <= second@[j as int].height,
            forall|k: int|
                0 <= k < j && i < first.len() ==> (#[trigger] second@[k]).height
                    < first@[i as int].height,
            forall|height: nat| #[trigger]
                at_height(merged@, height) == at_height(first@.take(i as int), height)
                    + at_height(second@.take(j as int), height),
        decreases first.len() - i + second.len() - j,
    {
        let ghost before = merged@;
        let from_first = if i >= first.len() {
            false
        } else if j >= second.len() {
            true
        } else {
            first[i].height <= second[j].height
        };
        if from_first {
            let key = first[i].clone();
            merged.push(key);
            proof {
                assert(first@.take(i + 1) =~= first@.take(i as int).push(key));
                assert forall|height: nat| #[trigger]
                    at_height(merged@, height) == at_height(first@.take(i + 1), height)
                        + at_height(second@.take(j as int), height) by {
                    let pred = |k: BlockKey| k.height == height;
                    let taken = first@.take(i as int);
                    let other = second@.take(j as int);
                    before.lemma_filter_push(key, pred);
                    taken.lemma_filter_push(key, pred);
                    assert(at_height(before, height) == at_height(taken, height) + at_height(
                        other,
                        height,
                    ));
                    if key.height == height {
                        assert(other.all(|k: BlockKey| !pred(k))) by {
                            assert forall|q: int| 0 <= q < other.len() implies !pred(
                                #[trigger] other[q],
                            ) by {
                                assert(other[q] == second@[q]);
                            }
                        }
                        other.lemma_all_neg_filter_empty(pred);
                        assert(at_height(other, height) =~= Seq::<BlockKey>::empty());
                        assert(at_height(taken, height).push(key) + at_height(other, height)
                            =~= (at_height(taken, height) + at_height(other, height)).push(key));
                    }
                }
                assert forall|a: int, b: int| 0 <= a <= b < merged@.len() implies merged@[a].height
                    <= merged@[b].height by {
                    if b < before.len() {
                        assert(merged@[a] == before[a]);
                        assert(merged@[b] == before[b]);
                    } else if a < before.len() {
                        assert(merged@[a] == before[a]);
                    }
                }
                assert forall|k: int|
                    0 <= k < merged@.len() && i + 1 < first.len() implies (
                #[trigger] merged@[k]).height <= first@[i + 1].height by {
                    if k < before.len() {
                        assert(merged@[k] == before[k]);
                    }
                }
                assert forall|k: int|
                    0 <= k < merged@.len() && j < second.len() implies (
                #[trigger] merged@[k]).height <= second@[j as int].height by {
                    if k < before.len() {
                        assert(merged@[k] == before[k]);
                    }
                }
            }
            i = i + 1;
        } else {
            let key = second[j].clone();
            merged.push(key);
            proof {
                assert(second@.take(j + 1) =~= second@.take(j as int).push(key));
                assert forall|height: nat| #[trigger]
                    at_height(merged@, height) == at_height(first@.take(i as int), height)
                        + at_height(second@.take(j + 1), height) by {
                    let pred = |k: BlockKey| k.height == height;
                    let taken = first@.take(i as int);
                    let other = second@.take(j as int);
                    before.lemma_filter_push(key, pred);
                    other.lemma_filter_push(key, pred);
                    assert(at_height(before, height) == at_height(taken, height) + at_height(
                        other,
                        height,
                    ));
                    if key.height == height {
                        assert(at_height(taken, height) + at_height(other, height).push(key)
                            =~= (at_height(taken, height) + at_height(other, height)).push(key));
                    }
                }
                assert forall|a: int, b: int| 0 <= a <= b < merged@.len() implies merged@[a].height
                    <= merged@[b].height by {
                    if b < before.len() {
                        assert(merged@[a] == before[a]);
                        assert(merged@[b] == before[b]);
                    } else if a < before.len() {
                        assert(merged@[a] == before[a]);
                    }
                }
                assert forall|k: int|
                    0 <= k < merged@.len() && i < first.len() implies (
                #[trigger] merged@[k]).height <= first@[i as int].height by {
                    if k < before.len() {
                        assert(merged@[k] == before[k]);
                    }
                }
                assert forall|k: int|
                    0 <= k < merged@.len() && j + 1 < second.len() implies (
                #[trigger] merged@[k]).height <= second@[j + 1].height by {
                    if k < before.len() {
                        assert(merged@[k] == before[k]);
                    }
                }
            }
            j = j + 1;
        }
    }
    assert(first@.take(i as int) =~= first@);
    assert(second@.take(j as int) =~= second@);
    merged
}

/// Sorts the keys of `keys` from `from` up to `to` by their heights.
fn sort_stretch(keys: &Vec<BlockKey>, from: usize, to: usize) -> (sorted: Vec<BlockKey>)
    requires
        from <= to <= keys.len(),
    ensures
        is_stable_sort_of(sorted@, keys@.subrange(from as int, to as int)),
        sorted@.len() == to - from,
    decreases to - from,
{
    let ghost stretch = keys@.subrange(from as int, to as int);
    if to - from == 0 {
        let sorted: Vec<BlockKey> = Vec::new();
        assert(sorted@ =~= stretch);
        return sorted;
    }
    if to - from == 1 {
        let mut sorted: Vec<BlockKey> = Vec::new();
        sorted.push(keys[from].clone());
        assert(sorted@ =~= stretch);
        return sorted;
    }
    let mid = from + (to - from) / 2;
    let first = sort_stretch(keys, from, mid);
    let second = sort_stretch(keys, mid, to);
    let sorted = merge_by_height(&first, &second);
    proof {
        let lower = keys@.subrange(from as int, mid as int);
        let upper = keys@.subrange(mid as int, to as int);
        assert(stretch =~= lower + upper);
        assert forall|height: nat| #[trigger]
            at_height(sorted@, height) == at_height(stretch, height) by {
            Seq::filter_distributes_over_add(lower, upper, |k: BlockKey| k.height == height);
            assert(at_height(first@, height) == at_height(lower, height));
            assert(at_height(second@, height) == at_height(upper, height));
        }
    }
    sorted
}

/// Puts the keys in the order of their heights, lowest first; keys of one
/// height keep the order that they came in.
pub fn sort_by_height(keys: &Vec<BlockKey>) -> (sorted: Vec<BlockKey>)
    ensures
        is_stable_sort_of(sorted@, keys@),
        sorted@.len() == keys@.len(),
{
    assert(keys@.subrange(0, keys@.len() as int) =~= keys@);
    sort_stretch(keys, 0, keys.len())
}

/// Every key of a sorted copy is a key of what was sorted.
pub proof fn lemma_sorted_keys_are_keys(sorted: Seq<BlockKey>, keys: Seq<BlockKey>, i: int)
    requires
        is_stable_sort_of(sorted, keys),
        0 <= i < sorted.len(),
    ensures
        keys.contains(sorted[i]),
{
    let height = sorted[i].height as nat;
    let pred = |k: BlockKey| k.height == height;
    sorted.lemma_filter_contains(pred, i);
    assert(at_height(sorted, height) == at_height(keys, height));
    keys.lemma_filter_contains_rev(pred, sorted[i]);
}

/// Plans the keys to ask for from a listing of the remote store: the keys
/// of the catalog that lie no more than the margin below the greatest local
/// height, lowest height first, forks in the order of the listing.
pub fn plan_catalog(coverage: &CoverageSnapshot, catalog: &Vec<BlockKey>) -> (set: ExplicitKeySet)
    ensures
        set.floor == catalog_floor(coverage.max_height as nat),
        is_stable_sort_of(set.keys@, at_or_above(catalog@, set.floor as nat)),
        set.wf(),
{
    let floor = coverage.max_height.saturating_sub(CATALOG_MARGIN);
    let ghost pred = |key: BlockKey| key.height >= floor as nat;
    let mut kept: Vec<BlockKey> = Vec::new();
    let mut i: usize = 0;
    proof {
        assert(catalog@.take(0) =~= Seq::<BlockKey>::empty());
        reveal(Seq::filter);
    }
    while i < catalog.len()
        invariant
            i <= catalog.len(),
            pred == (|key: BlockKey| key.height >= floor as nat),
            kept@ == catalog@.take(i as int).filter(pred),
        decreases catalog.len() - i,
    {
        proof {
            assert(catalog@.take(i + 1) =~= catalog@.take(i as int).push(catalog@[i as int]));
            catalog@.take(i as int).lemma_filter_push(catalog@[i as int], pred);
        }
        if catalog[i].height >= floor {
            kept.push(catalog[i].clone());
        }
        i = i + 1;
    }
    assert(catalog@.take(i as int) =~= catalog@);
    let keys = sort_by_height(&kept);
    proof {
        assert forall|k: int| 0 <= k < keys@.len() implies #[trigger] keys@[k].height >= floor by {
            lemma_sorted_keys_are_keys(keys@, kept@, k);
            let at = choose|at: int| 0 <= at < kept@.len() && kept@[at] == keys@[k];
            catalog@.lemma_filter_pred(pred, at);
        }
    }
    ExplicitKeySet { floor, keys }
}

/// `plan` is what the policy plans over a greatest local height of
/// `max_height`: under a policy that goes by a range, the range from the
/// planned start to the planned end; under `FullRemoteCatalog`, the keys of
/// the catalog at or above the catalog floor, lowest height first, forks in
/// the order of the catalog.
pub open spec fn is_plan_of(
    plan: Plan,
    max_height: nat,
    policy: SyncPolicy,
    lookahead: nat,
    catalog: Seq<BlockKey>,
) -> bool {
    match plan {
        Plan::Range(range) => {
            &&& policy !is FullRemoteCatalog
            &&& range.start == planned_start(policy, max_height)
            &&& range.end == planned_end(max_height, lookahead)
        },
        Plan::Keys(set) => {
            &&& policy is FullRemoteCatalog
            &&& set.floor == catalog_floor(max_height)
            &&& is_stable_sort_of(set.keys@, at_or_above(catalog, set.floor as nat))
            &&& set.wf()
        },
    }
}

/// Plans what to ask the remote store for next.
///
/// Under a policy that goes by a range the plan is the range of
/// `plan_range`, and the catalog is not looked at. Under
/// `FullRemoteCatalog` it is the key set of `plan_catalog`, and the
/// lookahead is not looked at.
pub fn plan(
    coverage: &CoverageSnapshot,
    policy: SyncPolicy,
    lookahead: u32,
    catalog: &Vec<BlockKey>,
) -> (r: Plan)
    ensures
        is_plan_of(r, coverage.max_height as nat, policy, lookahead as nat, catalog@),
{
    match plan_range(coverage, policy, lookahead) {
        Some(range) => Plan::Range(range),
        None => Plan::Keys(plan_catalog(coverage, catalog)),
    }
}

/// A buffered range starts `buffer` below the greatest local height where
/// that is no lower than the floor, and ends `lookahead` above it.
pub proof fn lemma_buffered_range(max_height: nat, buffer: u32, lookahead: nat)
    requires
        max_height >= buffer + HEIGHT_FLOOR,
    ensures
        planned_start(SyncPolicy::Buffered { buffer }, max_height) == max_height - buffer,
        planned_end(max_height, lookahead) == max_height + lookahead,
{
}

/// A buffered range never starts below the floor, however large the
/// buffer; a strictly forward one neither.
pub proof fn lemma_start_at_or_above_floor(policy: SyncPolicy, max_height: nat)
    requires
        policy is Buffered || policy is StrictForward,
    ensures
        planned_start(policy, max_height) >= HEIGHT_FLOOR,
{
}

/// A buffered range whose buffer reaches below the floor starts at the
/// floor.
pub proof fn lemma_buffered_clamps_to_floor(max_height: nat, buffer: u32)
    requires
        max_height <= buffer + HEIGHT_FLOOR,
    ensures
        planned_start(SyncPolicy::Buffered { buffer }, max_height) == HEIGHT_FLOOR,
{
}

/// A strictly forward range holds no height that is already present: all
/// of its heights lie above the greatest local one.
pub proof fn lemma_strict_forward_above_max(max_height: nat, lookahead: nat, height: nat)
    requires
        planned_start(SyncPolicy::StrictForward, max_height) <= height <= planned_end(
            max_height,
            lookahead,
        ),
    ensures
        height > max_height,
{
}

/// With no lookahead a range holds at most what is present already: it is
/// empty under a strictly forward policy, and ends at the greatest local
/// height under the others.
pub proof fn lemma_no_lookahead(policy: SyncPolicy, max_height: nat)
    ensures
        planned_end(max_height, 0) == max_height,
        policy is StrictForward ==> planned_start(policy, max_height) > planned_end(max_height, 0),
{
}

/// Where more is present, a policy that goes by the coverage starts no
/// lower: what a cycle has fetched, the next does not fall behind.
pub proof fn lemma_start_monotone(policy: SyncPolicy, lower: nat, higher: nat)
    requires
        lower <= higher,
        policy !is FullRemoteCatalog,
    ensures
        planned_start(policy, lower) <= planned_start(policy, higher),
{
}

/// A key of `keys` stands among the keys of its height.
proof fn lemma_key_is_at_its_height(keys: Seq<BlockKey>, i: int)
    requires
        0 <= i < keys.len(),
    ensures
        at_height(keys, keys[i].height as nat).len() > 0,
        at_height(keys, keys[i].height as nat).contains(keys[i]),
{
    let height = keys[i].height as nat;
    keys.lemma_filter_contains(|key: BlockKey| key.height == height, i);
}

/// Where `keys` holds a key at `height`, some key of `keys` has that
/// height.
proof fn lemma_height_has_key(keys: Seq<BlockKey>, height: nat) -> (i: int)
    requires
        at_height(keys, height).len() > 0,
    ensures
        0 <= i < keys.len(),
        keys[i].height == height,
{
    let pred = |key: BlockKey| key.height == height;
    let found = at_height(keys, height)[0];
    keys.lemma_filter_pred(pred, 0);
    assert(at_height(keys, height).contains(found));
    keys.lemma_filter_contains_rev(pred, found);
    choose|i: int| 0 <= i < keys.len() && keys[i] == found
}

/// Two sequences of keys that are both sorted by height and hold the same
/// keys in the same order at every height are one sequence.
pub proof fn lemma_sorted_same_by_height(first: Seq<BlockKey>, second: Seq<BlockKey>)
    requires
        sorted_by_height(first),
        sorted_by_height(second),
        forall|height: nat| #[trigger] at_height(first, height) == at_height(second, height),
    ensures
        first == second,
    decreases first.len(),
{
    if first.len() == 0 {
        if second.len() > 0 {
            lemma_key_is_at_its_height(second, 0);
            let height = second[0].height as nat;
            assert(at_height(first, height) == at_height(second, height));
            first.lemma_filter_len(|key: BlockKey| key.height == height);
        }
        assert(first =~= second);
    } else {
        let x = first.last();
        let top = x.height as nat;
        let pred = |key: BlockKey| key.height == top;
        let rest1 = first.drop_last();
        assert(first =~= rest1.push(x));
        rest1.lemma_filter_push(x, pred);
        assert(at_height(first, top) == at_height(rest1, top).push(x));
        assert(at_height(second, top) == at_height(first, top));
        let at = lemma_height_has_key(second, top);
        let y = second.last();
        let rest2 = second.drop_last();
        assert(second =~= rest2.push(y));
        assert(y.height as nat == top) by {
            assert(second[at].height <= y.height);
            lemma_key_is_at_its_height(second, second.len() - 1);
            assert(at_height(first, y.height as nat) == at_height(second, y.height as nat));
            let back = lemma_height_has_key(first, y.height as nat);
            assert(first[back].height <= x.height);
        }
        rest2.lemma_filter_push(y, pred);
        assert(at_height(second, top) == at_height(rest2, top).push(y));
        assert(x == y) by {
            assert(at_height(rest1, top).push(x).last() == x);
            assert(at_height(rest2, top).push(y).last() == y);
        }
        assert forall|height: nat| #[trigger]
            at_height(rest1, height) == at_height(rest2, height) by {
            let p = |key: BlockKey| key.height == height;
            rest1.lemma_filter_push(x, p);
            rest2.lemma_filter_push(y, p);
            assert(at_height(first, height) == at_height(second, height));
            if height == top {
                assert(at_height(rest1, top).push(x).drop_last() =~= at_height(rest1, top));
                assert(at_height(rest2, top).push(y).drop_last() =~= at_height(rest2, top));
            }
        }
        lemma_sorted_same_by_height(rest1, rest2);
    }
}

/// The keys have one stable sort only.
pub proof fn lemma_stable_sort_unique(
    first: Seq<BlockKey>,
    second: Seq<BlockKey>,
    keys: Seq<BlockKey>,
)
    requires
        is_stable_sort_of(first, keys),
        is_stable_sort_of(second, keys),
    ensures
        first == second,
{
    assert forall|height: nat| #[trigger]
        at_height(first, height) == at_height(second, height) by {
        assert(at_height(first, height) == at_height(keys, height));
        assert(at_height(second, height) == at_height(keys, height));
    }
    lemma_sorted_same_by_height(first, second);
}

/// One state of the local store and one catalog have one plan only.
pub proof fn lemma_plan_unique(
    first: Plan,
    second: Plan,
    max_height: nat,
    policy: SyncPolicy,
    lookahead: nat,
    catalog: Seq<BlockKey>,
)
    requires
        is_plan_of(first, max_height, policy, lookahead, catalog),
        is_plan_of(second, max_height, policy, lookahead, catalog),
    ensures
        first is Range ==> first == second,
        first matches Plan::Keys(a) ==> second matches Plan::Keys(b) && a.floor == b.floor
            && a.keys@ == b.keys@,
{
    match (first, second) {
        (Plan::Keys(a), Plan::Keys(b)) => {
            lemma_stable_sort_unique(a.keys@, b.keys@, at_or_above(catalog, a.floor as nat));
        },
        _ => {},
    }
}

} // verus!
