//! The local coverage scanner: which heights the block directory holds.
//!
//! The scanner is handed the listing of the directory and the time of the
//! scan. It keeps no state between scans: the directory is the truth. A
//! name counts for a network where it is well formed and its network is
//! that network, letter for letter; as no well-formed name has a `-` in its
//! network, nothing counts for a network with a `-` in its name.

use vstd::prelude::*;
use vstd::string::*;
use crate::codec::{parse_local, read_name};

verus! {

/// One file of the block directory, as the filesystem lists it: its name
/// and when it was created, in seconds since the epoch.
#[derive(Debug, Clone, PartialEq, Eq)]
pub struct DirEntry {
    pub name: String,
    pub created_at: u64,
}

/// What a scan of the block directory found: the greatest height present
/// (0 where no block is), and the age in seconds of the newest block file
/// (`None` where no block is).
#[derive(Debug, Clone, Copy, PartialEq, Eq)]
pub struct CoverageSnapshot {
    pub max_height: u32,
    pub newest_file_age: Option<u64>,
}

/// The height that a file name gives for a block of `network`; `None`
/// where the name is malformed or names a block of another network.
pub open spec fn height_in(name: Seq<char>, network: Seq<char>) -> Option<nat> {
    match parse_local(name) {
        Some(fields) => if fields.network == network {
            Some(fields.height)
        } else {
            None
        },
        None => None,
    }
}

/// Entry `i` of the listing is a block file of `network`.
pub open spec fn covers(entries: Seq<DirEntry>, network: Seq<char>, i: int) -> bool {
    0 <= i < entries.len() && height_in(entries[i].name@, network) is Some
}

/// The height of entry `i`, where it is a block file of `network`.
pub open spec fn height_at(entries: Seq<DirEntry>, network: Seq<char>, i: int) -> nat
    recommends
        covers(entries, network, i),
{
    height_in(entries[i].name@, network).unwrap()
}

/// No entry of the listing is a block file of `network`.
pub open spec fn covers_nothing(entries: Seq<DirEntry>, network: Seq<char>) -> bool {
    forall|i: int| !covers(entries, network, i)
}

/// Entry `at` is the newest block file of `network`: none is higher, and
/// those listed after it are lower.
pub open spec fn is_newest(entries: Seq<DirEntry>, network: Seq<char>, at: int) -> bool {
    &&& covers(entries, network, at)
    &&& forall|j: int| #[trigger]
        covers(entries, network, j) ==> height_at(entries, network, j) <= height_at(
            entries,
            network,
            at,
        )
    &&& forall|j: int|
        at < j && #[trigger] covers(entries, network, j) ==> height_at(entries, network, j)
            < height_at(entries, network, at)
}

/// `max` is the greatest height among the block files of `network`, or 0
/// where there is none.
pub open spec fn is_max_height(entries: Seq<DirEntry>, network: Seq<char>, max: nat) -> bool {
    &&& forall|j: int| #[trigger]
        covers(entries, network, j) ==> height_at(entries, network, j) <= max
    &&& max == 0 || exists|j: int| #[trigger]
        covers(entries, network, j) && height_at(entries, network, j) == max
}

/// The seconds from `created_at` to `now`; 0 where `created_at` is the
/// later of the two.
pub open spec fn age_between(created_at: nat, now: nat) -> nat {
    if now >= created_at {
        (now - created_at) as nat
    } else {
        0
    }
}

/// `snapshot` is what a scan of the listing for `network` finds at the
/// time `now`: the greatest height, and the age of the newest block file.
pub open spec fn is_coverage_of(
    snapshot: CoverageSnapshot,
    entries: Seq<DirEntry>,
    network: Seq<char>,
    now: nat,
) -> bool {
    &&& is_max_height(entries, network, snapshot.max_height as nat)
    &&& match snapshot.newest_file_age {
        Some(age) => exists|at: int| #[trigger]
            is_newest(entries, network, at) && age == age_between(
                entries[at].created_at as nat,
                now,
            ),
        None => covers_nothing(entries, network),
    }
}

/// The listing has one greatest height only.
pub proof fn lemma_max_height_unique(
    entries: Seq<DirEntry>,
    network: Seq<char>,
    first: nat,
    second: nat,
)
    requires
        is_max_height(entries, network, first),
        is_max_height(entries, network, second),
    ensures
        first == second,
{
}

/// The listing has one newest block file only.
pub proof fn lemma_newest_unique(
    entries: Seq<DirEntry>,
    network: Seq<char>,
    first: int,
    second: int,
)
    requires
        is_newest(entries, network, first),
        is_newest(entries, network, second),
    ensures
        first == second,
{
}

/// A listing has one coverage only at a given time.
pub proof fn lemma_coverage_unique(
    first: CoverageSnapshot,
    second: CoverageSnapshot,
    entries: Seq<DirEntry>,
    network: Seq<char>,
    now: nat,
)
    requires
        is_coverage_of(first, entries, network, now),
        is_coverage_of(second, entries, network, now),
    ensures
        first == second,
{
    lemma_max_height_unique(
        entries,
        network,
        first.max_height as nat,
        second.max_height as nat,
    );
    if first.newest_file_age is Some && second.newest_file_age is Some {
        let a = choose|at: int| #[trigger]
            is_newest(entries, network, at) && first.newest_file_age.unwrap() == age_between(
                entries[at].created_at as nat,
                now,
            );
        let b = choose|at: int| #[trigger]
            is_newest(entries, network, at) && second.newest_file_age.unwrap() == age_between(
                entries[at].created_at as nat,
                now,
            );
        lemma_newest_unique(entries, network, a, b);
    } else if first.newest_file_age is Some {
        let a = choose|at: int| #[trigger]
            is_newest(entries, network, at) && first.newest_file_age.unwrap() == age_between(
                entries[at].created_at as nat,
                now,
            );
        assert(covers(entries, network, a));
    } else if second.newest_file_age is Some {
        let b = choose|at: int| #[trigger]
            is_newest(entries, network, at) && second.newest_file_age.unwrap() == age_between(
                entries[at].created_at as nat,
                now,
            );
        assert(covers(entries, network, b));
    }
}

/// The height of the newest block file is the greatest height.
pub proof fn lemma_newest_is_max(entries: Seq<DirEntry>, network: Seq<char>, at: int)
    requires
        is_newest(entries, network, at),
    ensures
        is_max_height(entries, network, height_at(entries, network, at)),
{
}

/// Finds the newest block file of `network` in the listing: its place and
/// its height. `None` where the listing holds no block file of `network`.
pub fn find_newest(entries: &Vec<DirEntry>, network: &str) -> (r: Option<(usize, u32)>)
    ensures
        match r {
            Some((at, height)) => is_newest(entries@, network@, at as int) && height == height_at(
                entries@,
                network@,
                at as int,
            ),
            None => covers_nothing(entries@, network@),
        },
{
    let wanted = String::from_str(network);
    let mut best: Option<(usize, u32)> = None;
    let mut i: usize = 0;
    while i < entries.len()
        invariant
            i <= entries.len(),
            wanted@ == network@,
            match best {
                Some((at, height)) => {
                    &&& at < i
                    &&& covers(entries@, network@, at as int)
                    &&& height == height_at(entries@, network@, at as int)
                    &&& forall|j: int|
                        j < i && #[trigger] covers(entries@, network@, j) ==> height_at(
                            entries@,
                            network@,
                            j,
                        ) <= height
                    &&& forall|j: int|
                        at < j < i && #[trigger] covers(entries@, network@, j) ==> height_at(
                            entries@,
                            network@,
                            j,
                        ) < height
                },
                None => forall|j: int| j < i ==> !covers(entries@, network@, j),
            },
        decreases entries.len() - i,
    {
        match read_name(entries[i].name.as_str()) {
            Some((found, height, _)) => {
                if found == wanted {
                    let higher = match best {
                        Some((_, top)) => height >= top,
                        None => true,
                    };
                    if higher {
                        best = Some((i, height));
                    }
                }
            },
            None => {},
        }
        i = i + 1;
    }
    best
}

/// Scans the listing of the block directory for the block files of
/// `network`, at the time `now` in seconds since the epoch.
///
/// Names that are malformed or of another network are passed over.
pub fn scan(entries: &Vec<DirEntry>, network: &str, now: u64) -> (r: CoverageSnapshot)
    ensures
        is_coverage_of(r, entries@, network@, now as nat),
{
    match find_newest(entries, network) {
        Some((at, height)) => {
            let created_at = entries[at].created_at;
            let age = if now >= created_at {
                now - created_at
            } else {
                0
            };
            proof {
                lemma_newest_is_max(entries@, network@, at as int);
            }
            CoverageSnapshot { max_height: height, newest_file_age: Some(age) }
        },
        None => CoverageSnapshot { max_height: 0, newest_file_age: None },
    }
}

/// The age in seconds, at the time `now`, of the newest block file of
/// `network` in the listing; `None` where there is none.
pub fn newest_file_age(entries: &Vec<DirEntry>, network: &str, now: u64) -> (r: Option<u64>)
    ensures
        match r {
            Some(age) => exists|at: int| #[trigger]
                is_newest(entries@, network@, at) && age == age_between(
                    entries@[at].created_at as nat,
                    now as nat,
                ),
            None => covers_nothing(entries@, network@),
        },
{
    scan(entries, network, now).newest_file_age
}

} // verus!
