//! The options of the four ways to run a synchronisation, and what each
//! way makes of them.
//!
//! Paths are handed through as text: the library never looks into one.

use vstd::prelude::*;
use crate::codec::{catalog_pattern, format_catalog_pattern};
use crate::driver::{Lookahead, RunMode};
use crate::error::SyncError;
use crate::planner::{HeightRange, SyncPolicy};
use crate::query::{materialize_range, range_patterns, QueryBatch};

verus! {

/// The options for fetching every block of a network.
#[derive(Debug, Clone, PartialEq, Eq)]
pub struct AllArgs {
    /// Directory to put the blocks into.
    pub blocks_dir: String,
    /// Name of the network.
    pub network: String,
    /// Name of the bucket.
    pub bucket: String,
}

/// The options for fetching the blocks of a run of heights.
#[derive(Debug, Clone, PartialEq, Eq)]
pub struct ContiguousArgs {
    /// File to write the queries to.
    pub query_file: String,
    /// Directory to put the blocks into.
    pub blocks_dir: String,
    /// The first height to fetch.
    pub start: usize,
    /// How many heights to fetch.
    pub num: usize,
    /// Name of the network.
    pub network: String,
    /// Name of the bucket.
    pub bucket: String,
}

/// The options for fetching new blocks again and again.
#[derive(Debug, Clone, PartialEq, Eq)]
pub struct LoopArgs {
    /// Directory to put the blocks into.
    pub blocks_dir: String,
    /// How often to look for new blocks, in seconds.
    pub frequency: u64,
    /// File to write the queries to.
    pub query_file: String,
    /// Name of the network.
    pub network: String,
    /// Name of the bucket.
    pub bucket: String,
    /// How many heights below the greatest local one to query each time.
    pub buffer: u32,
    /// How many heights above the greatest local one to query each time
    /// while catching up.
    pub additional: u32,
}

/// The options for fetching the blocks that the block directory lacks.
#[derive(Debug, Clone, PartialEq, Eq)]
pub struct NewArgs {
    /// File to write the queries to.
    pub query_file: String,
    /// Directory to put the blocks into.
    pub blocks_dir: String,
    /// File to write the listing of the remote store to.
    pub ls_file: String,
    /// How many heights below the greatest local one to query.
    pub buffer: u32,
    /// Fetch every block at or above this height.
    pub start: Option<u32>,
    /// Fetch blocks strictly above the greatest local height only.
    pub strict: bool,
    /// Name of the bucket.
    pub bucket: String,
    /// Name of the network.
    pub network: String,
    /// Do without a listing of the remote store.
    pub skip_ls_file: bool,
}

/// The heights from `start` on, `num` of them.
pub open spec fn contiguous_range(start: nat, num: nat) -> HeightRange {
    if num == 0 {
        HeightRange { start: 1, end: 0 }
    } else {
        HeightRange { start: start as u64, end: (start + num - 1) as u64 }
    }
}

/// The policy that the options ask for. A listing of the remote store is
/// gone by unless the options do without one or `files_present` tells
/// that one was made before.
pub open spec fn chosen_policy(args: NewArgs, files_present: bool) -> SyncPolicy {
    if args.skip_ls_file || files_present {
        if args.strict {
            SyncPolicy::StrictForward
        } else {
            match args.start {
                Some(height) => SyncPolicy::ExplicitStart { height },
                None => SyncPolicy::Buffered { buffer: args.buffer },
            }
        }
    } else {
        SyncPolicy::FullRemoteCatalog
    }
}

impl AllArgs {
    /// The one pattern to ask the copier for: every object of the network.
    pub fn query(&self) -> (r: String)
        ensures
            r@ == catalog_pattern(self.bucket@, self.network@),
    {
        format_catalog_pattern(self.bucket.as_str(), self.network.as_str())
    }
}

impl ContiguousArgs {
    /// The last height to fetch is a number that the machine can hold:
    /// the range can be written down.
    pub open spec fn fits(&self) -> bool {
        self.num > 0 ==> self.start + self.num - 1 <= u64::MAX
    }

    /// Whether the range can be written down.
    pub fn can_range(&self) -> (r: bool)
        ensures
            r == self.fits(),
    {
        self.num == 0 || self.num as u64 - 1 <= u64::MAX - self.start as u64
    }

    /// The heights to fetch: `num` of them from `start` on.
    pub fn range(&self) -> (r: HeightRange)
        requires
            self.fits(),
        ensures
            r == contiguous_range(self.start as nat, self.num as nat),
            r.count() == self.num,
            forall|height: nat| r.contains(height) <==> self.start <= height < self.start + self.num,
    {
        if self.num == 0 {
            HeightRange { start: 1, end: 0 }
        } else {
            HeightRange { start: self.start as u64, end: self.start as u64 + (self.num as u64 - 1) }
        }
    }

    /// The batch to hand the copier: one pattern for each height to fetch,
    /// lowest first.
    pub fn batch(&self) -> (r: QueryBatch)
        requires
            self.fits(),
        ensures
            r@ == range_patterns(
                self.bucket@,
                self.network@,
                contiguous_range(self.start as nat, self.num as nat),
            ),
            r@.len() == self.num,
    {
        let range = self.range();
        materialize_range(self.bucket.as_str(), self.network.as_str(), &range)
    }
}

impl LoopArgs {
    /// The policy of every cycle: buffered by `buffer`.
    pub fn policy(&self) -> (r: SyncPolicy)
        ensures
            r == (SyncPolicy::Buffered { buffer: self.buffer }),
    {
        SyncPolicy::Buffered { buffer: self.buffer }
    }

    /// How the run goes on: continuously, polling every `frequency`
    /// seconds, with `additional` heights of lookahead while catching up.
    pub fn mode(&self) -> (r: RunMode)
        ensures
            r == (RunMode::Continuous {
                poll_interval: self.frequency,
                catch_up_lookahead: self.additional,
            }),
    {
        RunMode::Continuous { poll_interval: self.frequency, catch_up_lookahead: self.additional }
    }
}

impl NewArgs {
    /// The options ask for a strictly forward policy and for an explicit
    /// start at once.
    pub open spec fn conflicting(&self) -> bool {
        self.strict && self.start is Some
    }

    /// Checks the options against one another, before anything is done.
    ///
    /// Options that ask for a strictly forward policy and an explicit start
    /// at once are a `PolicyConflict`; all others pass.
    pub fn validate(&self) -> (r: Result<(), SyncError>)
        ensures
            r is Err <==> self.conflicting(),
            r matches Err(e) ==> e == SyncError::PolicyConflict,
    {
        if self.strict && self.start.is_some() {
            Err(SyncError::PolicyConflict)
        } else {
            Ok(())
        }
    }

    /// The policy of the one cycle.
    ///
    /// `files_present` tells whether a listing of the remote store and a
    /// query file are there from an earlier run. Options that ask for a
    /// strictly forward policy and an explicit start at once are a
    /// `PolicyConflict`, whatever else they hold.
    pub fn policy(&self, files_present: bool) -> (r: Result<SyncPolicy, SyncError>)
        ensures
            r is Err <==> self.conflicting(),
            r matches Err(e) ==> e == SyncError::PolicyConflict,
            r matches Ok(policy) ==> policy == chosen_policy(*self, files_present),
    {
        if self.strict && self.start.is_some() {
            return Err(SyncError::PolicyConflict);
        }
        if self.skip_ls_file || files_present {
            if self.strict {
                Ok(SyncPolicy::StrictForward)
            } else {
                match self.start {
                    Some(height) => Ok(SyncPolicy::ExplicitStart { height }),
                    None => Ok(SyncPolicy::Buffered { buffer: self.buffer }),
                }
            }
        } else {
            Ok(SyncPolicy::FullRemoteCatalog)
        }
    }

    /// How the run goes on: one cycle, its lookahead by the time gone by
    /// since the newest block file was created, or since the remote store
    /// was listed `listing_age` seconds ago where there is no block file.
    pub fn mode(&self, listing_age: u64) -> (r: RunMode)
        ensures
            r == (RunMode::SingleRun { lookahead: Lookahead::Elapsed { listing_age } }),
    {
        RunMode::SingleRun { lookahead: Lookahead::Elapsed { listing_age } }
    }
}

} // verus!
