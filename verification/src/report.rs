//! The copier's report: what the copier wrote while it worked, read line
//! by line for the two things that the driver goes by.

use vstd::prelude::*;
use vstd::string::*;
use vstd::utf8::{decode_utf8, valid_utf8};
use crate::error::SyncError;
use crate::text::{
    chars_of, has_prefix, holds_at, line_bounds, split_lines, string_of, texts,
};

verus! {

/// What one cycle brought: the lines of the report that tell of an object
/// copied, and whether the remote store said of some pattern that nothing
/// matched it.
#[derive(Debug, Clone, PartialEq, Eq)]
pub struct CycleResult {
    pub copied_keys: Vec<String>,
    pub remote_said_not_found: bool,
}

/// What one cycle brought, as plain values.
pub ghost struct CycleOutcome {
    pub copied_keys: Seq<Seq<char>>,
    pub remote_said_not_found: bool,
}

impl View for CycleResult {
    type V = CycleOutcome;

    open spec fn view(&self) -> CycleOutcome {
        CycleOutcome {
            copied_keys: texts(self.copied_keys@),
            remote_said_not_found: self.remote_said_not_found,
        }
    }
}

/// How a run of the copier ended, as the caller saw it.
#[derive(Debug, Clone, PartialEq, Eq)]
pub enum CopierOutput {
    /// The copier could not be started.
    NotStarted,
    /// The copier ran and wrote these bytes as its report.
    Finished { report: Vec<u8> },
}

/// A line that begins with this tells of an object copied.
pub open spec fn copied_marker() -> Seq<char> {
    seq!['C', 'o', 'p', 'y', 'i', 'n', 'g']
}

/// A line that begins with this tells that nothing matched a pattern.
pub open spec fn not_found_marker() -> Seq<char> {
    seq!['C', 'o', 'm', 'm', 'a', 'n', 'd', 'E', 'x', 'c', 'e', 'p', 't', 'i', 'o', 'n']
}

/// The lines that tell of an object copied, in their order.
pub open spec fn copied_lines(lines: Seq<Seq<char>>) -> Seq<Seq<char>> {
    lines.filter(|line: Seq<char>| has_prefix(line, copied_marker()))
}

/// Some line tells that nothing matched a pattern.
pub open spec fn says_not_found(lines: Seq<Seq<char>>) -> bool {
    exists|i: int| 0 <= i < lines.len() && has_prefix(#[trigger] lines[i], not_found_marker())
}

/// What a report says of its cycle.
pub open spec fn report_outcome(report: Seq<char>) -> CycleOutcome {
    CycleOutcome {
        copied_keys: copied_lines(split_lines(report)),
        remote_said_not_found: says_not_found(split_lines(report)),
    }
}

/// Reads the copier's report.
///
/// The lines that begin with `Copying` are kept, in order and whole; the
/// result says that the remote store found nothing where some line begins
/// with `CommandException`.
pub fn read_report(report: &str) -> (r: CycleResult)
    ensures
        r@ == report_outcome(report@),
{
    proof {
        reveal_strlit("Copying");
        reveal_strlit("CommandException");
    }
    let text = chars_of(report);
    let copied = chars_of("Copying");
    let missing = chars_of("CommandException");
    assert(copied@ =~= copied_marker());
    assert(missing@ =~= not_found_marker());
    let bounds = line_bounds(&text);
    let ghost lines = split_lines(text@);
    let ghost keep = |line: Seq<char>| has_prefix(line, copied_marker());
    let mut copied_keys: Vec<String> = Vec::new();
    let mut remote_said_not_found = false;
    let mut i: usize = 0;
    proof {
        assert(lines.take(0) =~= Seq::<Seq<char>>::empty());
        reveal(Seq::filter);
        assert(texts(copied_keys@) =~= lines.take(0).filter(keep));
    }
    while i < bounds.len()
        invariant
            i <= bounds.len(),
            lines == split_lines(text@),
            bounds@.len() == lines.len(),
            forall|k: int|
                0 <= k < bounds@.len() ==> (#[trigger] bounds@[k]).0 <= bounds@[k].1 <= text.len(),
            forall|k: int|
                0 <= k < bounds@.len() ==> lines[k] == text@.subrange(
                    (#[trigger] bounds@[k]).0 as int,
                    bounds@[k].1 as int,
                ),
            copied@ == copied_marker(),
            missing@ == not_found_marker(),
            keep == (|line: Seq<char>| has_prefix(line, copied_marker())),
            texts(copied_keys@) == lines.take(i as int).filter(keep),
            remote_said_not_found == says_not_found(lines.take(i as int)),
        decreases bounds.len() - i,
    {
        let (start, end) = bounds[i];
        let ghost line = lines[i as int];
        let ghost before = lines.take(i as int);
        let ghost after = lines.take(i + 1);
        proof {
            assert(after =~= before.push(line));
            before.lemma_filter_push(line, keep);
        }
        let is_copied = end - start >= copied.len() && holds_at(&text, start, &copied);
        proof {
            if end - start >= copied@.len() {
                assert(line.subrange(0, copied@.len() as int) =~= text@.subrange(
                    start as int,
                    start + copied@.len(),
                ));
            }
            assert(is_copied == has_prefix(line, copied_marker()));
        }
        if is_copied {
            let ghost old_keys = copied_keys@;
            copied_keys.push(string_of(&text, start, end));
            proof {
                assert(texts(old_keys).len() == old_keys.len());
                assert forall|k: int| 0 <= k < copied_keys@.len() implies texts(copied_keys@)[k]
                    == before.filter(keep).push(line)[k] by {
                    if k < old_keys.len() {
                        assert(texts(old_keys)[k] == before.filter(keep)[k]);
                    }
                }
                assert(texts(copied_keys@) =~= before.filter(keep).push(line));
            }
        }
        let found = end - start >= missing.len() && holds_at(&text, start, &missing);
        proof {
            if end - start >= missing@.len() {
                assert(line.subrange(0, missing@.len() as int) =~= text@.subrange(
                    start as int,
                    start + missing@.len(),
                ));
            }
            assert(found == has_prefix(line, not_found_marker()));
            assert(says_not_found(after) == (says_not_found(before) || found)) by {
                if says_not_found(before) {
                    let k = choose|k: int|
                        0 <= k < before.len() && has_prefix(#[trigger] before[k], not_found_marker());
                    assert(after[k] == before[k]);
                }
                if found {
                    assert(after[before.len() as int] == line);
                }
                if says_not_found(after) {
                    let k = choose|k: int|
                        0 <= k < after.len() && has_prefix(#[trigger] after[k], not_found_marker());
                    if k < before.len() {
                        assert(after[k] == before[k]);
                    }
                }
            }
        }
        if found {
            remote_said_not_found = true;
        }
        i = i + 1;
    }
    assert(lines.take(i as int) =~= lines);
    CycleResult { copied_keys, remote_said_not_found }
}

/// The bytes as text, where they are text.
///
/// This calls `String::from_utf8` of the standard library, and is taken on
/// trust: it returns the text that the bytes encode where they are valid
/// UTF-8, and nothing where they are not.
#[verifier::external_body]
fn decode_report(bytes: Vec<u8>) -> (r: Option<String>)
    ensures
        r is Some <==> valid_utf8(bytes@),
        r matches Some(text) ==> text@ == decode_utf8(bytes@),
{
    String::from_utf8(bytes).ok()
}

/// Reads what a run of the copier left.
///
/// A copier that could not be started, and a report that is no valid
/// UTF-8, are a `CopierInvocationFailure`. Every other report is read as
/// `read_report` reads its text.
pub fn read_copier_output(output: CopierOutput) -> (r: Result<CycleResult, SyncError>)
    ensures
        match output {
            CopierOutput::NotStarted => r == Err::<CycleResult, SyncError>(
                SyncError::CopierInvocationFailure,
            ),
            CopierOutput::Finished { report } => if valid_utf8(report@) {
                r matches Ok(result) && result@ == report_outcome(decode_utf8(report@))
            } else {
                r == Err::<CycleResult, SyncError>(SyncError::CopierInvocationFailure)
            },
        },
{
    match output {
        CopierOutput::NotStarted => Err(SyncError::CopierInvocationFailure),
        CopierOutput::Finished { report } => match decode_report(report) {
            Some(text) => Ok(read_report(text.as_str())),
            None => Err(SyncError::CopierInvocationFailure),
        },
    }
}

} // verus!
