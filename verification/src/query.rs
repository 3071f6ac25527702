//! The query materializer: a plan written out as the batch of patterns and
//! keys that the copier is handed, one to a line.

use vstd::prelude::*;
use vstd::string::*;
use crate::codec::{format_remote_pattern, key_text, remote_pattern, render_key, BlockKey};
use crate::planner::{at_or_above, ExplicitKeySet, HeightRange, Plan};
use crate::text::{free_of, lemma_split_lines_from, split_lines, texts};

verus! {

/// The batch of one cycle: patterns or keys, in the order in which the
/// copier is to take them.
#[derive(Debug, Clone, PartialEq, Eq)]
pub struct QueryBatch {
    pub lines: Vec<String>,
}

impl View for QueryBatch {
    type V = Seq<Seq<char>>;

    open spec fn view(&self) -> Seq<Seq<char>> {
        texts(self.lines@)
    }
}

/// The patterns of a range: one for each height, lowest first.
pub open spec fn range_patterns(bucket: Seq<char>, network: Seq<char>, range: HeightRange) -> Seq<
    Seq<char>,
> {
    Seq::new(range.count(), |i: int| remote_pattern(bucket, network, (range.start + i) as nat))
}

/// The texts of a sequence of keys, in their order.
pub open spec fn key_texts(keys: Seq<BlockKey>) -> Seq<Seq<char>> {
    Seq::new(keys.len(), |i: int| key_text(keys[i]@))
}

/// The text of a batch: each line followed by a line feed.
pub open spec fn batch_text(lines: Seq<Seq<char>>) -> Seq<char>
    decreases lines.len(),
{
    if lines.len() == 0 {
        Seq::empty()
    } else {
        batch_text(lines.drop_last()) + lines.last() + seq!['\n']
    }
}

/// Writes out a range of heights: for every height of the range one
/// pattern that matches every hash at that height, lowest height first.
pub fn materialize_range(bucket: &str, network: &str, range: &HeightRange) -> (batch: QueryBatch)
    ensures
        batch@ == range_patterns(bucket@, network@, *range),
{
    let mut lines: Vec<String> = Vec::new();
    if range.start > range.end {
        assert(texts(lines@) =~= range_patterns(bucket@, network@, *range));
        return QueryBatch { lines };
    }
    let mut height: u64 = range.start;
    loop
        invariant_except_break
            range.start <= height <= range.end,
            lines@.len() == height - range.start,
            forall|i: int|
                0 <= i < lines@.len() ==> (#[trigger] lines@[i])@ == remote_pattern(
                    bucket@,
                    network@,
                    (range.start + i) as nat,
                ),
        ensures
            texts(lines@) == range_patterns(bucket@, network@, *range),
        decreases range.end - height,
    {
        lines.push(format_remote_pattern(bucket, network, height));
        if height == range.end {
            assert(texts(lines@) =~= range_patterns(bucket@, network@, *range));
            break ;
        }
        height = height + 1;
    }
    QueryBatch { lines }
}

/// Writes out a set of keys: for every key at or above the floor of the set
/// its text, in the order of the set. Every key of a well-formed set is
/// written.
pub fn materialize_keys(set: &ExplicitKeySet) -> (batch: QueryBatch)
    ensures
        batch@ == key_texts(at_or_above(set.keys@, set.floor as nat)),
        set.wf() ==> batch@ == key_texts(set.keys@),
{
    let ghost pred = |key: BlockKey| key.height >= set.floor as nat;
    let mut lines: Vec<String> = Vec::new();
    let mut i: usize = 0;
    proof {
        assert(set.keys@.take(0) =~= Seq::<BlockKey>::empty());
        reveal(Seq::filter);
        assert(texts(lines@) =~= key_texts(set.keys@.take(0).filter(pred)));
    }
    while i < set.keys.len()
        invariant
            i <= set.keys.len(),
            pred == (|key: BlockKey| key.height >= set.floor as nat),
            texts(lines@) == key_texts(set.keys@.take(i as int).filter(pred)),
            set.wf() ==> set.keys@.take(i as int).filter(pred) == set.keys@.take(i as int),
        decreases set.keys.len() - i,
    {
        let ghost before = set.keys@.take(i as int);
        let ghost key = set.keys@[i as int];
        proof {
            assert(set.keys@.take(i + 1) =~= before.push(key));
            before.lemma_filter_push(key, pred);
        }
        if set.keys[i].height >= set.floor {
            let ghost old_lines = lines@;
            lines.push(render_key(&set.keys[i]));
            proof {
                let kept = before.filter(pred);
                assert(texts(old_lines).len() == old_lines.len());
                assert(key_texts(kept).len() == kept.len());
                assert forall|k: int| 0 <= k < lines@.len() implies texts(lines@)[k] == key_texts(
                    kept.push(key),
                )[k] by {
                    if k < old_lines.len() {
                        assert(texts(old_lines)[k] == key_texts(kept)[k]);
                    }
                }
                assert(texts(lines@) =~= key_texts(kept.push(key)));
            }
        }
        i = i + 1;
    }
    assert(set.keys@.take(i as int) =~= set.keys@);
    QueryBatch { lines }
}

/// The lines of the batch of a plan: the patterns of its range, or the
/// texts of its keys at or above its floor.
pub open spec fn plan_lines(plan: Plan, bucket: Seq<char>, network: Seq<char>) -> Seq<Seq<char>> {
    match plan {
        Plan::Range(range) => range_patterns(bucket, network, range),
        Plan::Keys(set) => key_texts(at_or_above(set.keys@, set.floor as nat)),
    }
}

/// Writes out a plan as the batch of one cycle.
pub fn materialize(plan: &Plan, bucket: &str, network: &str) -> (batch: QueryBatch)
    ensures
        batch@ == plan_lines(*plan, bucket@, network@),
        plan matches Plan::Keys(chosen) ==> (chosen.wf() ==> batch@ == key_texts(chosen.keys@)),
{
    match plan {
        Plan::Range(range) => materialize_range(bucket, network, range),
        Plan::Keys(set) => materialize_keys(set),
    }
}

impl QueryBatch {
    /// The batch as the text that the copier reads: every line followed by
    /// a line feed, in order.
    pub fn text(&self) -> (r: String)
        ensures
            r@ == batch_text(self@),
    {
        let mut r = String::new();
        let mut i: usize = 0;
        proof {
            reveal_strlit("\n");
            assert(self@.take(0) =~= Seq::<Seq<char>>::empty());
        }
        while i < self.lines.len()
            invariant
                i <= self.lines.len(),
                r@ == batch_text(self@.take(i as int)),
                "\n"@ == seq!['\n'],
            decreases self.lines.len() - i,
        {
            proof {
                let next = self@.take(i + 1);
                assert(next.drop_last() =~= self@.take(i as int));
                assert(next.last() == self.lines@[i as int]@);
            }
            r.append(self.lines[i].as_str());
            r.append("\n");
            i = i + 1;
        }
        assert(self@.take(i as int) =~= self@);
        r
    }
}

/// The text of a batch begins with its first line and a line feed, and
/// goes on with the text of the other lines.
pub proof fn lemma_batch_text_first(line: Seq<char>, rest: Seq<Seq<char>>)
    ensures
        batch_text(seq![line] + rest) == line + seq!['\n'] + batch_text(rest),
    decreases rest.len(),
{
    let all = seq![line] + rest;
    if rest.len() == 0 {
        assert(all.drop_last() =~= Seq::<Seq<char>>::empty());
        assert(batch_text(all.drop_last()) =~= Seq::<char>::empty());
        assert(batch_text(all) =~= line + seq!['\n'] + batch_text(rest));
    } else {
        lemma_batch_text_first(line, rest.drop_last());
        assert(all.drop_last() =~= seq![line] + rest.drop_last());
        assert(all.last() == rest.last());
        assert(batch_text(all) =~= line + seq!['\n'] + batch_text(rest));
    }
}

/// The copier reads back from the text of a batch the lines of the batch,
/// in their order, where no line holds a line feed: the lines of the text
/// are those of the batch, and an empty one behind the last line feed.
pub proof fn lemma_batch_text_lines(lines: Seq<Seq<char>>)
    requires
        forall|i: int| 0 <= i < lines.len() ==> free_of(#[trigger] lines[i], '\n'),
    ensures
        split_lines(batch_text(lines)) == lines.push(Seq::<char>::empty()),
    decreases lines.len(),
{
    if lines.len() == 0 {
        let text = batch_text(lines);
        assert(text =~= Seq::<char>::empty());
        assert(split_lines(text) =~= lines.push(Seq::<char>::empty()));
    } else {
        let line = lines[0];
        let rest = lines.subrange(1, lines.len() as int);
        assert(lines =~= seq![line] + rest);
        lemma_batch_text_first(line, rest);
        assert forall|i: int| 0 <= i < rest.len() implies free_of(#[trigger] rest[i], '\n') by {
            assert(rest[i] == lines[i + 1]);
        }
        lemma_batch_text_lines(rest);
        let text = batch_text(lines);
        let end = line.len() as int;
        assert(text =~= line + seq!['\n'] + batch_text(rest));
        assert forall|k: int| 0 <= k < end implies #[trigger] text[k] != '\n' by {
            assert(text[k] == line[k]);
        }
        assert(text[end] == '\n');
        lemma_split_lines_from(text, 0, end);
        assert(text.subrange(0, text.len() as int) =~= text);
        assert(text.subrange(0, end) =~= line);
        assert(text.subrange(end + 1, text.len() as int) =~= batch_text(rest));
        assert(seq![line] + rest.push(Seq::<char>::empty()) =~= lines.push(Seq::<char>::empty()));
    }
}

/// The patterns of a range differ from one another: no height is asked
/// for twice.
pub proof fn lemma_range_patterns_differ(
    bucket: Seq<char>,
    network: Seq<char>,
    range: HeightRange,
    i: int,
    j: int,
)
    requires
        0 <= i < j < range.count(),
    ensures
        range_patterns(bucket, network, range)[i] != range_patterns(bucket, network, range)[j],
{
    crate::codec::lemma_patterns_differ(
        bucket,
        network,
        (range.start + i) as nat,
        (range.start + j) as nat,
    );
}

/// The copier reads back from the text of the batch of a range the
/// patterns of the range, lowest height first, where bucket and network
/// hold no line feed.
pub proof fn lemma_range_batch_lines(bucket: Seq<char>, network: Seq<char>, range: HeightRange)
    requires
        free_of(bucket, '\n'),
        free_of(network, '\n'),
    ensures
        split_lines(batch_text(range_patterns(bucket, network, range))) == range_patterns(
            bucket,
            network,
            range,
        ).push(Seq::<char>::empty()),
{
    let lines = range_patterns(bucket, network, range);
    assert forall|i: int| 0 <= i < lines.len() implies free_of(#[trigger] lines[i], '\n') by {
        crate::codec::lemma_pattern_is_one_line(bucket, network, (range.start + i) as nat);
    }
    lemma_batch_text_lines(lines);
}

} // verus!
