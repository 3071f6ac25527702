//! Character sequences: the few operations on text that the rest of the
//! library is built from.

use vstd::prelude::*;
use vstd::string::*;

verus! {

/// The character `c` occurs nowhere in `s`.
pub open spec fn free_of(s: Seq<char>, c: char) -> bool {
    forall|i: int| 0 <= i < s.len() ==> #[trigger] s[i] != c
}

/// The first position at or after `from` where `s` holds `c`, or the
/// length of `s` where there is none.
pub open spec fn first_index_of(s: Seq<char>, c: char, from: int) -> int
    decreases s.len() - from,
{
    if from < 0 || from >= s.len() {
        s.len() as int
    } else if s[from] == c {
        from
    } else {
        first_index_of(s, c, from + 1)
    }
}

/// `s` begins with `prefix`.
pub open spec fn has_prefix(s: Seq<char>, prefix: Seq<char>) -> bool {
    prefix.len() <= s.len() && s.subrange(0, prefix.len() as int) == prefix
}

/// `s` ends with `suffix`.
pub open spec fn has_suffix(s: Seq<char>, suffix: Seq<char>) -> bool {
    suffix.len() <= s.len() && s.subrange(s.len() - suffix.len(), s.len() as int) == suffix
}

/// The texts of a sequence of strings.
pub open spec fn texts(lines: Seq<String>) -> Seq<Seq<char>> {
    Seq::new(lines.len(), |i: int| lines[i]@)
}

/// The lines of a text: the stretches between its line feeds. A text with
/// `n` line feeds has `n + 1` lines, the last of them what follows the
/// last line feed.
pub open spec fn split_lines(s: Seq<char>) -> Seq<Seq<char>>
    decreases s.len(),
{
    let i = first_index_of(s, '\n', 0);
    if 0 <= i < s.len() {
        seq![s.subrange(0, i)] + split_lines(s.subrange(i + 1, s.len() as int))
    } else {
        seq![s]
    }
}

/// `first_index_of` finds `to` where `c` stands at `to` and nowhere from
/// `from` up to it, and the length where `c` stands nowhere from `from` on.
pub proof fn lemma_first_index_of(s: Seq<char>, c: char, from: int, to: int)
    requires
        0 <= from <= to <= s.len(),
        forall|k: int| from <= k < to ==> #[trigger] s[k] != c,
        to < s.len() ==> s[to] == c,
    ensures
        first_index_of(s, c, from) == to,
    decreases to - from,
{
    if from < to {
        lemma_first_index_of(s, c, from + 1, to);
    }
}

/// What `first_index_of` returns lies between `from` and the length; `c`
/// stands there unless it is the length, and nowhere between `from` and it.
pub proof fn lemma_first_index_of_bounds(s: Seq<char>, c: char, from: int)
    requires
        0 <= from <= s.len(),
    ensures
        from <= first_index_of(s, c, from) <= s.len(),
        first_index_of(s, c, from) < s.len() ==> s[first_index_of(s, c, from)] == c,
        forall|k: int| from <= k < first_index_of(s, c, from) ==> #[trigger] s[k] != c,
    decreases s.len() - from,
{
    if from < s.len() && s[from] != c {
        lemma_first_index_of_bounds(s, c, from + 1);
    }
}

/// The lines of a text from `start` on are the line that ends at the next
/// line feed and the lines of what follows it; where no line feed follows,
/// the rest of the text is the one line.
pub proof fn lemma_split_lines_from(s: Seq<char>, start: int, end: int)
    requires
        0 <= start <= end <= s.len(),
        forall|k: int| start <= k < end ==> #[trigger] s[k] != '\n',
        end < s.len() ==> s[end] == '\n',
    ensures
        split_lines(s.subrange(start, s.len() as int)) == if end < s.len() {
            seq![s.subrange(start, end)] + split_lines(s.subrange(end + 1, s.len() as int))
        } else {
            seq![s.subrange(start, end)]
        },
{
    let rest = s.subrange(start, s.len() as int);
    assert forall|k: int| 0 <= k < end - start implies #[trigger] rest[k] != '\n' by {
        assert(rest[k] == s[start + k]);
    }
    lemma_first_index_of(rest, '\n', 0, end - start);
    assert(rest.subrange(0, end - start) =~= s.subrange(start, end));
    if end < s.len() {
        assert(rest.subrange(end - start + 1, rest.len() as int) =~= s.subrange(
            end + 1,
            s.len() as int,
        ));
    } else {
        assert(rest =~= s.subrange(start, end));
    }
}

/// The characters of `s`, in order.
pub fn chars_of(s: &str) -> (v: Vec<char>)
    ensures
        v@ == s@,
{
    let mut v: Vec<char> = Vec::new();
    let chars = s.chars();
    for c in it: chars
        invariant
            v@ == it.seq().take(it.index() as int),
            it.seq() == s@,
    {
        v.push(c);
    }
    v
}

/// The first position at or after `from` where `text` holds `c`, or the
/// length of `text` where there is none.
pub fn find_char(text: &Vec<char>, c: char, from: usize) -> (at: usize)
    requires
        from <= text.len(),
    ensures
        at == first_index_of(text@, c, from as int),
        from <= at <= text.len(),
        at < text.len() ==> text[at as int] == c,
        forall|k: int| from <= k < at ==> #[trigger] text[k] != c,
{
    let mut at: usize = from;
    while at < text.len() && text[at] != c
        invariant
            from <= at <= text.len(),
            forall|k: int| from <= k < at ==> #[trigger] text[k] != c,
        decreases text.len() - at,
    {
        at = at + 1;
    }
    proof {
        lemma_first_index_of(text@, c, from as int, at as int);
    }
    at
}

/// Whether `text` holds `c` nowhere from `from` up to `to`.
pub fn stretch_free_of(text: &Vec<char>, c: char, from: usize, to: usize) -> (r: bool)
    requires
        from <= to <= text.len(),
    ensures
        r == free_of(text@.subrange(from as int, to as int), c),
{
    let ghost stretch = text@.subrange(from as int, to as int);
    let mut i: usize = from;
    while i < to
        invariant
            from <= i <= to <= text.len(),
            stretch == text@.subrange(from as int, to as int),
            forall|k: int| 0 <= k < i - from ==> #[trigger] stretch[k] != c,
        decreases to - i,
    {
        if text[i] == c {
            assert(stretch[i - from] == c);
            return false;
        }
        i = i + 1;
    }
    true
}

/// Whether `text` holds the characters of `word` from `at` on.
pub fn holds_at(text: &Vec<char>, at: usize, word: &Vec<char>) -> (r: bool)
    requires
        at <= text.len(),
    ensures
        r == (at + word.len() <= text.len() && text@.subrange(
            at as int,
            at + word.len(),
        ) == word@),
{
    if word.len() > text.len() - at {
        return false;
    }
    let ghost stretch = text@.subrange(at as int, at + word.len());
    let mut i: usize = 0;
    while i < word.len()
        invariant
            i <= word.len(),
            at + word.len() <= text.len(),
            stretch == text@.subrange(at as int, at + word.len()),
            forall|k: int| 0 <= k < i ==> text[at + k] == word[k],
        decreases word.len() - i,
    {
        if text[at + i] != word[i] {
            assert(stretch[i as int] != word@[i as int]);
            return false;
        }
        i = i + 1;
    }
    assert(stretch =~= word@);
    true
}

/// Appends `c` to `s`.
///
/// This calls `String::push` of the standard library, and is taken on
/// trust: after the call the string holds what it held before and `c`
/// behind it.
#[verifier::external_body]
fn push_char(s: &mut String, c: char)
    ensures
        final(s)@ == old(s)@.push(c),
{
    s.push(c);
}

/// The characters of `text` from `from` up to `to`, as a string.
pub fn string_of(text: &Vec<char>, from: usize, to: usize) -> (s: String)
    requires
        from <= to <= text.len(),
    ensures
        s@ == text@.subrange(from as int, to as int),
{
    let mut s = String::new();
    let mut i: usize = from;
    assert(s@ =~= text@.subrange(from as int, from as int));
    while i < to
        invariant
            from <= i <= to <= text.len(),
            s@ == text@.subrange(from as int, i as int),
        decreases to - i,
    {
        push_char(&mut s, text[i]);
        assert(s@ =~= text@.subrange(from as int, i + 1));
        i = i + 1;
    }
    s
}

/// Where the lines of `text` begin and end: for each line, in order, the
/// place of its first character and the place behind its last.
pub fn line_bounds(text: &Vec<char>) -> (bounds: Vec<(usize, usize)>)
    ensures
        bounds@.len() == split_lines(text@).len(),
        forall|i: int|
            0 <= i < bounds@.len() ==> (#[trigger] bounds@[i]).0 <= bounds@[i].1 <= text.len(),
        forall|i: int|
            0 <= i < bounds@.len() ==> split_lines(text@)[i] == text@.subrange(
                (#[trigger] bounds@[i]).0 as int,
                bounds@[i].1 as int,
            ),
{
    let mut bounds: Vec<(usize, usize)> = Vec::new();
    let mut start: usize = 0;
    let ghost mut seen: Seq<Seq<char>> = Seq::empty();
    proof {
        assert(text@.subrange(0, text@.len() as int) =~= text@);
        assert(seen + split_lines(text@) =~= split_lines(text@));
    }
    loop
        invariant_except_break
            start <= text.len(),
            split_lines(text@) == seen + split_lines(text@.subrange(start as int, text@.len() as int)),
        invariant
            bounds@.len() == seen.len(),
            forall|i: int|
                0 <= i < bounds@.len() ==> (#[trigger] bounds@[i]).0 <= bounds@[i].1 <= text.len(),
            forall|i: int|
                0 <= i < bounds@.len() ==> seen[i] == text@.subrange(
                    (#[trigger] bounds@[i]).0 as int,
                    bounds@[i].1 as int,
                ),
        ensures
            split_lines(text@) == seen,
        decreases text.len() - start,
    {
        let end = find_char(text, '\n', start);
        let ghost line = text@.subrange(start as int, end as int);
        let ghost before = seen;
        proof {
            lemma_split_lines_from(text@, start as int, end as int);
            seen = before.push(line);
        }
        bounds.push((start, end));
        if end >= text.len() {
            assert(before + seq![line] =~= seen);
            break ;
        }
        assert(before + (seq![line] + split_lines(
            text@.subrange(end + 1, text@.len() as int),
        )) =~= seen + split_lines(text@.subrange(end + 1, text@.len() as int)));
        start = end + 1;
    }
    bounds
}

} // verus!
