//! Splitting the dictionary text into lines and filtering them by length.

use crate::config::Config;
use vstd::prelude::*;
use vstd::string::StrSliceExecFns;

verus! {

/// The index of the first `'\n'` in `s`, or `s.len()` when there is none.
pub open spec fn first_nl(s: Seq<char>) -> int
    decreases s.len(),
{
    if s.len() == 0 {
        0
    } else if s[0] == '\n' {
        0
    } else {
        1 + first_nl(s.skip(1))
    }
}

/// One trailing carriage return removed, as a line ending `"\r\n"` leaves one.
pub open spec fn strip_cr(l: Seq<char>) -> Seq<char> {
    if l.len() > 0 && l[l.len() - 1] == '\r' {
        l.take(l.len() - 1)
    } else {
        l
    }
}

/// The lines of `s`: segments separated by `'\n'`, each segment before a
/// `'\n'` with one trailing `'\r'` removed, and no empty final segment when
/// `s` ends with a line ending.
pub open spec fn line_split(s: Seq<char>) -> Seq<Seq<char>>
    decreases s.len(),
{
    if s.len() == 0 {
        Seq::empty()
    } else {
        let i = first_nl(s);
        if 0 <= i < s.len() {
            seq![strip_cr(s.take(i))] + line_split(s.skip(i + 1))
        } else {
            seq![s]
        }
    }
}

/// `first_nl` is characterized by its bounds: it points at a `'\n'` with none
/// before it, or past the end when the whole of `s` is free of `'\n'`.
proof fn lemma_first_nl_is(s: Seq<char>, k: int)
    requires
        0 <= k <= s.len(),
        forall|j: int| 0 <= j < k ==> s[j] != '\n',
        k == s.len() || s[k] == '\n',
    ensures
        first_nl(s) == k,
    decreases s.len(),
{
    if s.len() == 0 {
    } else if k == 0 {
    } else {
        assert(s[0] != '\n');
        let t = s.skip(1);
        assert(forall|j: int| 0 <= j < k - 1 ==> t[j] == s[j + 1] && s[j + 1] != '\n');
        lemma_first_nl_is(t, k - 1);
    }
}

/// Whether the length of `w` lies within the inclusive bounds.
pub open spec fn in_bounds(w: Seq<char>, min: int, max: int) -> bool {
    min <= w.len() <= max
}

/// The subsequence of `ws` whose members satisfy [`in_bounds`], in order.
pub open spec fn filter_in_bounds(ws: Seq<Seq<char>>, min: int, max: int) -> Seq<Seq<char>>
    decreases ws.len(),
{
    if ws.len() == 0 {
        Seq::empty()
    } else {
        let rest = filter_in_bounds(ws.drop_last(), min, max);
        if in_bounds(ws.last(), min, max) {
            rest.push(ws.last())
        } else {
            rest
        }
    }
}

/// Every member of the filtered sequence satisfies the bounds.
pub proof fn lemma_filter_members(ws: Seq<Seq<char>>, min: int, max: int)
    ensures
        forall|i: int|
            0 <= i < filter_in_bounds(ws, min, max).len() ==> in_bounds(
                #[trigger] filter_in_bounds(ws, min, max)[i],
                min,
                max,
            ),
    decreases ws.len(),
{
    if ws.len() > 0 {
        lemma_filter_members(ws.drop_last(), min, max);
        let rest = filter_in_bounds(ws.drop_last(), min, max);
        if in_bounds(ws.last(), min, max) {
            let whole = rest.push(ws.last());
            assert(filter_in_bounds(ws, min, max) == whole);
            assert forall|i: int| 0 <= i < whole.len() implies in_bounds(
                #[trigger] whole[i],
                min,
                max,
            ) by {
                if i < rest.len() {
                    assert(whole[i] == rest[i]);
                } else {
                    assert(whole[i] == ws.last());
                }
            }
        }
    }
}

/// Filtering leaves a sequence whose members all satisfy the bounds unchanged.
proof fn lemma_filter_of_satisfying(ws: Seq<Seq<char>>, min: int, max: int)
    requires
        forall|i: int| 0 <= i < ws.len() ==> in_bounds(#[trigger] ws[i], min, max),
    ensures
        filter_in_bounds(ws, min, max) == ws,
    decreases ws.len(),
{
    if ws.len() > 0 {
        assert(forall|i: int|
            0 <= i < ws.drop_last().len() ==> in_bounds(#[trigger] ws.drop_last()[i], min, max));
        lemma_filter_of_satisfying(ws.drop_last(), min, max);
        assert(in_bounds(ws.last(), min, max));
        assert(ws.drop_last().push(ws.last()) =~= ws);
    }
}

/// Filtering is idempotent: a second pass with the same bounds returns the
/// first pass's result unchanged.
pub proof fn lemma_filter_idempotent(ws: Seq<Seq<char>>, min: int, max: int)
    ensures
        filter_in_bounds(filter_in_bounds(ws, min, max), min, max) == filter_in_bounds(
            ws,
            min,
            max,
        ),
{
    lemma_filter_members(ws, min, max);
    lemma_filter_of_satisfying(filter_in_bounds(ws, min, max), min, max);
}

/// Splits `buf` into its lines.
pub fn split_lines(buf: &str) -> (r: Vec<String>)
    ensures
        r.deep_view() == line_split(buf@),
{
    let n = buf.unicode_len();
    let mut r: Vec<String> = Vec::new();
    let mut start: usize = 0;
    let mut i: usize = 0;
    proof {
        assert(buf@.skip(0) =~= buf@);
    }
    while i < n
        invariant
            start <= i <= n,
            n == buf@.len(),
            forall|j: int| start <= j < i ==> buf@[j] != '\n',
            line_split(buf@) == r.deep_view() + line_split(buf@.skip(start as int)),
        decreases n - i,
    {
        let c = buf.get_char(i);
        if c == '\n' {
            let mut end = i;
            if end > start && buf.get_char(end - 1) == '\r' {
                end = end - 1;
            }
            let line = buf.substring_char(start, end).to_owned();
            proof {
                let tail = buf@.skip(start as int);
                assert(forall|j: int|
                    0 <= j < i - start ==> tail[j] == buf@[j + start] && buf@[j + start] != '\n');
                assert(tail[i - start] == '\n');
                lemma_first_nl_is(tail, i - start);
                assert(tail.take(i - start) =~= buf@.subrange(start as int, i as int));
                assert(tail.skip(i - start + 1) =~= buf@.skip(i + 1));
                assert(strip_cr(buf@.subrange(start as int, i as int)) =~= buf@.subrange(
                    start as int,
                    end as int,
                ));
                assert(line_split(tail) =~= seq![line@] + line_split(buf@.skip(i + 1)));
                assert((r.deep_view().push(line@)) + line_split(buf@.skip(i + 1)) =~= r.deep_view()
                    + line_split(tail));
            }
            r.push(line);
            proof {
                assert(r.deep_view() =~= r.deep_view().subrange(0, r.deep_view().len() - 1).push(
                    line@,
                ));
            }
            start = i + 1;
        }
        i = i + 1;
    }
    if start < n {
        let line = buf.substring_char(start, n).to_owned();
        proof {
            let tail = buf@.skip(start as int);
            assert(forall|j: int|
                0 <= j < n - start ==> tail[j] == buf@[j + start] && buf@[j + start] != '\n');
            lemma_first_nl_is(tail, n - start);
            assert(tail =~= buf@.subrange(start as int, n as int));
            assert(line_split(tail) =~= seq![line@]);
        }
        r.push(line);
    }
    proof {
        if start >= n {
            assert(buf@.skip(start as int) =~= Seq::<char>::empty());
        }
        assert(r.deep_view() =~= line_split(buf@));
    }
    r
}

/// Keeps the words whose character count lies within `[min, max]`.
pub fn filter_words(words: &Vec<String>, min: usize, max: usize) -> (r: Vec<String>)
    ensures
        r.deep_view() == filter_in_bounds(words.deep_view(), min as int, max as int),
{
    let mut r: Vec<String> = Vec::new();
    let mut i: usize = 0;
    proof {
        assert(words.deep_view().take(0) =~= Seq::<Seq<char>>::empty());
    }
    while i < words.len()
        invariant
            i <= words.len(),
            r.deep_view() == filter_in_bounds(words.deep_view().take(i as int), min as int, max as int),
        decreases words.len() - i,
    {
        let w = &words[i];
        let len = w.as_str().unicode_len();
        proof {
            let pre = words.deep_view().take(i as int);
            let pre1 = words.deep_view().take(i + 1);
            assert(pre1.drop_last() =~= pre);
            assert(pre1.last() == words.deep_view()[i as int]);
        }
        if min <= len && len <= max {
            r.push(w.clone());
            proof {
                assert(r.deep_view() =~= filter_in_bounds(
                    words.deep_view().take(i as int),
                    min as int,
                    max as int,
                ).push(words.deep_view()[i as int]));
            }
        }
        i = i + 1;
    }
    proof {
        assert(words.deep_view().take(words.deep_view().len() as int) =~= words.deep_view());
    }
    r
}

/// Splits the dictionary text into lines and keeps those whose character
/// count lies within `[cfg.min, cfg.max]`. Every returned word satisfies the
/// bounds.
pub fn split_wordlist(buf: &String, cfg: &Config) -> (r: Vec<String>)
    ensures
        r.deep_view() == filter_in_bounds(line_split(buf@), cfg.min as int, cfg.max as int),
        forall|i: int|
            0 <= i < r.deep_view().len() ==> cfg.min <= (#[trigger] r.deep_view()[i]).len()
                <= cfg.max,
{
    let lines = split_lines(buf.as_str());
    let r = filter_words(&lines, cfg.min, cfg.max);
    proof {
        lemma_filter_members(line_split(buf@), cfg.min as int, cfg.max as int);
    }
    r
}

} // verus!
