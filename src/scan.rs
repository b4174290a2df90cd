//! Line splitting and substring search over the UTF-8 bytes of a document.
use vstd::prelude::*;

verus! {

/// The byte that separates lines.
pub const NEWLINE: u8 = 10;

/// The lines of `b`, split at every newline byte, as `str::split("\n")`
/// splits them: an empty text has one empty line, and a trailing newline
/// ends with an empty line.
pub open spec fn split_lines(b: Seq<u8>) -> Seq<Seq<u8>>
    decreases b.len(),
{
    if b.len() == 0 {
        seq![Seq::<u8>::empty()]
    } else {
        let init = split_lines(b.drop_last());
        if b.last() == NEWLINE {
            init.push(Seq::<u8>::empty())
        } else {
            init.update(init.len() - 1, init.last().push(b.last()))
        }
    }
}

/// `pat` occurs in `line` starting at byte `i`.
pub open spec fn occurs_at(line: Seq<u8>, pat: Seq<u8>, i: int) -> bool {
    0 <= i && i + pat.len() <= line.len() && line.subrange(i, i + pat.len()) == pat
}

/// The first position at or after `i` where `pat` occurs in `line`.
pub open spec fn find_from(line: Seq<u8>, pat: Seq<u8>, i: int) -> Option<int>
    decreases line.len() + 1 - i,
{
    if i + pat.len() > line.len() {
        None
    } else if occurs_at(line, pat, i) {
        Some(i)
    } else {
        find_from(line, pat, i + 1)
    }
}

/// The first position where `pat` occurs in `line`, as `str::find` gives it.
pub open spec fn first_occurrence(line: Seq<u8>, pat: Seq<u8>) -> Option<int> {
    find_from(line, pat, 0)
}

/// There is at least one line, and never more than one per byte plus one.
pub proof fn lemma_split_lines_len(b: Seq<u8>)
    ensures
        1 <= split_lines(b).len() <= b.len() + 1,
    decreases b.len(),
{
    if b.len() > 0 {
        lemma_split_lines_len(b.drop_last());
    }
}

/// A result of `find_from` is an occurrence, and no earlier one from `i` on.
pub proof fn lemma_find_from_first(line: Seq<u8>, pat: Seq<u8>, i: int)
    requires
        i >= 0,
    ensures
        match find_from(line, pat, i) {
            Some(k) => i <= k && occurs_at(line, pat, k) && forall|j: int|
                i <= j < k ==> !occurs_at(line, pat, j),
            None => forall|j: int| i <= j ==> !occurs_at(line, pat, j),
        },
    decreases line.len() + 1 - i,
{
    if i + pat.len() <= line.len() && !occurs_at(line, pat, i) {
        lemma_find_from_first(line, pat, i + 1);
        assert forall|j: int| i <= j && j < i + 1 implies !occurs_at(line, pat, j) by {
            assert(j == i);
        }
    }
}

/// The byte ranges `[start, end)` of the lines of `b`, in order.
pub fn line_spans(b: &[u8]) -> (r: Vec<(usize, usize)>)
    ensures
        r@.len() == split_lines(b@).len(),
        forall|i: int| 0 <= i < r@.len() ==> #[trigger] r@[i].0 <= r@[i].1 <= b@.len(),
        forall|i: int|
            0 <= i < r@.len() ==> b@.subrange(r@[i].0 as int, r@[i].1 as int)
                == #[trigger] split_lines(b@)[i],
{
    let n = b.len();
    let mut spans: Vec<(usize, usize)> = Vec::new();
    let mut start: usize = 0;
    let mut i: usize = 0;
    assert(b@.subrange(0, 0).len() == 0);
    assert(split_lines(b@.subrange(0, 0)) == seq![Seq::<u8>::empty()]);
    assert(b@.subrange(0, 0) =~= Seq::<u8>::empty());
    while i < n
        invariant
            n == b@.len(),
            start <= i <= n,
            spans@.len() + 1 == split_lines(b@.subrange(0, i as int)).len(),
            split_lines(b@.subrange(0, i as int))[spans@.len() as int] == b@.subrange(
                start as int,
                i as int,
            ),
            forall|j: int| 0 <= j < spans@.len() ==> #[trigger] spans@[j].0 <= spans@[j].1 <= i,
            forall|j: int|
                0 <= j < spans@.len() ==> b@.subrange(spans@[j].0 as int, spans@[j].1 as int)
                    == #[trigger] split_lines(b@.subrange(0, i as int))[j],
        decreases n - i,
    {
        let ghost prev = b@.subrange(0, i as int);
        let ghost next = b@.subrange(0, i + 1);
        assert(next.drop_last() =~= prev);
        assert(next.last() == b@[i as int]);
        proof {
            lemma_split_lines_len(prev);
        }
        let ghost old_spans = spans@;
        if b[i] == NEWLINE {
            assert(split_lines(next) == split_lines(prev).push(Seq::<u8>::empty()));
            spans.push((start, i));
            start = i + 1;
            assert(b@.subrange(start as int, i + 1) =~= Seq::<u8>::empty());
        } else {
            assert(split_lines(next) == split_lines(prev).update(
                spans@.len() as int,
                split_lines(prev).last().push(b@[i as int]),
            ));
            assert(b@.subrange(start as int, i + 1) =~= b@.subrange(start as int, i as int).push(
                b@[i as int],
            ));
        }
        assert forall|j: int| 0 <= j < old_spans.len() implies split_lines(next)[j]
            == split_lines(prev)[j] && spans@[j] == old_spans[j] by {}
        i = i + 1;
    }
    assert(b@.subrange(0, n as int) =~= b@);
    let ghost old_spans = spans@;
    spans.push((start, n));
    assert forall|j: int| 0 <= j < spans@.len() implies {
        &&& #[trigger] spans@[j].0 <= spans@[j].1 <= b@.len()
        &&& b@.subrange(spans@[j].0 as int, spans@[j].1 as int) == split_lines(b@)[j]
    } by {
        assert(split_lines(b@.subrange(0, i as int)) == split_lines(b@));
        if j < old_spans.len() {
            assert(spans@[j] == old_spans[j]);
            assert(old_spans[j].0 <= old_spans[j].1 <= i);
            assert(b@.subrange(old_spans[j].0 as int, old_spans[j].1 as int) == split_lines(
                b@.subrange(0, i as int),
            )[j]);
        }
    }
    spans
}

/// Searches `pat` in the bytes `b[start..end]`; the result is relative to `start`.
pub fn find_in(b: &[u8], start: usize, end: usize, pat: &[u8]) -> (r: Option<usize>)
    requires
        start <= end <= b@.len(),
    ensures
        match r {
            Some(k) => first_occurrence(b@.subrange(start as int, end as int), pat@) == Some(
                k as int,
            ),
            None => first_occurrence(b@.subrange(start as int, end as int), pat@) == None::<int>,
        },
{
    let ghost line = b@.subrange(start as int, end as int);
    let len = end - start;
    let plen = pat.len();
    let mut k: usize = 0;
    while k <= len && plen <= len - k
        invariant
            line == b@.subrange(start as int, end as int),
            len == line.len(),
            plen == pat@.len(),
            start <= end <= b@.len(),
            find_from(line, pat@, 0) == find_from(line, pat@, k as int),
        decreases len - k,
    {
        let mut j: usize = 0;
        let mut same = true;
        while j < plen
            invariant
                k + plen <= len,
                line == b@.subrange(start as int, end as int),
                len == line.len(),
                plen == pat@.len(),
                start <= end <= b@.len(),
                j <= plen,
                same == forall|t: int| 0 <= t < j ==> line[k + t] == pat@[t],
            decreases plen - j,
        {
            if b[start + k + j] != pat[j] {
                same = false;
            }
            j = j + 1;
        }
        if same {
            assert(line.subrange(k as int, k + plen) =~= pat@);
            return Some(k);
        }
        assert(!occurs_at(line, pat@, k as int)) by {
            if occurs_at(line, pat@, k as int) {
                assert forall|t: int| 0 <= t < plen implies line[k + t] == pat@[t] by {
                    assert(line.subrange(k as int, k + plen)[t] == line[k + t]);
                }
            }
        }
        k = k + 1;
    }
    None
}

} // verus!
