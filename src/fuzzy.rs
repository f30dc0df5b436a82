//! Deciding whether a host name matches a search string, and marking the
//! letters of the name that the search string picked out.
//!
//! A name matches when the search string's characters occur in it in the
//! same order, not necessarily next to each other, ASCII letters compared
//! without regard to case.

use crate::text::{char_eq_folded, chars_of, fold};
use fuzzy_matcher::skim::SkimMatcherV2;
use fuzzy_matcher::FuzzyMatcher;
use vstd::prelude::*;

verus! {

/// Is `query` a subsequence of `host`, ASCII case aside?
pub open spec fn fuzzy_hit(host: Seq<char>, query: Seq<char>) -> bool
    decreases host.len(),
{
    if query.len() == 0 {
        true
    } else if host.len() == 0 {
        false
    } else if fold(host[0]) == fold(query[0]) {
        fuzzy_hit(host.drop_first(), query.drop_first())
    } else {
        fuzzy_hit(host.drop_first(), query)
    }
}

/// A name that matches a search string matches the string without its
/// last character.
pub proof fn lemma_hit_drop_last(h: Seq<char>, q: Seq<char>, c: char)
    ensures
        fuzzy_hit(h, q.push(c)) ==> fuzzy_hit(h, q),
    decreases h.len(),
{
    if q.len() > 0 && h.len() > 0 {
        assert(q.push(c)[0] == q[0]);
        assert(q.push(c).drop_first() =~= q.drop_first().push(c));
        if fold(h[0]) == fold(q[0]) {
            lemma_hit_drop_last(h.drop_first(), q.drop_first(), c);
        } else {
            lemma_hit_drop_last(h.drop_first(), q, c);
        }
    }
}

/// Relies on `SkimMatcherV2::fuzzy_match` with case ignored: it yields a
/// score exactly when `query` is a subsequence of `host` under
/// `char::eq_ignore_ascii_case`.
#[verifier::external_body]
pub(crate) fn host_matches(host: &str, query: &str) -> (r: bool)
    ensures
        r == fuzzy_hit(host@, query@),
{
    SkimMatcherV2::default().ignore_case().fuzzy_match(host, query).is_some()
}

/// Where `c` first occurs in `h` from position `from` on, ASCII case aside;
/// `-1` when it does not.
pub open spec fn find_from(h: Seq<char>, c: char, from: int) -> int
    decreases h.len() - from,
{
    if from < 0 || from >= h.len() {
        -1
    } else if fold(h[from]) == fold(c) {
        from
    } else {
        find_from(h, c, from + 1)
    }
}

/// Where the unconsumed part of `h` starts once every character of `q` was
/// looked for.
pub open spec fn cursor(h: Seq<char>, q: Seq<char>) -> int
    decreases q.len(),
{
    if q.len() == 0 {
        0
    } else {
        let s = cursor(h, q.drop_last());
        let p = find_from(h, q.last(), s);
        if p < 0 {
            s
        } else {
            p + 1
        }
    }
}

/// Which characters of `h` are emphasized for the search string `q`: each
/// character of `q` in turn marks its first occurrence in the part of `h`
/// after the previous mark; one that does not occur marks nothing.
pub open spec fn marks(h: Seq<char>, q: Seq<char>) -> Seq<bool>
    decreases q.len(),
{
    if q.len() == 0 {
        Seq::new(h.len(), |i: int| false)
    } else {
        let m = marks(h, q.drop_last());
        let p = find_from(h, q.last(), cursor(h, q.drop_last()));
        if p < 0 {
            m
        } else {
            m.update(p, true)
        }
    }
}

proof fn lemma_find_from_bounds(h: Seq<char>, c: char, from: int)
    ensures
        find_from(h, c, from) == -1 || (from <= find_from(h, c, from) < h.len() && 0 <= from),
    decreases h.len() - from,
{
    if 0 <= from < h.len() && fold(h[from]) != fold(c) {
        lemma_find_from_bounds(h, c, from + 1);
    }
}

proof fn lemma_cursor_bounds(h: Seq<char>, q: Seq<char>)
    ensures
        0 <= cursor(h, q) <= h.len(),
        marks(h, q).len() == h.len(),
    decreases q.len(),
{
    if q.len() > 0 {
        lemma_cursor_bounds(h, q.drop_last());
        lemma_find_from_bounds(h, q.last(), cursor(h, q.drop_last()));
    }
}

/// Where a greedy left-to-right search for all of `w` ends when it starts at
/// position `s` of `h`; `-1` when some character is not found.
pub open spec fn greedy_end(h: Seq<char>, w: Seq<char>, s: int) -> int
    decreases w.len(),
{
    if w.len() == 0 {
        s
    } else {
        let p = find_from(h, w[0], s);
        if p < 0 {
            -1
        } else {
            greedy_end(h, w.drop_first(), p + 1)
        }
    }
}

proof fn lemma_hit_iff_greedy(h: Seq<char>, w: Seq<char>, s: int)
    requires
        0 <= s <= h.len(),
    ensures
        fuzzy_hit(h.skip(s), w) <==> greedy_end(h, w, s) >= 0,
    decreases h.len() - s,
{
    if w.len() > 0 {
        if s == h.len() {
            assert(h.skip(s).len() == 0);
        } else {
            assert(h.skip(s)[0] == h[s]);
            assert(h.skip(s).drop_first() =~= h.skip(s + 1));
            if fold(h[s]) == fold(w[0]) {
                lemma_hit_iff_greedy(h, w.drop_first(), s + 1);
            } else {
                lemma_hit_iff_greedy(h, w, s + 1);
            }
        }
    }
}

proof fn lemma_greedy_end_push(h: Seq<char>, w: Seq<char>, c: char, s: int)
    requires
        0 <= s,
    ensures
        greedy_end(h, w.push(c), s) == if greedy_end(h, w, s) < 0 {
            -1
        } else if find_from(h, c, greedy_end(h, w, s)) < 0 {
            -1
        } else {
            find_from(h, c, greedy_end(h, w, s)) + 1
        },
    decreases w.len(),
{
    if w.len() == 0 {
        assert(w.push(c)[0] == c);
        assert(w.push(c).drop_first() =~= Seq::<char>::empty());
        assert(greedy_end(h, w, s) == s);
        let p = find_from(h, c, s);
        if p >= 0 {
            assert(greedy_end(h, w.push(c), s) == greedy_end(h, Seq::<char>::empty(), p + 1));
        }
    } else {
        assert(w.push(c)[0] == w[0]);
        assert(w.push(c).drop_first() =~= w.drop_first().push(c));
        let p = find_from(h, w[0], s);
        lemma_find_from_bounds(h, w[0], s);
        if p >= 0 {
            lemma_greedy_end_push(h, w.drop_first(), c, p + 1);
        }
    }
}

proof fn lemma_greedy_prefix(h: Seq<char>, q: Seq<char>)
    ensures
        greedy_end(h, q, 0) >= 0 <==> (forall|k: int|
            0 <= k < q.len() ==> #[trigger] find_from(h, q[k], cursor(h, q.take(k))) >= 0),
        greedy_end(h, q, 0) >= 0 ==> cursor(h, q) == greedy_end(h, q, 0),
    decreases q.len(),
{
    if q.len() > 0 {
        let w = q.drop_last();
        let c = q.last();
        lemma_greedy_prefix(h, w);
        assert(w.push(c) =~= q);
        lemma_greedy_end_push(h, w, c, 0);
        assert(q.take(w.len() as int) =~= w);
        assert forall|k: int| 0 <= k < w.len() implies q.take(k) == w.take(k) && q[k] == w[k] by {
            assert(q.take(k) =~= w.take(k));
        }
        if greedy_end(h, q, 0) >= 0 {
            assert forall|k: int| 0 <= k < q.len() implies #[trigger] find_from(
                h,
                q[k],
                cursor(h, q.take(k)),
            ) >= 0 by {
                if k < w.len() {
                    assert(find_from(h, w[k], cursor(h, w.take(k))) >= 0);
                }
            }
        } else if greedy_end(h, w, 0) < 0 {
            let k = choose|k: int|
                0 <= k < w.len() && !(#[trigger] find_from(h, w[k], cursor(h, w.take(k))) >= 0);
            assert(find_from(h, q[k], cursor(h, q.take(k))) < 0);
        } else {
            let k = w.len() as int;
            assert(find_from(h, q[k], cursor(h, q.take(k))) < 0);
        }
    }
}

/// Matching and highlighting agree: a search string matches a name exactly
/// when highlighting finds every one of its characters in the name.
pub proof fn lemma_highlight_agrees_with_match(h: Seq<char>, q: Seq<char>)
    ensures
        fuzzy_hit(h, q) <==> (forall|k: int|
            0 <= k < q.len() ==> #[trigger] find_from(h, q[k], cursor(h, q.take(k))) >= 0),
{
    lemma_hit_iff_greedy(h, q, 0);
    assert(h.skip(0) =~= h);
    lemma_greedy_prefix(h, q);
}

/// Each character of `host`, paired with whether the search string `query`
/// emphasizes it.
pub fn highlight(host: &str, query: &str) -> (r: Vec<(char, bool)>)
    ensures
        r@.len() == host@.len(),
        forall|i: int| 0 <= i < r@.len() ==> #[trigger] r@[i] == (host@[i], marks(host@, query@)[i]),
{
    let h = chars_of(host);
    let q = chars_of(query);
    let mut m: Vec<bool> = Vec::new();
    let mut i: usize = 0;
    while i < h.len()
        invariant
            h@ == host@,
            i <= h@.len(),
            m@ == Seq::new(i as nat, |j: int| false),
        decreases h@.len() - i,
    {
        m.push(false);
        i = i + 1;
        assert(m@ =~= Seq::new(i as nat, |j: int| false));
    }
    assert(m@ =~= marks(h@, q@.take(0)));
    let mut start: usize = 0;
    let mut k: usize = 0;
    while k < q.len()
        invariant
            h@ == host@,
            q@ == query@,
            k <= q@.len(),
            start as int == cursor(h@, q@.take(k as int)),
            m@ == marks(h@, q@.take(k as int)),
        decreases q@.len() - k,
    {
        proof {
            assert(q@.take(k + 1).drop_last() =~= q@.take(k as int));
            lemma_cursor_bounds(h@, q@.take(k as int));
        }
        let c = q[k];
        let mut p: usize = start;
        while p < h.len() && !char_eq_folded(h[p], c)
            invariant
                h@ == host@,
                start <= p <= h@.len(),
                0 <= start as int <= h@.len(),
                find_from(h@, c, start as int) == find_from(h@, c, p as int),
            decreases h@.len() - p,
        {
            p = p + 1;
        }
        proof {
            lemma_cursor_bounds(h@, q@.take(k + 1));
        }
        if p < h.len() {
            m.set(p, true);
            start = p + 1;
        }
        k = k + 1;
    }
    proof {
        assert(q@.take(q@.len() as int) =~= q@);
        lemma_cursor_bounds(h@, q@);
    }
    let mut r: Vec<(char, bool)> = Vec::new();
    let mut j: usize = 0;
    while j < h.len()
        invariant
            h@ == host@,
            m@ == marks(host@, query@),
            m@.len() == h@.len(),
            j <= h@.len(),
            r@.len() == j,
            forall|i: int| 0 <= i < j ==> #[trigger] r@[i] == (host@[i], m@[i]),
        decreases h@.len() - j,
    {
        r.push((h[j], m[j]));
        j = j + 1;
    }
    r
}

} // verus!
