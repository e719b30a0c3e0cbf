//! Small facts about sequences that the rest of the crate builds on.

use vstd::prelude::*;

verus! {

/// `i` is the position of the first element of `s` that satisfies `p`.
pub open spec fn is_first_match<A>(s: Seq<A>, p: spec_fn(A) -> bool, i: int) -> bool {
    &&& 0 <= i < s.len()
    &&& p(s[i])
    &&& forall|j: int| 0 <= j < i ==> !#[trigger] p(s[j])
}

/// The position of the first element of `s` that satisfies `p`, if there is one.
pub open spec fn first_match<A>(s: Seq<A>, p: spec_fn(A) -> bool) -> Option<int> {
    if exists|i: int| is_first_match(s, p, i) {
        Some(choose|i: int| is_first_match(s, p, i))
    } else {
        None
    }
}

/// No element of `s` satisfies `p`.
pub open spec fn no_match<A>(s: Seq<A>, p: spec_fn(A) -> bool) -> bool {
    forall|j: int| 0 <= j < s.len() ==> !#[trigger] p(s[j])
}

/// A position that is a first match is the first match.
pub proof fn lemma_first_match_found<A>(s: Seq<A>, p: spec_fn(A) -> bool, k: int)
    requires
        is_first_match(s, p, k),
    ensures
        first_match(s, p) == Some(k),
{
    let c = choose|i: int| is_first_match(s, p, i);
    assert(is_first_match(s, p, c));
    if c < k {
        assert(!p(s[c]));
    }
    if k < c {
        assert(!p(s[k]));
    }
}

/// Where nothing matches there is no first match.
pub proof fn lemma_first_match_none<A>(s: Seq<A>, p: spec_fn(A) -> bool)
    requires
        no_match(s, p),
    ensures
        first_match(s, p) is None,
{
    if exists|i: int| is_first_match(s, p, i) {
        let c = choose|i: int| is_first_match(s, p, i);
        assert(!p(s[c]));
    }
}

/// What `first_match` returns is a first match, and `None` means no match.
pub proof fn lemma_first_match_is_first<A>(s: Seq<A>, p: spec_fn(A) -> bool)
    ensures
        match first_match(s, p) {
            Some(k) => is_first_match(s, p, k),
            None => no_match(s, p),
        },
{
    if exists|i: int| is_first_match(s, p, i) {
    } else {
        assert forall|j: int| 0 <= j < s.len() implies !#[trigger] p(s[j]) by {
            if p(s[j]) {
                lemma_exists_first(s, p, j);
            }
        }
    }
}

/// Below every match there is a first match.
pub proof fn lemma_exists_first<A>(s: Seq<A>, p: spec_fn(A) -> bool, j: int)
    requires
        0 <= j < s.len(),
        p(s[j]),
    ensures
        exists|i: int| is_first_match(s, p, i),
    decreases j,
{
    if forall|k: int| 0 <= k < j ==> !#[trigger] p(s[k]) {
        assert(is_first_match(s, p, j));
    } else {
        let k = choose|k: int| 0 <= k < j && p(s[k]);
        lemma_exists_first(s, p, k);
    }
}

/// Filtering the first `i + 1` elements is filtering the first `i` and then
/// deciding on element `i`.
pub proof fn lemma_filter_take_step<A>(s: Seq<A>, p: spec_fn(A) -> bool, i: int)
    requires
        0 <= i < s.len(),
    ensures
        s.take(i + 1).filter(p) == if p(s[i]) {
            s.take(i).filter(p).push(s[i])
        } else {
            s.take(i).filter(p)
        },
{
    assert(s.take(i + 1) =~= s.take(i).push(s[i]));
    s.take(i).lemma_filter_push(s[i], p);
}

/// An element is kept by a filter exactly when it is in the sequence and
/// satisfies the predicate.
pub proof fn lemma_filter_members<A>(s: Seq<A>, p: spec_fn(A) -> bool)
    ensures
        forall|a: A| #[trigger] s.filter(p).contains(a) <==> (s.contains(a) && p(a)),
    decreases s.len(),
{
    reveal(Seq::filter);
    if s.len() > 0 {
        let t = s.drop_last();
        lemma_filter_members(t, p);
        assert forall|a: A| #[trigger] s.filter(p).contains(a) <==> (s.contains(a) && p(a)) by {
            let f = s.filter(p);
            if f.contains(a) {
                let i = choose|i: int| 0 <= i < f.len() && f[i] == a;
                if p(s.last()) && i == f.len() - 1 {
                    assert(s[s.len() - 1] == a);
                } else {
                    assert(t.filter(p)[i] == a);
                    assert(t.filter(p).contains(a));
                    let j = choose|j: int| 0 <= j < t.len() && t[j] == a;
                    assert(s[j] == a);
                }
            }
            if s.contains(a) && p(a) {
                let j = choose|j: int| 0 <= j < s.len() && s[j] == a;
                if j == s.len() - 1 {
                    assert(f[f.len() - 1] == a);
                } else {
                    assert(t[j] == a);
                    assert(t.filter(p).contains(a));
                    let i = choose|i: int| 0 <= i < t.filter(p).len() && t.filter(p)[i] == a;
                    assert(f[i] == a);
                }
            }
        }
    }
}

/// Where the elements that satisfy `p` are exactly the first `pos`, the
/// filter keeps exactly that prefix.
pub proof fn lemma_filter_prefix<A>(s: Seq<A>, p: spec_fn(A) -> bool, pos: int)
    requires
        0 <= pos <= s.len(),
        forall|i: int| 0 <= i < pos ==> #[trigger] p(s[i]),
        forall|i: int| pos <= i < s.len() ==> !#[trigger] p(s[i]),
    ensures
        s.filter(p) == s.take(pos),
    decreases s.len(),
{
    reveal(Seq::filter);
    if s.len() == 0 {
        assert(s.filter(p) =~= s.take(pos));
    } else {
        let t = s.drop_last();
        if pos == s.len() {
            assert(p(s[s.len() - 1]));
            assert forall|i: int| 0 <= i < pos - 1 implies #[trigger] p(t[i]) by {
                assert(p(s[i]));
            }
            lemma_filter_prefix(t, p, pos - 1);
            assert(t.take(pos - 1) =~= t);
            assert(s.filter(p) =~= s.take(pos));
        } else {
            assert(!p(s[s.len() - 1]));
            assert forall|i: int| 0 <= i < pos implies #[trigger] p(t[i]) by {
                assert(p(s[i]));
            }
            assert forall|i: int| pos <= i < t.len() implies !#[trigger] p(t[i]) by {
                assert(!p(s[i]));
            }
            lemma_filter_prefix(t, p, pos);
            assert(s.filter(p) =~= s.take(pos));
        }
    }
}

} // verus!
