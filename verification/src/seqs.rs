//! Counting, searching and filtering over sequences, with the induction
//! lemmas the state machines' invariants rest on.

use vstd::prelude::*;

verus! {

/// How many elements of `s` satisfy `p`.
pub open spec fn count_where<T>(s: Seq<T>, p: spec_fn(T) -> bool) -> nat
    decreases s.len(),
{
    if s.len() == 0 {
        0
    } else {
        count_where(s.drop_last(), p) + if p(s.last()) {
            1nat
        } else {
            0nat
        }
    }
}

/// The last element of `s` satisfying `p`, if any.
pub open spec fn find_last<T>(s: Seq<T>, p: spec_fn(T) -> bool) -> Option<T>
    decreases s.len(),
{
    if s.len() == 0 {
        None
    } else if p(s.last()) {
        Some(s.last())
    } else {
        find_last(s.drop_last(), p)
    }
}

/// `s` with every element satisfying `p` dropped, order preserved.
pub open spec fn discard<T>(s: Seq<T>, p: spec_fn(T) -> bool) -> Seq<T>
    decreases s.len(),
{
    if s.len() == 0 {
        s
    } else {
        let rest = discard(s.drop_last(), p);
        if p(s.last()) {
            rest
        } else {
            rest.push(s.last())
        }
    }
}

pub proof fn lemma_count_where_le_len<T>(s: Seq<T>, p: spec_fn(T) -> bool)
    ensures
        count_where(s, p) <= s.len(),
    decreases s.len(),
{
    if s.len() > 0 {
        lemma_count_where_le_len(s.drop_last(), p);
    }
}

/// A count is zero exactly when no element satisfies the predicate.
pub proof fn lemma_count_where_zero<T>(s: Seq<T>, p: spec_fn(T) -> bool)
    ensures
        count_where(s, p) == 0 <==> (forall|i: int| 0 <= i < s.len() ==> !p(#[trigger] s[i])),
    decreases s.len(),
{
    if s.len() > 0 {
        lemma_count_where_zero(s.drop_last(), p);
        assert(forall|i: int|
            0 <= i < s.len() - 1 ==> #[trigger] s[i] == s.drop_last()[i]);
    }
}

pub proof fn lemma_count_where_push<T>(s: Seq<T>, x: T, p: spec_fn(T) -> bool)
    ensures
        count_where(s.push(x), p) == count_where(s, p) + if p(x) {
            1nat
        } else {
            0nat
        },
{
    assert(s.push(x).drop_last() =~= s);
    assert(s.push(x).last() == x);
}

pub proof fn lemma_count_where_update<T>(s: Seq<T>, i: int, x: T, p: spec_fn(T) -> bool)
    requires
        0 <= i < s.len(),
    ensures
        count_where(s.update(i, x), p) == count_where(s, p) - (if p(s[i]) {
            1int
        } else {
            0int
        }) + (if p(x) {
            1int
        } else {
            0int
        }),
    decreases s.len(),
{
    let t = s.update(i, x);
    if i == s.len() - 1 {
        assert(t.drop_last() =~= s.drop_last());
        assert(t.last() == x);
    } else {
        assert(t.drop_last() =~= s.drop_last().update(i, x));
        assert(t.last() == s.last());
        lemma_count_where_update(s.drop_last(), i, x, p);
    }
}

/// When the three predicates partition elementwise (`r` holds exactly when one
/// of `p`, `q` does, and never both), the counts add up.
pub proof fn lemma_count_where_split<T>(
    s: Seq<T>,
    p: spec_fn(T) -> bool,
    q: spec_fn(T) -> bool,
    r: spec_fn(T) -> bool,
)
    requires
        forall|i: int|
            0 <= i < s.len() ==> (r(#[trigger] s[i]) == (p(s[i]) || q(s[i]))) && !(p(s[i]) && q(
                s[i],
            )),
    ensures
        count_where(s, r) == count_where(s, p) + count_where(s, q),
    decreases s.len(),
{
    if s.len() > 0 {
        assert(forall|i: int|
            0 <= i < s.len() - 1 ==> #[trigger] s.drop_last()[i] == s[i]);
        lemma_count_where_split(s.drop_last(), p, q, r);
        assert(s.last() == s[s.len() - 1]);
    }
}

/// An element satisfying the predicate pushes the count to at least one.
pub proof fn lemma_count_where_at<T>(s: Seq<T>, p: spec_fn(T) -> bool, i: int)
    requires
        0 <= i < s.len(),
        p(s[i]),
    ensures
        count_where(s, p) >= 1,
    decreases s.len(),
{
    if i == s.len() - 1 {
        assert(p(s.last()));
    } else {
        assert(s.drop_last()[i] == s[i]);
        lemma_count_where_at(s.drop_last(), p, i);
    }
}

/// A pointwise-weaker predicate counts no more elements.
pub proof fn lemma_count_where_implies<T>(s: Seq<T>, p: spec_fn(T) -> bool, q: spec_fn(T) -> bool)
    requires
        forall|i: int| 0 <= i < s.len() ==> (p(#[trigger] s[i]) ==> q(s[i])),
    ensures
        count_where(s, p) <= count_where(s, q),
    decreases s.len(),
{
    if s.len() > 0 {
        assert(forall|i: int|
            0 <= i < s.len() - 1 ==> #[trigger] s.drop_last()[i] == s[i]);
        lemma_count_where_implies(s.drop_last(), p, q);
        assert(s.last() == s[s.len() - 1]);
    }
}

/// Two distinct witnesses push the count to at least two.
pub proof fn lemma_count_where_two<T>(s: Seq<T>, p: spec_fn(T) -> bool, i: int, j: int)
    requires
        0 <= i < j < s.len(),
        p(s[i]),
        p(s[j]),
    ensures
        count_where(s, p) >= 2,
    decreases s.len(),
{
    if j == s.len() - 1 {
        assert(p(s.last()));
        assert(s.drop_last()[i] == s[i]);
        lemma_count_where_at(s.drop_last(), p, i);
    } else {
        assert(s.drop_last()[i] == s[i]);
        assert(s.drop_last()[j] == s[j]);
        lemma_count_where_two(s.drop_last(), p, i, j);
    }
}

/// `find_last` succeeds exactly when the count is positive, and what it finds
/// satisfies the predicate and sits in the sequence.
pub proof fn lemma_find_last_props<T>(s: Seq<T>, p: spec_fn(T) -> bool)
    ensures
        (find_last(s, p) is None) <==> count_where(s, p) == 0,
        find_last(s, p) matches Some(x) ==> p(x) && s.contains(x),
    decreases s.len(),
{
    if s.len() > 0 {
        lemma_find_last_props(s.drop_last(), p);
        if !p(s.last()) && find_last(s.drop_last(), p) is Some {
            let x = find_last(s.drop_last(), p)->Some_0;
            assert(s.drop_last().contains(x));
            let j = choose|j: int| 0 <= j < s.drop_last().len() && s.drop_last()[j] == x;
            assert(s[j] == x);
        } else if p(s.last()) {
            assert(s[s.len() - 1] == s.last());
        }
    }
}

/// With at most one element satisfying `p`, an element that does satisfy it is
/// what `find_last` returns.
pub proof fn lemma_find_last_unique<T>(s: Seq<T>, p: spec_fn(T) -> bool, i: int)
    requires
        count_where(s, p) <= 1,
        0 <= i < s.len(),
        p(s[i]),
    ensures
        find_last(s, p) == Some(s[i]),
    decreases s.len(),
{
    if i == s.len() - 1 {
        assert(p(s.last()));
    } else {
        assert(s.drop_last()[i] == s[i]);
        lemma_count_where_at(s.drop_last(), p, i);
        if p(s.last()) {
            assert(count_where(s, p) >= 2);
        }
        lemma_find_last_unique(s.drop_last(), p, i);
    }
}

/// Discarding keeps exactly the elements the predicate spares.
pub proof fn lemma_discard_len<T>(s: Seq<T>, p: spec_fn(T) -> bool)
    ensures
        discard(s, p).len() == s.len() - count_where(s, p),
        count_where(discard(s, p), p) == 0,
    decreases s.len(),
{
    lemma_count_where_le_len(s, p);
    if s.len() > 0 {
        lemma_discard_len(s.drop_last(), p);
        if !p(s.last()) {
            lemma_count_where_push(discard(s.drop_last(), p), s.last(), p);
        }
    }
}

/// When nothing satisfies the predicate, discarding changes nothing.
pub proof fn lemma_discard_none<T>(s: Seq<T>, p: spec_fn(T) -> bool)
    requires
        count_where(s, p) == 0,
    ensures
        discard(s, p) == s,
    decreases s.len(),
{
    if s.len() > 0 {
        lemma_discard_none(s.drop_last(), p);
        assert(discard(s, p) =~= s.drop_last().push(s.last()));
        assert(s.drop_last().push(s.last()) =~= s);
    }
}

/// Pushing an element the predicate drops leaves the discard unchanged.
pub proof fn lemma_discard_push_dropped<T>(s: Seq<T>, x: T, p: spec_fn(T) -> bool)
    requires
        p(x),
    ensures
        discard(s.push(x), p) == discard(s, p),
{
    assert(s.push(x).drop_last() =~= s);
}

/// Counting another predicate after a discard: with at most one element
/// satisfying `p`, exactly that element's contribution to `q` is lost.
pub proof fn lemma_discard_single<T>(s: Seq<T>, p: spec_fn(T) -> bool, q: spec_fn(T) -> bool)
    requires
        count_where(s, p) <= 1,
    ensures
        count_where(discard(s, p), q) == count_where(s, q) - (match find_last(s, p) {
            Some(x) => if q(x) {
                1int
            } else {
                0int
            },
            None => 0int,
        }),
    decreases s.len(),
{
    if s.len() > 0 {
        if p(s.last()) {
            lemma_count_where_zero(s.drop_last(), p);
            assert forall|i: int| 0 <= i < s.drop_last().len() implies !p(
                #[trigger] s.drop_last()[i],
            ) by {
                if p(s.drop_last()[i]) {
                    assert(s[i] == s.drop_last()[i]);
                    lemma_count_where_at(s.drop_last(), p, i);
                }
            }
            lemma_discard_none(s.drop_last(), p);
            lemma_count_where_zero(s.drop_last(), q);
        } else {
            lemma_discard_single(s.drop_last(), p, q);
            lemma_count_where_push(discard(s.drop_last(), p), s.last(), q);
        }
    }
}

/// A predicate no spared element satisfies counts the same before and after a
/// discard, and `find_last` for it is unchanged.
pub proof fn lemma_discard_other<T>(s: Seq<T>, p: spec_fn(T) -> bool, q: spec_fn(T) -> bool)
    requires
        forall|i: int| 0 <= i < s.len() ==> !(q(#[trigger] s[i]) && p(s[i])),
    ensures
        count_where(discard(s, p), q) == count_where(s, q),
        find_last(discard(s, p), q) == find_last(s, q),
    decreases s.len(),
{
    if s.len() > 0 {
        assert(forall|i: int|
            0 <= i < s.len() - 1 ==> #[trigger] s.drop_last()[i] == s[i]);
        lemma_discard_other(s.drop_last(), p, q);
        assert(s.last() == s[s.len() - 1]);
        if !p(s.last()) {
            let rest = discard(s.drop_last(), p);
            assert(rest.push(s.last()).drop_last() =~= rest);
        }
    }
}

} // verus!
