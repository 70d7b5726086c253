//! Generic facts about association sequences: summing a weight function over
//! a sequence, looking up the first matching element, and filtering elements
//! out, together with the lemmas that relate these to pointwise updates.

use vstd::prelude::*;

verus! {

/// Sum of the weight `f` over all elements of `s`.
pub open spec fn sum_by<T>(s: Seq<T>, f: spec_fn(T) -> int) -> int
    decreases s.len(),
{
    if s.len() == 0 {
        0
    } else {
        f(s[0]) + sum_by(s.drop_first(), f)
    }
}

/// First element of `s` satisfying `p`, if any.
pub open spec fn find_by<T>(s: Seq<T>, p: spec_fn(T) -> bool) -> Option<T>
    decreases s.len(),
{
    if s.len() == 0 {
        None
    } else if p(s[0]) {
        Some(s[0])
    } else {
        find_by(s.drop_first(), p)
    }
}

/// `s` with every element satisfying `p` removed, in order.
pub open spec fn reject_by<T>(s: Seq<T>, p: spec_fn(T) -> bool) -> Seq<T>
    decreases s.len(),
{
    if s.len() == 0 {
        Seq::empty()
    } else if p(s[0]) {
        reject_by(s.drop_first(), p)
    } else {
        seq![s[0]] + reject_by(s.drop_first(), p)
    }
}

/// The key `k` takes a different value on every element of `s`.
pub open spec fn distinct_keys<T, K>(s: Seq<T>, k: spec_fn(T) -> K) -> bool {
    forall|i: int, j: int| 0 <= i < j < s.len() ==> k(s[i]) != k(s[j])
}

/// Indices of the tail of `s` are those of `s` shifted by one.
proof fn lemma_tail_index<T>(s: Seq<T>)
    requires
        s.len() > 0,
    ensures
        forall|i: int| 0 <= i < s.drop_first().len() ==> #[trigger] s.drop_first()[i] == s[i + 1],
{
}

pub proof fn lemma_sum_by_push<T>(s: Seq<T>, f: spec_fn(T) -> int, v: T)
    ensures
        sum_by(s.push(v), f) == sum_by(s, f) + f(v),
    decreases s.len(),
{
    if s.len() == 0 {
        assert(s.push(v).drop_first() =~= Seq::<T>::empty());
        assert(s.push(v)[0] == v);
        assert(sum_by(s.push(v).drop_first(), f) == 0);
    } else {
        assert(s.push(v).drop_first() =~= s.drop_first().push(v));
        assert(s.push(v)[0] == s[0]);
        lemma_sum_by_push(s.drop_first(), f, v);
    }
}

pub proof fn lemma_sum_by_remove<T>(s: Seq<T>, i: int, f: spec_fn(T) -> int)
    requires
        0 <= i < s.len(),
    ensures
        sum_by(s.remove(i), f) == sum_by(s, f) - f(s[i]),
    decreases s.len(),
{
    if i == 0 {
        assert(s.remove(0) =~= s.drop_first());
    } else {
        assert(s.remove(i).drop_first() =~= s.drop_first().remove(i - 1));
        assert(s.remove(i)[0] == s[0]);
        assert(s.drop_first()[i - 1] == s[i]);
        lemma_sum_by_remove(s.drop_first(), i - 1, f);
    }
}

pub proof fn lemma_sum_by_update<T>(s: Seq<T>, i: int, f: spec_fn(T) -> int, v: T)
    requires
        0 <= i < s.len(),
    ensures
        sum_by(s.update(i, v), f) == sum_by(s, f) - f(s[i]) + f(v),
    decreases s.len(),
{
    if i == 0 {
        assert(s.update(0, v).drop_first() =~= s.drop_first());
        assert(s.update(0, v)[0] == v);
    } else {
        assert(s.update(i, v).drop_first() =~= s.drop_first().update(i - 1, v));
        assert(s.update(i, v)[0] == s[0]);
        assert(s.drop_first()[i - 1] == s[i]);
        lemma_sum_by_update(s.drop_first(), i - 1, f, v);
    }
}

pub proof fn lemma_sum_by_concat<T>(a: Seq<T>, b: Seq<T>, f: spec_fn(T) -> int)
    ensures
        sum_by(a + b, f) == sum_by(a, f) + sum_by(b, f),
    decreases a.len(),
{
    if a.len() == 0 {
        assert(a + b =~= b);
    } else {
        assert((a + b).drop_first() =~= a.drop_first() + b);
        assert((a + b)[0] == a[0]);
        lemma_sum_by_concat(a.drop_first(), b, f);
    }
}

pub proof fn lemma_sum_by_le<T>(s: Seq<T>, f: spec_fn(T) -> int, g: spec_fn(T) -> int)
    requires
        forall|i: int| 0 <= i < s.len() ==> f(#[trigger] s[i]) <= g(s[i]),
    ensures
        sum_by(s, f) <= sum_by(s, g),
    decreases s.len(),
{
    if s.len() > 0 {
        let t = s.drop_first();
        lemma_tail_index(s);
        assert forall|i: int| 0 <= i < t.len() implies f(#[trigger] t[i]) <= g(t[i]) by {
            assert(t[i] == s[i + 1]);
        }
        lemma_sum_by_le(t, f, g);
    }
}

pub proof fn lemma_sum_by_nonneg<T>(s: Seq<T>, f: spec_fn(T) -> int)
    requires
        forall|i: int| 0 <= i < s.len() ==> f(#[trigger] s[i]) >= 0,
    ensures
        sum_by(s, f) >= 0,
    decreases s.len(),
{
    if s.len() > 0 {
        let t = s.drop_first();
        lemma_tail_index(s);
        assert forall|i: int| 0 <= i < t.len() implies f(#[trigger] t[i]) >= 0 by {
            assert(t[i] == s[i + 1]);
        }
        lemma_sum_by_nonneg(t, f);
    }
}

pub proof fn lemma_sum_by_zero<T>(s: Seq<T>, f: spec_fn(T) -> int)
    requires
        forall|i: int| 0 <= i < s.len() ==> f(#[trigger] s[i]) == 0,
    ensures
        sum_by(s, f) == 0,
    decreases s.len(),
{
    if s.len() > 0 {
        let t = s.drop_first();
        lemma_tail_index(s);
        assert forall|i: int| 0 <= i < t.len() implies f(#[trigger] t[i]) == 0 by {
            assert(t[i] == s[i + 1]);
        }
        lemma_sum_by_zero(t, f);
    }
}

/// A sum whose weight is non-negative everywhere is at least the weight of
/// any single element.
pub proof fn lemma_sum_by_lower<T>(s: Seq<T>, i: int, f: spec_fn(T) -> int)
    requires
        0 <= i < s.len(),
        forall|j: int| 0 <= j < s.len() ==> f(#[trigger] s[j]) >= 0,
    ensures
        sum_by(s, f) >= f(s[i]),
    decreases s.len(),
{
    let t = s.drop_first();
    lemma_tail_index(s);
    assert forall|j: int| 0 <= j < t.len() implies f(#[trigger] t[j]) >= 0 by {
        assert(t[j] == s[j + 1]);
    }
    if i == 0 {
        lemma_sum_by_nonneg(t, f);
    } else {
        assert(t[i - 1] == s[i]);
        lemma_sum_by_lower(t, i - 1, f);
    }
}

/// A sum whose weight vanishes everywhere except possibly at index `i` is
/// the weight of that element.
pub proof fn lemma_sum_by_single<T>(s: Seq<T>, i: int, f: spec_fn(T) -> int)
    requires
        0 <= i < s.len(),
        forall|j: int| 0 <= j < s.len() && j != i ==> f(#[trigger] s[j]) == 0,
    ensures
        sum_by(s, f) == f(s[i]),
    decreases s.len(),
{
    let t = s.drop_first();
    lemma_tail_index(s);
    if i == 0 {
        assert forall|j: int| 0 <= j < t.len() implies f(#[trigger] t[j]) == 0 by {
            assert(t[j] == s[j + 1]);
        }
        lemma_sum_by_zero(t, f);
    } else {
        assert forall|j: int| 0 <= j < t.len() && j != i - 1 implies f(#[trigger] t[j]) == 0 by {
            assert(t[j] == s[j + 1]);
        }
        assert(t[i - 1] == s[i]);
        lemma_sum_by_single(t, i - 1, f);
        assert(f(s[0]) == 0);
    }
}

pub proof fn lemma_find_by_none<T>(s: Seq<T>, p: spec_fn(T) -> bool)
    ensures
        (find_by(s, p) is None) <==> (forall|i: int| 0 <= i < s.len() ==> !p(#[trigger] s[i])),
    decreases s.len(),
{
    if s.len() == 0 {
    } else if p(s[0]) {
        assert(p(s[0]));
    } else {
        let t = s.drop_first();
        lemma_tail_index(s);
        lemma_find_by_none(t, p);
        if forall|i: int| 0 <= i < t.len() ==> !p(#[trigger] t[i]) {
            assert forall|i: int| 0 <= i < s.len() implies !p(#[trigger] s[i]) by {
                if i > 0 {
                    assert(t[i - 1] == s[i]);
                }
            }
        } else {
            let j = choose|j: int| 0 <= j < t.len() && p(#[trigger] t[j]);
            assert(s[j + 1] == t[j]);
        }
    }
}

/// If `s[i]` is the first element satisfying `p`, the lookup returns it.
pub proof fn lemma_find_by_first<T>(s: Seq<T>, p: spec_fn(T) -> bool, i: int)
    requires
        0 <= i < s.len(),
        p(s[i]),
        forall|j: int| 0 <= j < i ==> !p(#[trigger] s[j]),
    ensures
        find_by(s, p) == Some(s[i]),
    decreases s.len(),
{
    if i > 0 {
        let t = s.drop_first();
        lemma_tail_index(s);
        assert(t[i - 1] == s[i]);
        assert forall|j: int| 0 <= j < i - 1 implies !p(#[trigger] t[j]) by {
            assert(t[j] == s[j + 1]);
        }
        lemma_find_by_first(t, p, i - 1);
    }
}

/// If `s[i]` is the only element satisfying `p`, the lookup returns it.
pub proof fn lemma_find_by_unique<T>(s: Seq<T>, p: spec_fn(T) -> bool, i: int)
    requires
        0 <= i < s.len(),
        p(s[i]),
        forall|j: int| 0 <= j < s.len() && j != i ==> !p(#[trigger] s[j]),
    ensures
        find_by(s, p) == Some(s[i]),
{
    lemma_find_by_first(s, p, i);
}

/// A successful lookup returns an element of the sequence.
pub proof fn lemma_find_by_some<T>(s: Seq<T>, p: spec_fn(T) -> bool)
    ensures
        find_by(s, p) matches Some(x) ==> exists|i: int|
            0 <= i < s.len() && #[trigger] s[i] == x && p(x),
    decreases s.len(),
{
    if s.len() > 0 && !p(s[0]) {
        let t = s.drop_first();
        lemma_find_by_some(t, p);
        lemma_tail_index(s);
        match find_by(s, p) {
            Some(x) => {
                let i0 = choose|i: int| 0 <= i < t.len() && #[trigger] t[i] == x && p(x);
                assert(s[i0 + 1] == x);
            },
            None => {},
        }
    }
}

pub proof fn lemma_find_by_push<T>(s: Seq<T>, p: spec_fn(T) -> bool, v: T)
    ensures
        find_by(s.push(v), p) == (if find_by(s, p) is Some {
            find_by(s, p)
        } else if p(v) {
            Some(v)
        } else {
            None
        }),
    decreases s.len(),
{
    if s.len() == 0 {
        assert(s.push(v).drop_first() =~= Seq::<T>::empty());
        assert(s.push(v)[0] == v);
        assert(find_by(Seq::<T>::empty(), p) is None);
    } else {
        assert(s.push(v).drop_first() =~= s.drop_first().push(v));
        assert(s.push(v)[0] == s[0]);
        lemma_find_by_push(s.drop_first(), p, v);
    }
}

/// No element of the filtered sequence satisfies `p`, so a weight that
/// vanishes off `p` sums to zero over it.
pub proof fn lemma_sum_by_reject_zero<T>(s: Seq<T>, p: spec_fn(T) -> bool, f: spec_fn(T) -> int)
    requires
        forall|i: int| 0 <= i < s.len() && !p(#[trigger] s[i]) ==> f(s[i]) == 0,
    ensures
        sum_by(reject_by(s, p), f) == 0,
    decreases s.len(),
{
    if s.len() > 0 {
        let t = s.drop_first();
        lemma_tail_index(s);
        assert forall|i: int| 0 <= i < t.len() && !p(#[trigger] t[i]) implies f(t[i]) == 0 by {
            assert(t[i] == s[i + 1]);
        }
        lemma_sum_by_reject_zero(t, p, f);
        if !p(s[0]) {
            let rest = reject_by(t, p);
            assert((seq![s[0]] + rest).drop_first() =~= rest);
            assert((seq![s[0]] + rest)[0] == s[0]);
        }
    }
}

/// Filtering out elements on which `f` already vanishes does not change the
/// sum.
pub proof fn lemma_sum_by_reject_vanish<T>(s: Seq<T>, p: spec_fn(T) -> bool, f: spec_fn(T) -> int)
    requires
        forall|i: int| 0 <= i < s.len() && p(#[trigger] s[i]) ==> f(s[i]) == 0,
    ensures
        sum_by(reject_by(s, p), f) == sum_by(s, f),
    decreases s.len(),
{
    if s.len() > 0 {
        let t = s.drop_first();
        lemma_tail_index(s);
        assert forall|i: int| 0 <= i < t.len() && p(#[trigger] t[i]) implies f(t[i]) == 0 by {
            assert(t[i] == s[i + 1]);
        }
        lemma_sum_by_reject_vanish(t, p, f);
        if !p(s[0]) {
            let rest = reject_by(t, p);
            assert((seq![s[0]] + rest).drop_first() =~= rest);
            assert((seq![s[0]] + rest)[0] == s[0]);
        }
    }
}

/// Splitting a sum at the elements satisfying `p`: the part over those
/// elements (under a weight `fp` that vanishes off `p` and agrees with `f`
/// on `p`) plus the part over the rest.
pub proof fn lemma_sum_by_split<T>(
    s: Seq<T>,
    p: spec_fn(T) -> bool,
    f: spec_fn(T) -> int,
    fp: spec_fn(T) -> int,
)
    requires
        forall|i: int| 0 <= i < s.len() ==> fp(#[trigger] s[i]) == if p(s[i]) { f(s[i]) } else { 0 },
    ensures
        sum_by(s, f) == sum_by(s, fp) + sum_by(reject_by(s, p), f),
    decreases s.len(),
{
    if s.len() > 0 {
        let t = s.drop_first();
        lemma_tail_index(s);
        assert forall|i: int| 0 <= i < t.len() implies
            fp(#[trigger] t[i]) == if p(t[i]) { f(t[i]) } else { 0 } by {
            assert(t[i] == s[i + 1]);
        }
        lemma_sum_by_split(t, p, f, fp);
        if !p(s[0]) {
            let rest = reject_by(t, p);
            assert((seq![s[0]] + rest).drop_first() =~= rest);
            assert((seq![s[0]] + rest)[0] == s[0]);
        }
    }
}

/// Removing an element that the filter rejects anyway leaves the filtered
/// sequence unchanged.
pub proof fn lemma_reject_by_remove_match<T>(s: Seq<T>, p: spec_fn(T) -> bool, i: int)
    requires
        0 <= i < s.len(),
        p(s[i]),
    ensures
        reject_by(s.remove(i), p) == reject_by(s, p),
    decreases s.len(),
{
    if i == 0 {
        assert(s.remove(0) =~= s.drop_first());
    } else {
        assert(s.remove(i).drop_first() =~= s.drop_first().remove(i - 1));
        assert(s.remove(i)[0] == s[0]);
        assert(s.drop_first()[i - 1] == s[i]);
        lemma_reject_by_remove_match(s.drop_first(), p, i - 1);
    }
}

/// A sequence in which nothing matches is left whole by the filter.
pub proof fn lemma_reject_by_no_match<T>(s: Seq<T>, p: spec_fn(T) -> bool)
    requires
        forall|i: int| 0 <= i < s.len() ==> !p(#[trigger] s[i]),
    ensures
        reject_by(s, p) == s,
    decreases s.len(),
{
    if s.len() > 0 {
        let t = s.drop_first();
        lemma_tail_index(s);
        assert forall|i: int| 0 <= i < t.len() implies !p(#[trigger] t[i]) by {
            assert(t[i] == s[i + 1]);
        }
        lemma_reject_by_no_match(t, p);
        assert(seq![s[0]] + t =~= s);
    }
}

/// Replace the element at index `i`, preserving the order of the rest.
pub fn vec_update<T>(v: &mut Vec<T>, i: usize, x: T)
    requires
        i < old(v).len(),
    ensures
        final(v)@ == old(v)@.update(i as int, x),
{
    let _ = v.remove(i);
    v.insert(i, x);
    assert(old(v)@.remove(i as int).insert(i as int, x) =~= old(v)@.update(i as int, x));
}

} // verus!
