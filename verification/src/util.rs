//! Small generic helpers over sequences.

use vstd::prelude::*;
use vstd::laws_eq::obeys_concrete_eq;
use vstd::multiset::Multiset;
use vstd::std_specs::cmp::{PartialOrdIs, PartialOrdSpec};

verus! {

/// `j` is the first position of `y` in `s`.
pub open spec fn is_first_index<A>(s: Seq<A>, y: A, j: int) -> bool {
    &&& 0 <= j < s.len()
    &&& s[j] == y
    &&& forall|k: int| 0 <= k < j ==> s[k] != y
}

/// `s` with the first occurrence of `y` taken out, or `None` where `y` does not occur.
pub open spec fn without_first<A>(s: Seq<A>, y: A) -> Option<Seq<A>> {
    if s.contains(y) {
        Some(s.remove(choose|j: int| is_first_index(s, y, j)))
    } else {
        None
    }
}

/// Takes out of `xs`, for each element of `ys` in turn, the first occurrence of it.
/// `None` where some element of `ys` is missing by then.
pub open spec fn subtract<A>(xs: Seq<A>, ys: Seq<A>) -> Option<Seq<A>>
    decreases ys.len(),
{
    if ys.len() == 0 {
        Some(xs)
    } else {
        match subtract(xs, ys.drop_last()) {
            Some(zs) => without_first(zs, ys.last()),
            None => None,
        }
    }
}

proof fn lemma_first_index_unique<A>(s: Seq<A>, y: A, i: int, j: int)
    requires
        is_first_index(s, y, i),
        is_first_index(s, y, j),
    ensures
        i == j,
{
}

proof fn lemma_first_index_exists<A>(s: Seq<A>, y: A, i: int)
    requires
        0 <= i < s.len(),
        s[i] == y,
    ensures
        exists|j: int| is_first_index(s, y, j),
    decreases i,
{
    if exists|k: int| 0 <= k < i && s[k] == y {
        let k = choose|k: int| 0 <= k < i && s[k] == y;
        lemma_first_index_exists(s, y, k);
    } else {
        assert(is_first_index(s, y, i));
    }
}

proof fn lemma_without_first_multiset<A>(s: Seq<A>, y: A)
    ensures
        without_first(s, y) is Some <==> s.to_multiset().count(y) > 0,
        without_first(s, y) matches Some(t) ==> t.to_multiset() =~= s.to_multiset().remove(y),
{
    broadcast use vstd::seq_lib::group_to_multiset_ensures;

    if s.contains(y) {
        let i = choose|i: int| 0 <= i < s.len() && s[i] == y;
        lemma_first_index_exists(s, y, i);
        let j = choose|j: int| is_first_index(s, y, j);
        assert(s.remove(j).to_multiset() =~= s.to_multiset().remove(s[j]));
    }
}

/// What `subtract` computes is the difference of multisets: it succeeds exactly
/// when `ys` is contained in `xs` counting repetitions, and what is left holds
/// the elements of `xs` less those of `ys`.
pub proof fn lemma_subtract_is_multiset_difference<A>(xs: Seq<A>, ys: Seq<A>)
    ensures
        subtract(xs, ys) is Some <==> ys.to_multiset().subset_of(xs.to_multiset()),
        subtract(xs, ys) matches Some(zs) ==> zs.to_multiset() =~= xs.to_multiset().sub(
            ys.to_multiset(),
        ),
    decreases ys.len(),
{
    broadcast use vstd::seq_lib::group_to_multiset_ensures;
    broadcast use vstd::multiset::group_multiset_properties;

    if ys.len() == 0 {
        assert(ys.to_multiset() =~= Multiset::empty());
        assert(xs.to_multiset().sub(ys.to_multiset()) =~= xs.to_multiset());
    } else {
        let init = ys.drop_last();
        let y = ys.last();
        lemma_subtract_is_multiset_difference(xs, init);
        assert(ys =~= init.push(y));
        assert(ys.to_multiset() =~= init.to_multiset().insert(y));
        let mx = xs.to_multiset();
        let mi = init.to_multiset();
        match subtract(xs, init) {
            Some(zs) => {
                lemma_without_first_multiset(zs, y);
                assert(zs.to_multiset().count(y) == mx.count(y) - mi.count(y));
                if ys.to_multiset().subset_of(mx) {
                    assert(mi.subset_of(mx)) by {
                        assert forall|v: A| mi.count(v) <= mx.count(v) by {
                            assert(mi.count(v) <= ys.to_multiset().count(v));
                        }
                    }
                    assert(ys.to_multiset().count(y) <= mx.count(y));
                }
                if zs.to_multiset().count(y) > 0 {
                    assert forall|v: A| #[trigger]
                        ys.to_multiset().count(v) <= mx.count(v) by {
                        if v != y {
                            assert(zs.to_multiset().count(v) == mx.count(v) - mi.count(v));
                        }
                    }
                    let t = without_first(zs, y)->0;
                    assert(t.to_multiset() =~= mx.sub(ys.to_multiset()));
                }
            },
            None => {
                assert(!mi.subset_of(mx));
                let v = choose|v: A| !(mi.count(v) <= mx.count(v));
                assert(ys.to_multiset().count(v) >= mi.count(v));
            },
        }
    }
}

/// Removes from `xs`, for each element of `ys` in turn, its first occurrence.
/// Returns `None` where `ys` holds an element that is not left in `xs` by then.
/// The elements that stay keep their order.
pub fn subtract_vector<A: PartialEq>(xs: Vec<A>, ys: &[A]) -> (r: Option<Vec<A>>)
    requires
        obeys_concrete_eq::<A>(),
    ensures
        match r {
            Some(zs) => subtract(xs@, ys@) == Some(zs@),
            None => subtract(xs@, ys@) is None,
        },
{
    let mut zs = xs;
    let mut i: usize = 0;
    while i < ys.len()
        invariant
            obeys_concrete_eq::<A>(),
            i <= ys.len(),
            subtract(xs@, ys@.take(i as int)) == Some(zs@),
        decreases ys.len() - i,
    {
        proof {
            reveal(obeys_concrete_eq);
        }
        let y = &ys[i];
        let mut j: usize = 0;
        let mut found = false;
        while j < zs.len()
            invariant_except_break
                !found,
            invariant
                obeys_concrete_eq::<A>(),
                j <= zs.len(),
                forall|k: int| 0 <= k < j ==> zs@[k] != *y,
            ensures
                j <= zs.len(),
                forall|k: int| 0 <= k < j ==> zs@[k] != *y,
                found ==> j < zs.len() && zs@[j as int] == *y,
                !found ==> j == zs.len(),
            decreases zs.len() - j,
        {
            proof {
                reveal(obeys_concrete_eq);
            }
            if zs[j] == *y {
                found = true;
                break;
            }
            j = j + 1;
        }
        assert(ys@.take(i + 1).drop_last() =~= ys@.take(i as int));
        assert(ys@.take(i + 1).last() == ys@[i as int]);
        if !found {
            assert(!zs@.contains(*y));
            assert(subtract(xs@, ys@.take(i + 1)) is None);
            proof {
                lemma_subtract_none_extends(xs@, ys@, i as int + 1);
            }
            assert(ys@.take(ys@.len() as int) =~= ys@);
            return None;
        }
        proof {
            assert(is_first_index(zs@, *y, j as int));
            let c = choose|c: int| is_first_index(zs@, *y, c);
            lemma_first_index_unique(zs@, *y, c, j as int);
        }
        zs.remove(j);
        i = i + 1;
    }
    assert(ys@.take(i as int) =~= ys@);
    Some(zs)
}

/// Once `subtract` fails on a prefix of `ys`, it fails on every longer prefix.
proof fn lemma_subtract_none_extends<A>(xs: Seq<A>, ys: Seq<A>, n: int)
    requires
        0 <= n <= ys.len(),
        subtract(xs, ys.take(n)) is None,
    ensures
        subtract(xs, ys.take(ys.len() as int)) is None,
    decreases ys.len() - n,
{
    if n < ys.len() {
        assert(ys.take(n + 1).drop_last() =~= ys.take(n));
        lemma_subtract_none_extends(xs, ys, n + 1);
    }
}

/// Each removal takes out one element, so what is left is as much shorter as
/// `ys` is long.
pub proof fn lemma_subtract_len<A>(xs: Seq<A>, ys: Seq<A>)
    ensures
        subtract(xs, ys) matches Some(zs) ==> zs.len() == xs.len() - ys.len(),
    decreases ys.len(),
{
    if ys.len() > 0 {
        lemma_subtract_len(xs, ys.drop_last());
        if let Some(zs) = subtract(xs, ys.drop_last()) {
            if zs.contains(ys.last()) {
                let i = choose|i: int| 0 <= i < zs.len() && zs[i] == ys.last();
                lemma_first_index_exists(zs, ys.last(), i);
            }
        }
    }
}

/// Given a pair `(a, b)` and a value `x`, returns whichever of the pair is not
/// `x`; `None` where neither is `x`. Where both are `x`, returns `b`.
pub fn other<T: Eq>(pair: (T, T), x: T) -> (r: Option<T>)
    requires
        obeys_concrete_eq::<T>(),
    ensures
        r == (if x == pair.0 {
            Some(pair.1)
        } else if x == pair.1 {
            Some(pair.0)
        } else {
            None
        }),
{
    proof {
        reveal(obeys_concrete_eq);
    }
    let (a, b) = pair;
    if x == a {
        Some(b)
    } else if x == b {
        Some(a)
    } else {
        None
    }
}

/// Position `i` holds a key that is at least as big as every key.
pub open spec fn is_maximal<B: PartialOrd>(keys: Seq<B>, i: int) -> bool {
    forall|j: int| #![trigger keys[j]] 0 <= j < keys.len() ==> keys[i].is_ge(&keys[j])
}

/// The positions below `n` whose keys are maximal, in increasing order.
pub open spec fn maximal_positions<B: PartialOrd>(keys: Seq<B>, n: int) -> Seq<int>
    decreases n,
{
    if n <= 0 {
        Seq::empty()
    } else if is_maximal(keys, n - 1) {
        maximal_positions(keys, n - 1).push(n - 1)
    } else {
        maximal_positions(keys, n - 1)
    }
}

/// The positions of all maximal keys, in increasing order.
pub open spec fn maxima_positions<B: PartialOrd>(keys: Seq<B>) -> Seq<int> {
    maximal_positions(keys, keys.len() as int)
}

/// Returns the "biggest" elements of `xs`, in their order, where `f` gives the
/// magnitude of each element: those whose magnitude is at least that of every
/// element. `f` is applied once to each element.
pub fn maxima_by<'a, A, B: Ord, F>(xs: &'a Vec<A>, f: F) -> (r: Vec<&'a A>) where
    F: Fn(&A) -> B,

    requires
        B::obeys_partial_cmp_spec(),
        forall|i: int| 0 <= i < xs.len() ==> f.requires((&xs@[i],)),
    ensures
        exists|keys: Seq<B>|
            {
                &&& keys.len() == xs.len()
                &&& forall|i: int| 0 <= i < xs.len() ==> f.ensures((&xs@[i],), #[trigger] keys[i])
                &&& r@.len() == maxima_positions(keys).len()
                &&& forall|k: int|
                    0 <= k < r@.len() ==> *r@[k] == xs@[#[trigger] maxima_positions(keys)[k]]
            },
{
    let mut keys: Vec<B> = Vec::new();
    let mut i: usize = 0;
    while i < xs.len()
        invariant
            i <= xs.len(),
            keys.len() == i,
            forall|k: int| 0 <= k < xs.len() ==> f.requires((&xs@[k],)),
            forall|k: int| 0 <= k < i ==> f.ensures((&xs@[k],), #[trigger] keys@[k]),
        decreases xs.len() - i,
    {
        let key = f(&xs[i]);
        keys.push(key);
        i = i + 1;
    }
    let mut maxes: Vec<&'a A> = Vec::new();
    let mut i: usize = 0;
    let ghost mut gi: int = 0;
    while i < keys.len()
        invariant
            B::obeys_partial_cmp_spec(),
            gi == i,
            i <= keys.len(),
            keys.len() == xs.len(),
            maxes@.len() == maximal_positions(keys@, gi).len(),
            forall|k: int|
                0 <= k < maxes@.len() ==> *maxes@[k] == xs@[#[trigger] maximal_positions(
                    keys@,
                    gi,
                )[k]],
        decreases keys.len() - i,
    {
        let mut biggest = true;
        let mut j: usize = 0;
        while j < keys.len()
            invariant
                B::obeys_partial_cmp_spec(),
                gi == i,
                i < keys.len(),
                j <= keys.len(),
                biggest == forall|m: int| #![trigger keys@[m]] 0 <= m < j ==> keys@[gi].is_ge(&keys@[m]),
            decreases keys.len() - j,
        {
            let ge = keys[i] >= keys[j];
            biggest = biggest && ge;
            j = j + 1;
        }
        assert(biggest == is_maximal(keys@, gi));
        if biggest {
            maxes.push(&xs[i]);
        }
        i = i + 1;
        proof {
            gi = gi + 1;
        }
    }
    maxes
}

} // verus!
