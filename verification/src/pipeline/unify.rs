use vstd::prelude::*;

use crate::evaluate::shared::DataType;
use crate::pipeline::vector::{datatypes, PersistentVec};

verus! {

/// Decides whether two terms denote the same value.
pub trait Unify<T> {
    fn unify(self, t1: T, t2: T) -> bool;
}

/// The two vectors hold the same elements with the same multiplicities.
pub open spec fn same_elements(v1: PersistentVec<DataType>, v2: PersistentVec<DataType>) -> bool {
    datatypes(v1).to_multiset() == datatypes(v2).to_multiset()
}

/// Whether the two vectors hold the same elements with the same multiplicities:
/// both are sorted and then compared.
pub fn perm_equiv(v1: &PersistentVec<DataType>, v2: &PersistentVec<DataType>) -> (r: bool)
    ensures
        r == same_elements(*v1, *v2),
{
    broadcast use vstd::seq_lib::group_to_multiset_ensures;

    if v1.len() != v2.len() {
        proof {
            assert(datatypes(*v1).len() == datatypes(*v1).to_multiset().len());
            assert(datatypes(*v2).len() == datatypes(*v2).to_multiset().len());
        }
        return false;
    }
    let mut s1 = v1.duplicate();
    let mut s2 = v2.duplicate();
    s1.sort();
    s2.sort();
    s1.equals(&s2)
}

/// What `perm_equiv` decides is an equivalence: every vector is a
/// permutation of itself, and the relation is symmetric and transitive.
pub proof fn law_perm_equiv_equivalence(
    a: PersistentVec<DataType>,
    b: PersistentVec<DataType>,
    c: PersistentVec<DataType>,
)
    ensures
        same_elements(a, a),
        same_elements(a, b) ==> same_elements(b, a),
        same_elements(a, b) && same_elements(b, c) ==> same_elements(a, c),
{
}

/// Vectors that `perm_equiv` relates have the same length and hold the same
/// elements; equal vectors are related.
pub proof fn law_perm_equiv_same_length(a: PersistentVec<DataType>, b: PersistentVec<DataType>)
    ensures
        same_elements(a, b) ==> datatypes(a).len() == datatypes(b).len(),
        same_elements(a, b) ==> forall|x: DataType| datatypes(a).contains(x) <==> datatypes(b).contains(x),
        datatypes(a) == datatypes(b) ==> same_elements(a, b),
{
    broadcast use vstd::seq_lib::group_to_multiset_ensures;

    assert(datatypes(a).len() == datatypes(a).to_multiset().len());
    assert(datatypes(b).len() == datatypes(b).to_multiset().len());
    if same_elements(a, b) {
        assert forall|x: DataType| datatypes(a).contains(x) <==> datatypes(b).contains(x) by {
            assert(datatypes(a).contains(x) <==> datatypes(a).to_multiset().count(x) > 0);
            assert(datatypes(b).contains(x) <==> datatypes(b).to_multiset().count(x) > 0);
        }
    }
}

/// Unification of two relations: their scopes must be the same list of types,
/// and then their bodies must unify.
pub fn unify_relation<B, F: Fn(&B, &B) -> bool>(
    unify: &F,
    tys1: &PersistentVec<DataType>,
    body1: &B,
    tys2: &PersistentVec<DataType>,
    body2: &B,
) -> (r: bool)
    requires
        unify.requires((body1, body2)),
    ensures
        datatypes(*tys1) != datatypes(*tys2) ==> !r,
        datatypes(*tys1) == datatypes(*tys2) ==> unify.ensures((body1, body2), r),
{
    if !tys1.equals(tys2) {
        return false;
    }
    unify(body1, body2)
}

/// The most candidate variable bijections that the unification of two scoped
/// terms tries.
pub const MAX_CANDIDATES: usize = 24;

/// Unification of two scoped terms: their scopes must be permutations of each
/// other; then the candidate bijections between their variables are tried in
/// order, at most `MAX_CANDIDATES` of them, until one passes `check`.
pub fn unify_scoped<C, F: Fn(&C) -> bool>(
    check: &F,
    scopes1: &PersistentVec<DataType>,
    scopes2: &PersistentVec<DataType>,
    candidates: &Vec<C>,
) -> (r: bool)
    requires
        forall|k: int| 0 <= k < candidates.len() ==> check.requires((&candidates[k],)),
    ensures
        !same_elements(*scopes1, *scopes2) ==> !r,
        r ==> exists|k: int|
            0 <= k < candidates.len() && k < MAX_CANDIDATES && #[trigger] check.ensures(
                (&candidates[k],),
                true,
            ),
        !r && same_elements(*scopes1, *scopes2) ==> forall|k: int|
            0 <= k < candidates.len() && k < MAX_CANDIDATES ==> #[trigger] check.ensures(
                (&candidates[k],),
                false,
            ),
{
    if !perm_equiv(scopes1, scopes2) {
        return false;
    }
    let mut k: usize = 0;
    while k < candidates.len() && k < MAX_CANDIDATES
        invariant
            same_elements(*scopes1, *scopes2),
            k <= candidates.len(),
            k <= MAX_CANDIDATES,
            forall|q: int| 0 <= q < candidates.len() ==> check.requires((&candidates[q],)),
            forall|q: int| 0 <= q < k ==> #[trigger] check.ensures((&candidates[q],), false),
        decreases candidates.len() - k,
    {
        if check(&candidates[k]) {
            return true;
        }
        k = k + 1;
    }
    false
}

/// Pointwise unification of two lists: they unify when they have the same
/// length and the terms at every position unify. The pairs are tried in
/// order, and the first pair that does not unify ends the search.
pub fn unify_pointwise<T, F: Fn(&T, &T) -> bool>(unify: &F, ts1: &Vec<T>, ts2: &Vec<T>) -> (r: bool)
    requires
        forall|i: int| 0 <= i < ts1.len() && 0 <= i < ts2.len() ==> unify.requires((&ts1[i], &ts2[i])),
    ensures
        r ==> ts1.len() == ts2.len(),
        r ==> forall|i: int| 0 <= i < ts1.len() ==> unify.ensures((&ts1[i], &ts2[i]), true),
        !r ==> ts1.len() != ts2.len() || exists|i: int|
            0 <= i < ts1.len() && #[trigger] unify.ensures((&ts1[i], &ts2[i]), false) && forall|j: int|
                0 <= j < i ==> unify.ensures((&ts1[j], &ts2[j]), true),
{
    if ts1.len() != ts2.len() {
        return false;
    }
    let n = ts1.len();
    let mut i: usize = 0;
    while i < n
        invariant
            n == ts1.len() == ts2.len(),
            i <= n,
            forall|j: int| 0 <= j < n ==> unify.requires((&ts1[j], &ts2[j])),
            forall|j: int| 0 <= j < i ==> unify.ensures((&ts1[j], &ts2[j]), true),
        decreases n - i,
    {
        let ok = unify(&ts1[i], &ts2[i]);
        if !ok {
            return false;
        }
        i = i + 1;
    }
    true
}

/// `p` matches each of `n` positions to a distinct position below `n`.
pub open spec fn is_matching(p: Seq<int>, n: nat) -> bool {
    &&& p.len() == n
    &&& forall|i: int| 0 <= i < n ==> 0 <= #[trigger] p[i] < n
    &&& forall|i: int, j: int| 0 <= i < j < n ==> p[i] != p[j]
}

/// Removing one element of a sequence without duplicates leaves the other
/// elements, still without duplicates, and drops the removed one.
pub proof fn lemma_remove_distinct(s: Seq<usize>, k: int)
    requires
        0 <= k < s.len(),
        s.no_duplicates(),
    ensures
        s.remove(k).len() == s.len() - 1,
        s.remove(k).no_duplicates(),
        !s.remove(k).contains(s[k]),
        forall|q: int| 0 <= q < s.remove(k).len() ==> s.contains(#[trigger] s.remove(k)[q]),
{
    let r = s.remove(k);
    assert forall|q: int| 0 <= q < r.len() implies r[q] == (if q < k { s[q] } else { s[q + 1] }) by {}
    assert forall|a: int, b: int| 0 <= a < b < r.len() implies r[a] != r[b] by {
        let ia = if a < k { a } else { a + 1 };
        let ib = if b < k { b } else { b + 1 };
        assert(r[a] == s[ia] && r[b] == s[ib]);
    }
    assert forall|q: int| 0 <= q < r.len() implies r[q] != s[k] by {
        let iq = if q < k { q } else { q + 1 };
        assert(r[q] == s[iq]);
    }
    assert forall|q: int| 0 <= q < r.len() implies s.contains(#[trigger] r[q]) by {
        let iq = if q < k { q } else { q + 1 };
        assert(r[q] == s[iq]);
    }
}

/// The term `u1[i]` unifies with none of the terms of `u2` at the positions
/// `rest`, which are as many as the terms of `u1` from `i` on.
pub open spec fn left_unmatched<T, F: Fn(&T, &T) -> bool>(
    unify: F,
    u1: Seq<T>,
    u2: Seq<T>,
    i: int,
    rest: Seq<usize>,
) -> bool {
    &&& 0 <= i < u1.len()
    &&& rest.len() == u1.len() - i
    &&& rest.no_duplicates()
    &&& forall|k: int|
        0 <= k < rest.len() ==> (#[trigger] rest[k] as int) < u2.len() && unify.ensures(
            (&u1[i], &u2[rest[k] as int]),
            false,
        )
}

/// The first position `k`, from `from` on, whose right term `rest[k]` the
/// left term `i` is related to.
pub open spec fn first_partner(rel: spec_fn(int, int) -> bool, i: int, rest: Seq<usize>, from: int) -> Option<int>
    decreases rest.len() - from,
{
    if from < 0 || from >= rest.len() {
        None
    } else if rel(i, rest[from] as int) {
        Some(from)
    } else {
        first_partner(rel, i, rest, from + 1)
    }
}

/// The greedy matching of the left terms `i..n` to the free right positions
/// `rest` succeeds: each left term in turn takes its first related free
/// position.
pub open spec fn greedy_matches(rel: spec_fn(int, int) -> bool, i: int, n: int, rest: Seq<usize>) -> bool
    decreases n - i,
{
    if i >= n {
        true
    } else {
        match first_partner(rel, i, rest, 0) {
            Some(k) => greedy_matches(rel, i + 1, n, rest.remove(k)),
            None => false,
        }
    }
}

/// `rel` agrees with every outcome that `unify` can give on a left term and a
/// right term.
pub open spec fn decides<T, F: Fn(&T, &T) -> bool>(
    unify: F,
    u1: Seq<T>,
    u2: Seq<T>,
    rel: spec_fn(int, int) -> bool,
) -> bool {
    forall|i: int, j: int, b: bool|
        0 <= i < u1.len() && 0 <= j < u2.len() && #[trigger] unify.ensures((&u1[i], &u2[j]), b) ==> b
            == rel(i, j)
}

/// The positions `0..n` in order.
pub open spec fn positions(n: nat) -> Seq<usize> {
    Seq::new(n, |k: int| k as usize)
}

/// Unification of two bags of terms: every term of `u1`, in order, takes the
/// first term of `u2` not taken yet that it unifies with. The bags unify when
/// they have the same size and every term of `u1` finds a partner.
pub fn unify_multiset<T, F: Fn(&T, &T) -> bool>(unify: &F, u1: &Vec<T>, u2: &Vec<T>) -> (r: bool)
    requires
        forall|i: int, j: int| 0 <= i < u1.len() && 0 <= j < u2.len() ==> unify.requires(
            (&u1[i], &u2[j]),
        ),
    ensures
        r ==> u1.len() == u2.len(),
        r ==> exists|p: Seq<int>|
            is_matching(p, u1.len() as nat) && forall|i: int|
                0 <= i < u1.len() ==> unify.ensures((&u1[i], #[trigger] &u2[p[i]]), true),
        !r && u1.len() == u2.len() ==> exists|i: int, rest: Seq<usize>| #[trigger]
            left_unmatched(*unify, u1@, u2@, i, rest),
        u1.len() == u2.len() ==> forall|rel: spec_fn(int, int) -> bool| #[trigger]
            decides(*unify, u1@, u2@, rel) ==> r == greedy_matches(
                rel,
                0,
                u1.len() as int,
                positions(u1.len() as nat),
            ),
{
    if u1.len() != u2.len() {
        return false;
    }
    let n = u1.len();
    let mut rest: Vec<usize> = Vec::new();
    let mut j: usize = 0;
    while j < n
        invariant
            j <= n,
            rest@.len() == j,
            forall|k: int| 0 <= k < j ==> rest@[k] == k,
        decreases n - j,
    {
        rest.push(j);
        j = j + 1;
    }
    proof {
        assert(rest@ =~= positions(n as nat));
    }
    let ghost mut p: Seq<int> = Seq::empty();
    let mut i: usize = 0;
    while i < n
        invariant
            n == u1.len() == u2.len(),
            i <= n,
            forall|a: int, b: int| 0 <= a < n && 0 <= b < n ==> unify.requires((&u1[a], &u2[b])),
            p.len() == i,
            rest@.len() == n - i,
            rest@.no_duplicates(),
            forall|k: int| 0 <= k < rest@.len() ==> (#[trigger] rest@[k] as int) < n,
            forall|a: int| 0 <= a < i ==> 0 <= #[trigger] p[a] < n,
            forall|a: int, b: int| 0 <= a < b < i ==> p[a] != p[b],
            forall|a: int| 0 <= a < i ==> !rest@.contains(#[trigger] p[a] as usize),
            forall|a: int| 0 <= a < i ==> unify.ensures((&u1[a], #[trigger] &u2[p[a]]), true),
            forall|rel: spec_fn(int, int) -> bool| #[trigger]
                decides(*unify, u1@, u2@, rel) ==> greedy_matches(rel, 0, n as int, positions(n as nat))
                    == greedy_matches(rel, i as int, n as int, rest@),
        decreases n - i,
    {
        let ghost rest0 = rest@;
        let ghost mut taken: int = 0;
        let mut k: usize = 0;
        let mut found = false;
        while k < rest.len() && !found
            invariant
                n == u1.len() == u2.len(),
                i < n,
                forall|a: int, b: int| 0 <= a < n && 0 <= b < n ==> unify.requires((&u1[a], &u2[b])),
                rest0.len() == n - i,
                rest0.no_duplicates(),
                forall|q: int| 0 <= q < rest0.len() ==> (#[trigger] rest0[q] as int) < n,
                !found ==> rest@ == rest0 && k <= rest0.len(),
                !found ==> forall|q: int|
                    0 <= q < k ==> unify.ensures((&u1[i as int], #[trigger] &u2[rest0[q] as int]), false),
                found ==> 0 <= taken < rest0.len() && rest@ == rest0.remove(taken),
                found ==> unify.ensures((&u1[i as int], &u2[rest0[taken] as int]), true),
                !found ==> forall|rel: spec_fn(int, int) -> bool| #[trigger]
                    decides(*unify, u1@, u2@, rel) ==> first_partner(rel, i as int, rest0, 0)
                        == first_partner(rel, i as int, rest0, k as int),
                found ==> forall|rel: spec_fn(int, int) -> bool| #[trigger]
                    decides(*unify, u1@, u2@, rel) ==> first_partner(rel, i as int, rest0, 0)
                        == Some(taken),
            decreases rest0.len() - k + (if found { 0int } else { 1int }),
        {
            let ok = unify(&u1[i], &u2[rest[k]]);
            proof {
                assert forall|rel: spec_fn(int, int) -> bool| #[trigger]
                    decides(*unify, u1@, u2@, rel) implies rel(i as int, rest0[k as int] as int) == ok by {
                    assert(unify.ensures((&u1[i as int], &u2[rest0[k as int] as int]), ok));
                }
            }
            if ok {
                rest.remove(k);
                proof {
                    taken = k as int;
                }
                found = true;
            } else {
                k = k + 1;
            }
        }
        if !found {
            proof {
                assert(left_unmatched(*unify, u1@, u2@, i as int, rest0));
            }
            return false;
        }
        proof {
            lemma_remove_distinct(rest0, taken);
            let partner = rest0[taken];
            assert forall|a: int| 0 <= a < i implies p[a] != partner as int by {
                assert(rest0.contains(partner));
            }
            let p2 = p.push(partner as int);
            assert forall|a: int| 0 <= a < i + 1 implies !rest@.contains(#[trigger] p2[a] as usize) by {
                if a < i {
                    if rest@.contains(p2[a] as usize) {
                        let q = choose|q: int| 0 <= q < rest@.len() && rest@[q] == p2[a] as usize;
                        assert(rest0.contains(rest@[q]));
                    }
                }
            }
            assert forall|q: int| 0 <= q < rest@.len() implies (#[trigger] rest@[q] as int) < n by {
                assert(rest0.contains(rest@[q]));
            }
            p = p2;
        }
        i = i + 1;
    }
    proof {
        assert(is_matching(p, u1.len() as nat));
    }
    true
}

/// `(i1, j1)` comes before `(i2, j2)` in lexicographic order.
pub open spec fn pair_before(a: (usize, usize), b: (usize, usize)) -> bool {
    a.0 < b.0 || (a.0 == b.0 && a.1 < b.1)
}

/// The pairs of positions `i < j` of `items` whose elements are related, in
/// the order in which the pairs are enumerated (ascending lexicographic order),
/// each pair tested once.
pub fn related_pairs<T, F: Fn(&T, &T) -> bool>(related: &F, items: &Vec<T>) -> (pairs: Vec<(usize, usize)>)
    requires
        forall|i: int, j: int| 0 <= i < j < items.len() ==> related.requires((&items[i], &items[j])),
    ensures
        forall|k: int| 0 <= k < pairs@.len() ==> (#[trigger] pairs@[k]).0 < pairs@[k].1 < items.len(),
        forall|k: int| 0 <= k < pairs@.len() ==> related.ensures(
            (&items[(#[trigger] pairs@[k]).0 as int], &items[pairs@[k].1 as int]),
            true,
        ),
        forall|k1: int, k2: int| 0 <= k1 < k2 < pairs@.len() ==> pair_before(pairs@[k1], pairs@[k2]),
        forall|i: usize, j: usize| i < j < items.len() ==> pairs@.contains((i, j)) || related.ensures(
            (&items[i as int], &items[j as int]),
            false,
        ),
{
    let n = items.len();
    let mut pairs: Vec<(usize, usize)> = Vec::new();
    let mut i: usize = 0;
    while i < n
        invariant
            n == items.len(),
            i <= n,
            forall|a: int, b: int| 0 <= a < b < n ==> related.requires((&items[a], &items[b])),
            forall|k: int| 0 <= k < pairs@.len() ==> (#[trigger] pairs@[k]).0 < pairs@[k].1 < n,
            forall|k: int| 0 <= k < pairs@.len() ==> (#[trigger] pairs@[k]).0 < i,
            forall|k: int| 0 <= k < pairs@.len() ==> related.ensures(
                (&items[(#[trigger] pairs@[k]).0 as int], &items[pairs@[k].1 as int]),
                true,
            ),
            forall|k1: int, k2: int| 0 <= k1 < k2 < pairs@.len() ==> pair_before(pairs@[k1], pairs@[k2]),
            forall|a: usize, b: usize| a < b < n && a < i ==> pairs@.contains((a, b)) || related.ensures(
                (&items[a as int], &items[b as int]),
                false,
            ),
        decreases n - i,
    {
        let mut j: usize = i + 1;
        while j < n
            invariant
                n == items.len(),
                i < n,
                i < j <= n,
                forall|a: int, b: int| 0 <= a < b < n ==> related.requires((&items[a], &items[b])),
                forall|k: int| 0 <= k < pairs@.len() ==> (#[trigger] pairs@[k]).0 < pairs@[k].1 < n,
                forall|k: int| 0 <= k < pairs@.len() ==> (#[trigger] pairs@[k]).0 < i
                    || (pairs@[k].0 == i && pairs@[k].1 < j),
                forall|k: int| 0 <= k < pairs@.len() ==> related.ensures(
                    (&items[(#[trigger] pairs@[k]).0 as int], &items[pairs@[k].1 as int]),
                    true,
                ),
                forall|k1: int, k2: int| 0 <= k1 < k2 < pairs@.len() ==> pair_before(pairs@[k1], pairs@[k2]),
                forall|a: usize, b: usize| a < b < n && (a < i || (a == i && b < j)) ==> pairs@.contains((a, b))
                    || related.ensures((&items[a as int], &items[b as int]), false),
            decreases n - j,
        {
            let ghost before = pairs@;
            if related(&items[i], &items[j]) {
                pairs.push((i, j));
                proof {
                    assert forall|a: usize, b: usize| a < b < n && (a < i || (a == i && b < j + 1))
                        implies pairs@.contains((a, b)) || related.ensures((&items[a as int], &items[b as int]), false) by {
                        if a == i && b == j {
                            assert(pairs@[pairs@.len() - 1] == (a, b));
                        } else if before.contains((a, b)) {
                            let q = choose|q: int| 0 <= q < before.len() && before[q] == (a, b);
                            assert(pairs@[q] == (a, b));
                        }
                    }
                }
            }
            j = j + 1;
        }
        i = i + 1;
    }
    pairs
}

/// `s` with every occurrence of `pat` replaced by `by`, the occurrences found
/// from left to right without overlap.
pub open spec fn replaced(s: Seq<char>, pat: Seq<char>, by: Seq<char>) -> Seq<char>
    decreases s.len(),
{
    if pat.len() == 0 || s.len() < pat.len() {
        s
    } else if s.take(pat.len() as int) == pat {
        by + replaced(s.skip(pat.len() as int), pat, by)
    } else {
        seq![s[0]] + replaced(s.skip(1), pat, by)
    }
}

/// `pat` occurs in `s` starting at position `k`.
pub open spec fn occurs_at_pos(s: Seq<char>, pat: Seq<char>, k: int) -> bool {
    0 <= k && k + pat.len() <= s.len() && s.subrange(k, k + pat.len()) == pat
}

/// A text in which the pattern does not occur is left as it is.
pub proof fn law_replaced_absent(s: Seq<char>, pat: Seq<char>, by: Seq<char>)
    requires
        pat.len() > 0,
        forall|k: int| !#[trigger] occurs_at_pos(s, pat, k),
    ensures
        replaced(s, pat, by) == s,
    decreases s.len(),
{
    if s.len() >= pat.len() {
        assert(!occurs_at_pos(s, pat, 0));
        assert(s.take(pat.len() as int) =~= s.subrange(0int, 0int + pat.len()));
        let t = s.skip(1);
        assert forall|k: int| !#[trigger] occurs_at_pos(t, pat, k) by {
            if occurs_at_pos(t, pat, k) {
                assert(s.subrange(k + 1, k + 1 + pat.len()) =~= t.subrange(k, k + pat.len()));
                assert(occurs_at_pos(s, pat, k + 1));
            }
        }
        law_replaced_absent(t, pat, by);
        assert(seq![s[0]] + t =~= s);
    }
}

/// Every occurrence is replaced, not only the first: a text that starts with
/// the pattern becomes the replacement followed by the rest with its own
/// occurrences replaced.
pub proof fn law_replaced_leading(pat: Seq<char>, by: Seq<char>, rest: Seq<char>)
    requires
        pat.len() > 0,
    ensures
        replaced(pat + rest, pat, by) == by + replaced(rest, pat, by),
{
    assert((pat + rest).take(pat.len() as int) =~= pat);
    assert((pat + rest).skip(pat.len() as int) =~= rest);
}

/// Replacing in a text that does not start with the pattern keeps its first
/// character and replaces in the rest.
pub proof fn law_replaced_keeps_other(c: char, pat: Seq<char>, by: Seq<char>, rest: Seq<char>)
    requires
        pat.len() > 0,
        !occurs_at_pos(seq![c] + rest, pat, 0),
    ensures
        replaced(seq![c] + rest, pat, by) == seq![c] + replaced(rest, pat, by),
{
    let s = seq![c] + rest;
    assert(s.skip(1) =~= rest);
    if s.len() >= pat.len() {
        assert(s.take(pat.len() as int) =~= s.subrange(0int, 0int + pat.len()));
    }
}

/// `s` without the prefix `pre`, or `s` itself where it does not start with `pre`.
pub open spec fn without_prefix(s: Seq<char>, pre: Seq<char>) -> Seq<char> {
    if pre.len() <= s.len() && s.take(pre.len() as int) == pre {
        s.skip(pre.len() as int)
    } else {
        s
    }
}

/// `s` ends with `suffix`.
pub open spec fn ends_with(s: Seq<char>, suffix: Seq<char>) -> bool {
    suffix.len() <= s.len() && s.skip(s.len() - suffix.len()) == suffix
}

/// The script handed to the external SMT solver for an SMT-LIB dump of a
/// query: the conjunction and disjunction operators renamed to their neutral
/// constants, products and sums given a neutral first operand, the status
/// header dropped, and the logic set to `ALL`.
pub open spec fn smt_script(dump: Seq<char>) -> Seq<char> {
    let s1 = replaced(dump, " and"@, " true"@);
    let s2 = replaced(s1, " or"@, " false"@);
    let s3 = replaced(s2, "(* "@, "(* 1 "@);
    let s4 = replaced(s3, "(+ "@, "(+ 0 "@);
    "(set-logic ALL)\n"@ + without_prefix(s4, "; \n(set-info :status )"@)
}

/// The characters of a string slice.
fn chars_of(s: &str) -> (r: Vec<char>)
    ensures
        r@ == s@,
{
    let mut r: Vec<char> = Vec::new();
    for c in it: s.chars()
        invariant
            r@ == it.seq().take(it.index() as int),
    {
        r.push(c);
    }
    r
}

/// `String::push`: appends the character.
#[verifier::external_body]
pub(crate) fn push_char(s: &mut String, c: char)
    ensures
        final(s)@ == old(s)@.push(c),
{
    s.push(c)
}

/// A string of the characters of `cs` from position `from` on.
fn string_from(cs: &Vec<char>, from: usize) -> (r: String)
    requires
        from <= cs@.len(),
    ensures
        r@ == cs@.skip(from as int),
{
    let mut r = String::new();
    let mut i = from;
    while i < cs.len()
        invariant
            from <= i <= cs@.len(),
            r@ == cs@.subrange(from as int, i as int),
        decreases cs.len() - i,
    {
        push_char(&mut r, cs[i]);
        proof {
            assert(cs@.subrange(from as int, i + 1) =~= cs@.subrange(from as int, i as int).push(cs@[i as int]));
        }
        i = i + 1;
    }
    proof {
        assert(cs@.subrange(from as int, cs@.len() as int) =~= cs@.skip(from as int));
    }
    r
}

/// Whether `pat` occurs in `s` at position `at`.
fn occurs_at(s: &Vec<char>, pat: &Vec<char>, at: usize) -> (r: bool)
    requires
        at <= s@.len(),
    ensures
        r == (pat@.len() <= s@.len() - at && s@.skip(at as int).take(pat@.len() as int) == pat@),
{
    if pat.len() > s.len() - at {
        return false;
    }
    let mut q: usize = 0;
    while q < pat.len()
        invariant
            at + pat@.len() <= s@.len(),
            q <= pat@.len(),
            forall|k: int| 0 <= k < q ==> s@[at + k] == pat@[k],
        decreases pat.len() - q,
    {
        assert(at + q < s.len());
        if s[at + q] != pat[q] {
            proof {
                assert(s@.skip(at as int).take(pat@.len() as int)[q as int] != pat@[q as int]);
            }
            return false;
        }
        q = q + 1;
    }
    proof {
        assert(s@.skip(at as int).take(pat@.len() as int) =~= pat@);
    }
    true
}

/// Replaces, from left to right and without overlap, every occurrence of
/// `pat` in `s` by `by`.
pub fn replace_all(s: &Vec<char>, pat: &Vec<char>, by: &Vec<char>) -> (r: Vec<char>)
    requires
        pat@.len() > 0,
    ensures
        r@ == replaced(s@, pat@, by@),
{
    let mut out: Vec<char> = Vec::new();
    let mut i: usize = 0;
    proof {
        assert(s@.skip(0) =~= s@);
    }
    while i < s.len()
        invariant
            pat@.len() > 0,
            i <= s@.len(),
            out@ + replaced(s@.skip(i as int), pat@, by@) == replaced(s@, pat@, by@),
        decreases s.len() - i,
    {
        let ghost rest = s@.skip(i as int);
        if occurs_at(s, pat, i) {
            let mut q: usize = 0;
            let ghost out0 = out@;
            while q < by.len()
                invariant
                    q <= by@.len(),
                    out@ == out0 + by@.take(q as int),
                decreases by.len() - q,
            {
                out.push(by[q]);
                proof {
                    assert(by@.take(q + 1) =~= by@.take(q as int).push(by@[q as int]));
                }
                q = q + 1;
            }
            proof {
                assert(by@.take(by@.len() as int) =~= by@);
                assert(rest.skip(pat@.len() as int) =~= s@.skip(i + pat@.len()));
                assert(out@ + replaced(s@.skip(i + pat@.len()), pat@, by@) =~= out0 + replaced(rest, pat@, by@));
            }
            i = i + pat.len();
        } else {
            let ghost out0 = out@;
            out.push(s[i]);
            proof {
                assert(rest.skip(1) =~= s@.skip(i + 1));
                if rest.len() < pat@.len() {
                    assert(replaced(rest, pat@, by@) == rest);
                    assert(replaced(rest.skip(1), pat@, by@) == rest.skip(1));
                    assert(out@ + rest.skip(1) =~= out0 + rest);
                } else {
                    assert(out@ + replaced(rest.skip(1), pat@, by@) =~= out0 + replaced(rest, pat@, by@));
                }
            }
            i = i + 1;
        }
    }
    proof {
        assert(out@ + replaced(s@.skip(i as int), pat@, by@) =~= out@);
    }
    out
}

/// The script for the external SMT solver, built from an SMT-LIB dump of a
/// query (see `smt_script`).
pub fn smt_input(dump: &str) -> (r: String)
    ensures
        r@ == smt_script(dump@),
{
    proof {
        reveal_strlit(" and");
        reveal_strlit(" or");
        reveal_strlit("(* ");
        reveal_strlit("(+ ");
    }
    let s0 = chars_of(dump);
    let s1 = replace_all(&s0, &chars_of(" and"), &chars_of(" true"));
    let s2 = replace_all(&s1, &chars_of(" or"), &chars_of(" false"));
    let s3 = replace_all(&s2, &chars_of("(* "), &chars_of("(* 1 "));
    let s4 = replace_all(&s3, &chars_of("(+ "), &chars_of("(+ 0 "));
    let header = chars_of("; \n(set-info :status )");
    let start: usize = if occurs_at(&s4, &header, 0) {
        header.len()
    } else {
        0
    };
    proof {
        assert(s4@.skip(0) =~= s4@);
    }
    let body = string_from(&s4, start);
    let mut script = String::from_str("(set-logic ALL)\n");
    script.append(body.as_str());
    script
}

/// Whether the external solver's output reports the query unsatisfiable: it
/// ends with `unsat` and a newline.
pub fn smt_verdict(output: &str) -> (r: bool)
    ensures
        r == ends_with(output@, "unsat\n"@),
{
    let out = chars_of(output);
    let suffix = chars_of("unsat\n");
    if suffix.len() > out.len() {
        return false;
    }
    let at = out.len() - suffix.len();
    proof {
        assert(out@.skip(at as int).take(suffix@.len() as int) =~= out@.skip(at as int));
    }
    occurs_at(&out, &suffix, at)
}

} // verus!
