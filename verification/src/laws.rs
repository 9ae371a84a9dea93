//! The semilattice laws of the merge catalog, stated over well-formed
//! views: merging is idempotent, commutative and associative, and the
//! induced comparison agrees with merging — comparing equal means the
//! views are equal, and a lesser value is absorbed by a merge.

use vstd::prelude::*;
use core::cmp::Ordering;
use crate::merge::{
    DominatingPair, Intersect, MapUnion, Max, Merge, Min, RangeToZeroI32, Union, map_merged_at,
};
use crate::domains::{IntSet, StrMap, lemma_lex_trichotomy, lemma_lex_trans, lex_lt};

verus! {

/// Merging a well-formed view with itself leaves it unchanged.
pub open spec fn merge_idempotent<F: Merge>() -> bool {
    forall|a: F::ViewT| F::view_wf(a) ==> #[trigger] F::merge_spec(a, a) == a
}

/// Merging well-formed views does not depend on their order.
pub open spec fn merge_commutative<F: Merge>() -> bool {
    forall|a: F::ViewT, b: F::ViewT|
        F::view_wf(a) && F::view_wf(b) ==> #[trigger] F::merge_spec(a, b) == F::merge_spec(b, a)
}

/// Merging well-formed views does not depend on their grouping.
pub open spec fn merge_associative<F: Merge>() -> bool {
    forall|a: F::ViewT, b: F::ViewT, c: F::ViewT|
        F::view_wf(a) && F::view_wf(b) && F::view_wf(c) ==> #[trigger] F::merge_spec(
            F::merge_spec(a, b),
            c,
        ) == F::merge_spec(a, F::merge_spec(b, c))
}

/// Comparing well-formed views as equal means exactly that they are equal.
pub open spec fn cmp_reflects_eq<F: Merge>() -> bool {
    forall|a: F::ViewT, b: F::ViewT|
        F::view_wf(a) && F::view_wf(b) ==> ((#[trigger] F::cmp_spec(a, b)) == Some(Ordering::Equal)
            <==> a == b)
}

/// A view compared as less is absorbed: merging yields the other view.
pub open spec fn cmp_less_absorbs<F: Merge>() -> bool {
    forall|a: F::ViewT, b: F::ViewT|
        F::view_wf(a) && F::view_wf(b) && (#[trigger] F::cmp_spec(a, b)) == Some(Ordering::Less)
            ==> F::merge_spec(a, b) == b
}

/// A view compared as greater absorbs: merging leaves it unchanged.
pub open spec fn cmp_greater_absorbs<F: Merge>() -> bool {
    forall|a: F::ViewT, b: F::ViewT|
        F::view_wf(a) && F::view_wf(b) && (#[trigger] F::cmp_spec(a, b)) == Some(Ordering::Greater)
            ==> F::merge_spec(a, b) == a
}

/// Every pair of well-formed views is comparable.
pub open spec fn cmp_total<F: Merge>() -> bool {
    forall|a: F::ViewT, b: F::ViewT|
        F::view_wf(a) && F::view_wf(b) ==> (#[trigger] F::cmp_spec(a, b)) is Some
}

/// The three merge laws of a join-semilattice together.
pub open spec fn merge_lawful<F: Merge>() -> bool {
    merge_idempotent::<F>() && merge_commutative::<F>() && merge_associative::<F>()
}

/// The two agreement laws between comparison and merging together.
pub open spec fn cmp_lawful<F: Merge>() -> bool {
    cmp_reflects_eq::<F>() && cmp_less_absorbs::<F>()
}

// LAWS OF THE CATALOG //

/// Max over unsigned integers is a lawful, total merge operator.
pub proof fn lemma_max_u64_lawful()
    ensures
        merge_lawful::<Max<u64>>(),
        cmp_lawful::<Max<u64>>(),
        cmp_greater_absorbs::<Max<u64>>(),
        cmp_total::<Max<u64>>(),
{
}

/// Min over unsigned integers is a lawful, total merge operator.
pub proof fn lemma_min_u64_lawful()
    ensures
        merge_lawful::<Min<u64>>(),
        cmp_lawful::<Min<u64>>(),
        cmp_greater_absorbs::<Min<u64>>(),
        cmp_total::<Min<u64>>(),
{
}

/// The signed-range operator is lawful: merging picks the value of the
/// closed interval nearest zero, and the order is distance from zero
/// among values of one sign.
pub proof fn lemma_range_to_zero_lawful()
    ensures
        merge_lawful::<RangeToZeroI32>(),
        cmp_lawful::<RangeToZeroI32>(),
        cmp_greater_absorbs::<RangeToZeroI32>(),
{
}

/// Set union is a lawful merge: a superset absorbs, and equality under
/// the subset order is set equality.
pub proof fn lemma_union_lawful()
    ensures
        merge_lawful::<Union<IntSet>>(),
        cmp_lawful::<Union<IntSet>>(),
        cmp_greater_absorbs::<Union<IntSet>>(),
{
    assert forall|a: Set<u64>| a.finite() implies #[trigger] Union::<IntSet>::merge_spec(a, a)
        == a by {
        assert(a.union(a) =~= a);
    }
    assert forall|a: Set<u64>, b: Set<u64>| a.finite() && b.finite() implies #[trigger] Union::<
        IntSet,
    >::merge_spec(a, b) == Union::<IntSet>::merge_spec(b, a) by {
        assert(a.union(b) =~= b.union(a));
    }
    assert forall|a: Set<u64>, b: Set<u64>, c: Set<u64>|
        a.finite() && b.finite() && c.finite() implies #[trigger] Union::<IntSet>::merge_spec(
        Union::<IntSet>::merge_spec(a, b),
        c,
    ) == Union::<IntSet>::merge_spec(a, Union::<IntSet>::merge_spec(b, c)) by {
        assert(a.union(b).union(c) =~= a.union(b.union(c)));
    }
    assert forall|a: Set<u64>, b: Set<u64>| a.finite() && b.finite() implies ((#[trigger] Union::<
        IntSet,
    >::cmp_spec(a, b)) == Some(Ordering::Equal) <==> a == b) by {
        if a.subset_of(b) && b.subset_of(a) {
            assert(a =~= b);
        }
    }
    assert forall|a: Set<u64>, b: Set<u64>|
        a.finite() && b.finite() && (#[trigger] Union::<IntSet>::cmp_spec(a, b)) == Some(
            Ordering::Less,
        ) implies Union::<IntSet>::merge_spec(a, b) == b by {
        assert(a.union(b) =~= b);
    }
    assert forall|a: Set<u64>, b: Set<u64>|
        a.finite() && b.finite() && (#[trigger] Union::<IntSet>::cmp_spec(a, b)) == Some(
            Ordering::Greater,
        ) implies Union::<IntSet>::merge_spec(a, b) == a by {
        assert(a.union(b) =~= a);
    }
}

/// Set intersection is a lawful merge for the reversed subset order:
/// a subset absorbs, and equality again means set equality.
pub proof fn lemma_intersect_lawful()
    ensures
        merge_lawful::<Intersect<IntSet>>(),
        cmp_lawful::<Intersect<IntSet>>(),
        cmp_greater_absorbs::<Intersect<IntSet>>(),
{
    assert forall|a: Set<u64>| a.finite() implies #[trigger] Intersect::<IntSet>::merge_spec(a, a)
        == a by {
        assert(a.intersect(a) =~= a);
    }
    assert forall|a: Set<u64>, b: Set<u64>|
        a.finite() && b.finite() implies #[trigger] Intersect::<IntSet>::merge_spec(a, b)
        == Intersect::<IntSet>::merge_spec(b, a) by {
        assert(a.intersect(b) =~= b.intersect(a));
    }
    assert forall|a: Set<u64>, b: Set<u64>, c: Set<u64>|
        a.finite() && b.finite() && c.finite() implies #[trigger] Intersect::<IntSet>::merge_spec(
        Intersect::<IntSet>::merge_spec(a, b),
        c,
    ) == Intersect::<IntSet>::merge_spec(a, Intersect::<IntSet>::merge_spec(b, c)) by {
        assert(a.intersect(b).intersect(c) =~= a.intersect(b.intersect(c)));
    }
    assert forall|a: Set<u64>, b: Set<u64>|
        a.finite() && b.finite() implies ((#[trigger] Intersect::<IntSet>::cmp_spec(a, b)) == Some(
        Ordering::Equal,
    ) <==> a == b) by {
        if a.subset_of(b) && b.subset_of(a) {
            assert(a =~= b);
        }
    }
    assert forall|a: Set<u64>, b: Set<u64>|
        a.finite() && b.finite() && (#[trigger] Intersect::<IntSet>::cmp_spec(a, b)) == Some(
            Ordering::Less,
        ) implies Intersect::<IntSet>::merge_spec(a, b) == b by {
        assert(a.intersect(b) =~= b);
    }
    assert forall|a: Set<u64>, b: Set<u64>|
        a.finite() && b.finite() && (#[trigger] Intersect::<IntSet>::cmp_spec(a, b)) == Some(
            Ordering::Greater,
        ) implies Intersect::<IntSet>::merge_spec(a, b) == a by {
        assert(a.intersect(b) =~= a);
    }
}

/// Min over strings reverses the lexicographic order and is a lawful,
/// total merge operator.
pub proof fn lemma_min_string_lawful()
    ensures
        merge_lawful::<Min<String>>(),
        cmp_lawful::<Min<String>>(),
        cmp_greater_absorbs::<Min<String>>(),
        cmp_total::<Min<String>>(),
{
    assert forall|a: Seq<char>| true implies #[trigger] Min::<String>::merge_spec(a, a) == a by {
        lemma_lex_trichotomy(a, a);
    }
    assert forall|a: Seq<char>, b: Seq<char>| true implies #[trigger] Min::<String>::merge_spec(
        a,
        b,
    ) == Min::<String>::merge_spec(b, a) by {
        lemma_lex_trichotomy(a, b);
        lemma_lex_trichotomy(b, a);
    }
    assert forall|a: Seq<char>, b: Seq<char>, c: Seq<char>| true implies #[trigger] Min::<
        String,
    >::merge_spec(Min::<String>::merge_spec(a, b), c) == Min::<String>::merge_spec(
        a,
        Min::<String>::merge_spec(b, c),
    ) by {
        lemma_lex_trichotomy(a, b);
        lemma_lex_trichotomy(b, c);
        lemma_lex_trichotomy(a, c);
        if lex_lt(a, b) && lex_lt(b, c) {
            lemma_lex_trans(a, b, c);
        }
        if lex_lt(c, b) && lex_lt(b, a) {
            lemma_lex_trans(c, b, a);
        }
    }
    assert forall|a: Seq<char>, b: Seq<char>| true implies ((#[trigger] Min::<String>::cmp_spec(
        a,
        b,
    )) == Some(Ordering::Equal) <==> a == b) by {
        lemma_lex_trichotomy(a, b);
    }
    assert forall|a: Seq<char>, b: Seq<char>| true implies ((#[trigger] Min::<String>::cmp_spec(
        a,
        b,
    )) == Some(Ordering::Greater) ==> Min::<String>::merge_spec(a, b) == a) by {
        lemma_lex_trichotomy(a, b);
    }
}

/// Max over strings under the lexicographic order is a lawful, total
/// merge operator.
pub proof fn lemma_max_string_lawful()
    ensures
        merge_lawful::<Max<String>>(),
        cmp_lawful::<Max<String>>(),
        cmp_greater_absorbs::<Max<String>>(),
        cmp_total::<Max<String>>(),
{
    assert forall|a: Seq<char>| true implies #[trigger] Max::<String>::merge_spec(a, a) == a by {
        lemma_lex_trichotomy(a, a);
    }
    assert forall|a: Seq<char>, b: Seq<char>| true implies #[trigger] Max::<String>::merge_spec(
        a,
        b,
    ) == Max::<String>::merge_spec(b, a) by {
        lemma_lex_trichotomy(a, b);
        lemma_lex_trichotomy(b, a);
    }
    assert forall|a: Seq<char>, b: Seq<char>, c: Seq<char>| true implies #[trigger] Max::<
        String,
    >::merge_spec(Max::<String>::merge_spec(a, b), c) == Max::<String>::merge_spec(
        a,
        Max::<String>::merge_spec(b, c),
    ) by {
        lemma_lex_trichotomy(a, b);
        lemma_lex_trichotomy(b, c);
        lemma_lex_trichotomy(a, c);
        if lex_lt(a, b) && lex_lt(b, c) {
            lemma_lex_trans(a, b, c);
        }
        if lex_lt(c, b) && lex_lt(b, a) {
            lemma_lex_trans(c, b, a);
        }
    }
    assert forall|a: Seq<char>, b: Seq<char>| true implies ((#[trigger] Max::<String>::cmp_spec(
        a,
        b,
    )) == Some(Ordering::Equal) <==> a == b) by {
        lemma_lex_trichotomy(a, b);
    }
    assert forall|a: Seq<char>, b: Seq<char>| true implies ((#[trigger] Max::<String>::cmp_spec(
        a,
        b,
    )) == Some(Ordering::Greater) ==> Max::<String>::merge_spec(a, b) == a) by {
        lemma_lex_trichotomy(a, b);
    }
}

/// Key-wise map union is lawful whenever the nested operator is: the
/// merge laws lift pointwise, comparing equal means map equality, and a
/// lesser map is absorbed by merging.
pub proof fn lemma_map_union_lawful<F: Merge>()
    requires
        merge_lawful::<F>(),
        cmp_lawful::<F>(),
    ensures
        merge_lawful::<MapUnion<StrMap<F>>>(),
        cmp_lawful::<MapUnion<StrMap<F>>>(),
{
    assert forall|a: Map<Seq<char>, F::ViewT>|
        MapUnion::<StrMap<F>>::view_wf(a) implies #[trigger] MapUnion::<StrMap<F>>::merge_spec(
        a,
        a,
    ) == a by {
        assert forall|k: Seq<char>| a.dom().contains(k) implies map_merged_at::<F>(a, a, k)
            == a[k] by {
            assert(F::view_wf(a[k]));
        }
        assert(MapUnion::<StrMap<F>>::merge_spec(a, a) =~= a);
    }
    assert forall|a: Map<Seq<char>, F::ViewT>, b: Map<Seq<char>, F::ViewT>|
        MapUnion::<StrMap<F>>::view_wf(a) && MapUnion::<StrMap<F>>::view_wf(b) implies #[trigger] MapUnion::<
        StrMap<F>,
    >::merge_spec(a, b) == MapUnion::<StrMap<F>>::merge_spec(b, a) by {
        assert forall|k: Seq<char>|
            a.dom().contains(k) || b.dom().contains(k) implies map_merged_at::<F>(a, b, k)
            == map_merged_at::<F>(b, a, k) by {
            if a.dom().contains(k) && b.dom().contains(k) {
                assert(F::view_wf(a[k]) && F::view_wf(b[k]));
                assert(F::merge_spec(a[k], b[k]) == F::merge_spec(b[k], a[k]));
            }
        }
        assert(MapUnion::<StrMap<F>>::merge_spec(a, b) =~= MapUnion::<StrMap<F>>::merge_spec(
            b,
            a,
        ));
    }
    assert forall|a: Map<Seq<char>, F::ViewT>, b: Map<Seq<char>, F::ViewT>, c: Map<
        Seq<char>,
        F::ViewT,
    >|
        MapUnion::<StrMap<F>>::view_wf(a) && MapUnion::<StrMap<F>>::view_wf(b) && MapUnion::<
            StrMap<F>,
        >::view_wf(c) implies #[trigger] MapUnion::<StrMap<F>>::merge_spec(
        MapUnion::<StrMap<F>>::merge_spec(a, b),
        c,
    ) == MapUnion::<StrMap<F>>::merge_spec(a, MapUnion::<StrMap<F>>::merge_spec(b, c)) by {
        let ab = MapUnion::<StrMap<F>>::merge_spec(a, b);
        let bc = MapUnion::<StrMap<F>>::merge_spec(b, c);
        assert forall|k: Seq<char>|
            a.dom().contains(k) || b.dom().contains(k) || c.dom().contains(
                k,
            ) implies map_merged_at::<F>(ab, c, k) == map_merged_at::<F>(a, bc, k) by {
            assert(ab.dom().contains(k) <==> (a.dom().contains(k) || b.dom().contains(k)));
            assert(bc.dom().contains(k) <==> (b.dom().contains(k) || c.dom().contains(k)));
            if a.dom().contains(k) && b.dom().contains(k) && c.dom().contains(k) {
                assert(F::view_wf(a[k]) && F::view_wf(b[k]) && F::view_wf(c[k]));
                assert(F::merge_spec(F::merge_spec(a[k], b[k]), c[k]) == F::merge_spec(
                    a[k],
                    F::merge_spec(b[k], c[k]),
                ));
            }
        }
        assert(MapUnion::<StrMap<F>>::merge_spec(ab, c) =~= MapUnion::<StrMap<F>>::merge_spec(
            a,
            bc,
        ));
    }
    assert forall|a: Map<Seq<char>, F::ViewT>, b: Map<Seq<char>, F::ViewT>|
        MapUnion::<StrMap<F>>::view_wf(a) && MapUnion::<StrMap<F>>::view_wf(b) implies ((
    #[trigger] MapUnion::<StrMap<F>>::cmp_spec(a, b)) == Some(Ordering::Equal) <==> a == b) by {
        if MapUnion::<StrMap<F>>::cmp_spec(a, b) == Some(Ordering::Equal) {
            assert(b.dom() =~= a.dom()) by {
                if exists|k: Seq<char>| a.dom().contains(k) && !b.dom().contains(k) {
                    let k = choose|k: Seq<char>| a.dom().contains(k) && !b.dom().contains(k);
                    b.dom().lemma_subset_not_in_lt(a.dom(), k);
                }
            }
            assert forall|k: Seq<char>| a.dom().contains(k) implies a[k] == b[k] by {
                assert(F::view_wf(a[k]) && F::view_wf(b[k]));
                assert(F::cmp_spec(a[k], b[k]) == Some(Ordering::Equal));
            }
            assert(a =~= b);
        }
        if a == b {
            assert forall|k: Seq<char>| b.dom().contains(k) implies #[trigger] F::cmp_spec(
                a[k],
                b[k],
            ) == Some(Ordering::Equal) by {
                assert(F::view_wf(a[k]));
            }
        }
    }
    assert forall|a: Map<Seq<char>, F::ViewT>, b: Map<Seq<char>, F::ViewT>|
        MapUnion::<StrMap<F>>::view_wf(a) && MapUnion::<StrMap<F>>::view_wf(b) && (
        #[trigger] MapUnion::<StrMap<F>>::cmp_spec(a, b)) == Some(
            Ordering::Less,
        ) implies MapUnion::<StrMap<F>>::merge_spec(a, b) == b by {
        assert forall|k: Seq<char>|
            a.dom().contains(k) || b.dom().contains(k) implies map_merged_at::<F>(a, b, k)
            == b[k] by {
            if a.dom().contains(k) {
                assert(b.dom().contains(k));
                assert(F::view_wf(a[k]) && F::view_wf(b[k]));
                assert((F::cmp_spec(a[k], b[k])) matches Some(Ordering::Equal | Ordering::Less));
                if F::cmp_spec(a[k], b[k]) == Some(Ordering::Equal) {
                    assert(a[k] == b[k]);
                    assert(F::merge_spec(a[k], b[k]) == b[k]);
                } else {
                    assert(F::merge_spec(a[k], b[k]) == b[k]);
                }
            }
        }
        assert(MapUnion::<StrMap<F>>::merge_spec(a, b) =~= b);
    }
}

/// Comparing any well-formed view with itself yields equal.
pub open spec fn cmp_reflexive<F: Merge>() -> bool {
    forall|a: F::ViewT| F::view_wf(a) ==> #[trigger] F::cmp_spec(a, a) == Some(Ordering::Equal)
}

/// In a lawful total order, the three comparison outcomes determine the
/// merge and flip under exchanging the arguments.
proof fn lemma_total_order_cases<AF: Merge>(x: AF::ViewT, y: AF::ViewT)
    requires
        merge_lawful::<AF>(),
        cmp_lawful::<AF>(),
        cmp_total::<AF>(),
        cmp_greater_absorbs::<AF>(),
        AF::view_wf(x),
        AF::view_wf(y),
    ensures
        AF::cmp_spec(x, y) is Some,
        AF::merge_spec(x, y) == AF::merge_spec(y, x),
        AF::cmp_spec(x, y) == Some(Ordering::Equal) ==> x == y && AF::merge_spec(x, y) == x,
        AF::cmp_spec(x, y) == Some(Ordering::Less) ==> AF::merge_spec(x, y) == y && AF::cmp_spec(
            y,
            x,
        ) == Some(Ordering::Greater),
        AF::cmp_spec(x, y) == Some(Ordering::Greater) ==> AF::merge_spec(x, y) == x
            && AF::cmp_spec(y, x) == Some(Ordering::Less),
{
    assert(AF::merge_spec(x, y) == AF::merge_spec(y, x));
    if AF::cmp_spec(x, y) == Some(Ordering::Equal) {
        assert(x == y);
        assert(AF::merge_spec(x, x) == x);
    }
    if AF::cmp_spec(x, y) == Some(Ordering::Less) {
        assert(AF::merge_spec(x, y) == y);
        if AF::cmp_spec(y, x) == Some(Ordering::Equal) {
            assert(y == x);
            assert(AF::cmp_spec(x, y) == Some(Ordering::Equal));
            assert(false);
        }
        if AF::cmp_spec(y, x) == Some(Ordering::Less) {
            assert(AF::merge_spec(y, x) == x);
            assert(x == y);
            assert(AF::cmp_spec(x, y) == Some(Ordering::Equal));
            assert(false);
        }
    }
    if AF::cmp_spec(x, y) == Some(Ordering::Greater) {
        assert(AF::merge_spec(x, y) == x);
        if AF::cmp_spec(y, x) == Some(Ordering::Equal) {
            assert(y == x);
            assert(AF::cmp_spec(x, y) == Some(Ordering::Equal));
            assert(false);
        }
        if AF::cmp_spec(y, x) == Some(Ordering::Greater) {
            assert(AF::merge_spec(y, x) == y);
            assert(x == y);
            assert(AF::cmp_spec(x, y) == Some(Ordering::Equal));
            assert(false);
        }
    }
}

/// A dominating pair over a lawful total order and a lawful second
/// component is itself a lawful merge. Its comparison is total, equal
/// first components make it report equal even where the second components
/// differ, so only the reflexive half of the equality law holds.
pub proof fn lemma_dominating_pair_lawful<AF: Merge, BF: Merge>()
    requires
        merge_lawful::<AF>(),
        cmp_lawful::<AF>(),
        cmp_total::<AF>(),
        cmp_greater_absorbs::<AF>(),
        merge_lawful::<BF>(),
    ensures
        merge_lawful::<DominatingPair<AF, BF>>(),
        cmp_less_absorbs::<DominatingPair<AF, BF>>(),
        cmp_greater_absorbs::<DominatingPair<AF, BF>>(),
        cmp_total::<DominatingPair<AF, BF>>(),
        cmp_reflexive::<DominatingPair<AF, BF>>(),
{
    assert forall|a: (AF::ViewT, BF::ViewT)|
        DominatingPair::<AF, BF>::view_wf(a) implies #[trigger] DominatingPair::<
        AF,
        BF,
    >::merge_spec(a, a) == a by {
        lemma_total_order_cases::<AF>(a.0, a.0);
        assert(BF::merge_spec(a.1, a.1) == a.1);
    }
    assert forall|a: (AF::ViewT, BF::ViewT), b: (AF::ViewT, BF::ViewT)|
        DominatingPair::<AF, BF>::view_wf(a) && DominatingPair::<AF, BF>::view_wf(
            b,
        ) implies #[trigger] DominatingPair::<AF, BF>::merge_spec(a, b) == DominatingPair::<
        AF,
        BF,
    >::merge_spec(b, a) by {
        lemma_total_order_cases::<AF>(a.0, b.0);
        lemma_total_order_cases::<AF>(b.0, a.0);
        assert(BF::merge_spec(a.1, b.1) == BF::merge_spec(b.1, a.1));
    }
    assert forall|a: (AF::ViewT, BF::ViewT), b: (AF::ViewT, BF::ViewT), c: (AF::ViewT, BF::ViewT)|
        DominatingPair::<AF, BF>::view_wf(a) && DominatingPair::<AF, BF>::view_wf(b)
            && DominatingPair::<AF, BF>::view_wf(c) implies #[trigger] DominatingPair::<
        AF,
        BF,
    >::merge_spec(DominatingPair::<AF, BF>::merge_spec(a, b), c) == DominatingPair::<
        AF,
        BF,
    >::merge_spec(a, DominatingPair::<AF, BF>::merge_spec(b, c)) by {
        let ab = DominatingPair::<AF, BF>::merge_spec(a, b);
        let bc = DominatingPair::<AF, BF>::merge_spec(b, c);
        lemma_total_order_cases::<AF>(a.0, b.0);
        lemma_total_order_cases::<AF>(b.0, c.0);
        lemma_total_order_cases::<AF>(a.0, c.0);
        assert(ab.0 == AF::merge_spec(a.0, b.0));
        assert(bc.0 == AF::merge_spec(b.0, c.0));
        AF::lemma_merge_spec_wf(a.0, b.0);
        AF::lemma_merge_spec_wf(b.0, c.0);
        lemma_total_order_cases::<AF>(ab.0, c.0);
        lemma_total_order_cases::<AF>(a.0, bc.0);
        assert(AF::merge_spec(AF::merge_spec(a.0, b.0), c.0) == AF::merge_spec(
            a.0,
            AF::merge_spec(b.0, c.0),
        ));
        assert(BF::merge_spec(BF::merge_spec(a.1, b.1), c.1) == BF::merge_spec(
            a.1,
            BF::merge_spec(b.1, c.1),
        ));
    }
    assert forall|a: (AF::ViewT, BF::ViewT), b: (AF::ViewT, BF::ViewT)|
        DominatingPair::<AF, BF>::view_wf(a) && DominatingPair::<AF, BF>::view_wf(b) && (
        #[trigger] DominatingPair::<AF, BF>::cmp_spec(a, b)) == Some(
            Ordering::Less,
        ) implies DominatingPair::<AF, BF>::merge_spec(a, b) == b by {
        lemma_total_order_cases::<AF>(a.0, b.0);
    }
    assert forall|a: (AF::ViewT, BF::ViewT), b: (AF::ViewT, BF::ViewT)|
        DominatingPair::<AF, BF>::view_wf(a) && DominatingPair::<AF, BF>::view_wf(b) && (
        #[trigger] DominatingPair::<AF, BF>::cmp_spec(a, b)) == Some(
            Ordering::Greater,
        ) implies DominatingPair::<AF, BF>::merge_spec(a, b) == a by {
        lemma_total_order_cases::<AF>(a.0, b.0);
    }
    assert forall|a: (AF::ViewT, BF::ViewT), b: (AF::ViewT, BF::ViewT)|
        DominatingPair::<AF, BF>::view_wf(a) && DominatingPair::<AF, BF>::view_wf(
            b,
        ) implies (#[trigger] DominatingPair::<AF, BF>::cmp_spec(a, b)) is Some by {
        lemma_total_order_cases::<AF>(a.0, b.0);
    }
    assert forall|a: (AF::ViewT, BF::ViewT)|
        DominatingPair::<AF, BF>::view_wf(a) implies #[trigger] DominatingPair::<AF, BF>::cmp_spec(
        a,
        a,
    ) == Some(Ordering::Equal) by {
        lemma_total_order_cases::<AF>(a.0, a.0);
    }
}

// THE INDUCED ORDER OF AN ACCUMULATOR //

/// `a` is at or below `b` in the order a merge operator induces: folding
/// `a` into `b` adds nothing.
pub open spec fn induced_le<F: Merge>(a: F::ViewT, b: F::ViewT) -> bool {
    F::merge_spec(a, b) == b
}

/// For a lawful operator, comparing at or below means at or below in the
/// induced order: the compared-greater view absorbs the other.
pub proof fn lemma_cmp_below_induced<F: Merge>(a: F::ViewT, b: F::ViewT)
    requires
        merge_lawful::<F>(),
        cmp_lawful::<F>(),
        F::view_wf(a),
        F::view_wf(b),
        F::cmp_spec(a, b) matches Some(Ordering::Less | Ordering::Equal),
    ensures
        induced_le::<F>(a, b),
{
    if F::cmp_spec(a, b) == Some(Ordering::Equal) {
        assert(a == b);
        assert(F::merge_spec(a, a) == a);
    }
}

/// The state of an accumulator that started from `bottom` and merged in
/// `items`, one after the other.
pub open spec fn fold_states<F: Merge>(bottom: F::ViewT, items: Seq<F::ViewT>) -> F::ViewT
    decreases items.len(),
{
    if items.len() == 0 {
        bottom
    } else {
        F::merge_spec(fold_states::<F>(bottom, items.drop_last()), items.last())
    }
}

/// Accumulated states are well-formed.
pub proof fn lemma_fold_states_wf<F: Merge>(bottom: F::ViewT, items: Seq<F::ViewT>)
    requires
        F::view_wf(bottom),
        forall|n: int| 0 <= n < items.len() ==> F::view_wf(#[trigger] items[n]),
    ensures
        F::view_wf(fold_states::<F>(bottom, items)),
    decreases items.len(),
{
    if items.len() > 0 {
        lemma_fold_states_wf::<F>(bottom, items.drop_last());
        F::lemma_merge_spec_wf(fold_states::<F>(bottom, items.drop_last()), items.last());
    }
}

/// A lawful accumulator is monotone, never decreasing under the induced
/// order: of any two states it passes through, the earlier one is at or
/// below the later one.
pub proof fn lemma_accumulator_monotone<F: Merge>(
    bottom: F::ViewT,
    items: Seq<F::ViewT>,
    i: int,
    j: int,
)
    requires
        merge_lawful::<F>(),
        F::view_wf(bottom),
        forall|n: int| 0 <= n < items.len() ==> F::view_wf(#[trigger] items[n]),
        0 <= i <= j <= items.len(),
    ensures
        induced_le::<F>(
            fold_states::<F>(bottom, items.take(i)),
            fold_states::<F>(bottom, items.take(j)),
        ),
    decreases j - i,
{
    let si = fold_states::<F>(bottom, items.take(i));
    assert forall|n: int| 0 <= n < items.take(i).len() implies F::view_wf(
        #[trigger] items.take(i)[n],
    ) by {
        assert(items.take(i)[n] == items[n]);
    }
    lemma_fold_states_wf::<F>(bottom, items.take(i));
    if i == j {
        assert(F::merge_spec(si, si) == si);
    } else {
        let sk = fold_states::<F>(bottom, items.take(j - 1));
        let sj = fold_states::<F>(bottom, items.take(j));
        lemma_accumulator_monotone::<F>(bottom, items, i, j - 1);
        assert forall|n: int| 0 <= n < items.take(j - 1).len() implies F::view_wf(
            #[trigger] items.take(j - 1)[n],
        ) by {
            assert(items.take(j - 1)[n] == items[n]);
        }
        lemma_fold_states_wf::<F>(bottom, items.take(j - 1));
        assert(items.take(j).drop_last() =~= items.take(j - 1));
        assert(items.take(j).last() == items[j - 1]);
        assert(sj == F::merge_spec(sk, items[j - 1]));
        assert(F::merge_spec(si, sj) == F::merge_spec(F::merge_spec(si, sk), items[j - 1])) by {
            assert(F::view_wf(items[j - 1]));
            assert(F::merge_spec(F::merge_spec(si, sk), items[j - 1]) == F::merge_spec(
                si,
                F::merge_spec(sk, items[j - 1]),
            ));
        }
        assert(F::merge_spec(si, sk) == sk);
    }
}

} // verus!
