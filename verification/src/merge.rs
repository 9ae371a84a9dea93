//! The merge catalog: stateless merge operators over declared domains.
//!
//! Each operator is a type tag implementing [`Merge`]: it fixes a domain
//! type, a mathematical view of that domain, and two operations — an
//! in-place merge and a partial comparison. The intended reading is that
//! `merge_in` is the join of a semilattice and `partial_cmp` the order it
//! induces; those laws are stated and proved in [`crate::laws`].

use vstd::prelude::*;
use core::marker::PhantomData;
use crate::domains::{
    IntSet, StrMap, key_views, lemma_int_set_view_finite, lemma_str_map_view_finite, lex_lt,
    str_lt,
};
use core::cmp::Ordering;

verus! {

/// A merge operator: a type-level strategy with no instance data.
///
/// `Domain` is the executable type the operator merges; `ViewT` is the
/// mathematical model that contracts are stated over, obtained through
/// `view_of`. `merge_in` and `partial_cmp` are specified exactly by the
/// spec-level `merge_spec` and `cmp_spec`.
pub trait Merge {
    type Domain;

    type ViewT;

    /// Which views are meaningful models of a domain value.
    spec fn view_wf(v: Self::ViewT) -> bool;

    /// The mathematical model of a domain value.
    spec fn view_of(d: &Self::Domain) -> Self::ViewT;

    /// What merging does, at the level of views.
    spec fn merge_spec(a: Self::ViewT, b: Self::ViewT) -> Self::ViewT;

    /// The induced comparison, at the level of views.
    spec fn cmp_spec(a: Self::ViewT, b: Self::ViewT) -> Option<Ordering>;

    /// Every domain value models a well-formed view.
    proof fn lemma_view_of_wf(d: &Self::Domain)
        ensures
            Self::view_wf(Self::view_of(d)),
    ;

    /// Merging well-formed views yields a well-formed view.
    proof fn lemma_merge_spec_wf(a: Self::ViewT, b: Self::ViewT)
        requires
            Self::view_wf(a),
            Self::view_wf(b),
        ensures
            Self::view_wf(Self::merge_spec(a, b)),
    ;

    /// Fold `other` into `val`.
    fn merge_in(val: &mut Self::Domain, other: Self::Domain)
        ensures
            Self::view_of(final(val)) == Self::merge_spec(
                Self::view_of(old(val)),
                Self::view_of(&other),
            ),
    ;

    /// Compare two domain values under the induced order.
    fn partial_cmp(val: &Self::Domain, other: &Self::Domain) -> (r: Option<Ordering>)
        ensures
            r == Self::cmp_spec(Self::view_of(val), Self::view_of(other)),
    ;
}

// ORD MERGES //

/// Keep the greater value; the order is the domain's natural one.
pub struct Max<T: Ord> {
    _phantom: PhantomData<T>,
}

impl Merge for Max<u64> {
    type Domain = u64;

    type ViewT = u64;

    open spec fn view_wf(v: u64) -> bool {
        true
    }

    open spec fn view_of(d: &u64) -> u64 {
        *d
    }

    open spec fn merge_spec(a: u64, b: u64) -> u64 {
        if a < b {
            b
        } else {
            a
        }
    }

    open spec fn cmp_spec(a: u64, b: u64) -> Option<Ordering> {
        if a < b {
            Some(Ordering::Less)
        } else if a == b {
            Some(Ordering::Equal)
        } else {
            Some(Ordering::Greater)
        }
    }

    proof fn lemma_view_of_wf(d: &u64) {
    }

    proof fn lemma_merge_spec_wf(a: u64, b: u64) {
    }

    fn merge_in(val: &mut u64, other: u64) {
        if *val < other {
            *val = other;
        }
    }

    fn partial_cmp(val: &u64, other: &u64) -> (r: Option<Ordering>) {
        if *val < *other {
            Some(Ordering::Less)
        } else if *val == *other {
            Some(Ordering::Equal)
        } else {
            Some(Ordering::Greater)
        }
    }
}

impl Merge for Max<String> {
    type Domain = String;

    type ViewT = Seq<char>;

    open spec fn view_wf(v: Seq<char>) -> bool {
        true
    }

    open spec fn view_of(d: &String) -> Seq<char> {
        d@
    }

    open spec fn merge_spec(a: Seq<char>, b: Seq<char>) -> Seq<char> {
        if lex_lt(a, b) {
            b
        } else {
            a
        }
    }

    open spec fn cmp_spec(a: Seq<char>, b: Seq<char>) -> Option<Ordering> {
        if lex_lt(a, b) {
            Some(Ordering::Less)
        } else if lex_lt(b, a) {
            Some(Ordering::Greater)
        } else {
            Some(Ordering::Equal)
        }
    }

    proof fn lemma_view_of_wf(d: &String) {
    }

    proof fn lemma_merge_spec_wf(a: Seq<char>, b: Seq<char>) {
    }

    fn merge_in(val: &mut String, other: String) {
        if str_lt(val.as_str(), other.as_str()) {
            *val = other;
        }
    }

    fn partial_cmp(val: &String, other: &String) -> (r: Option<Ordering>) {
        if str_lt(val.as_str(), other.as_str()) {
            Some(Ordering::Less)
        } else if str_lt(other.as_str(), val.as_str()) {
            Some(Ordering::Greater)
        } else {
            Some(Ordering::Equal)
        }
    }
}

/// Keep the lesser value; the order reverses the domain's natural one.
pub struct Min<T: Ord> {
    _phantom: PhantomData<T>,
}

impl Merge for Min<u64> {
    type Domain = u64;

    type ViewT = u64;

    open spec fn view_wf(v: u64) -> bool {
        true
    }

    open spec fn view_of(d: &u64) -> u64 {
        *d
    }

    open spec fn merge_spec(a: u64, b: u64) -> u64 {
        if a > b {
            b
        } else {
            a
        }
    }

    open spec fn cmp_spec(a: u64, b: u64) -> Option<Ordering> {
        if a > b {
            Some(Ordering::Less)
        } else if a == b {
            Some(Ordering::Equal)
        } else {
            Some(Ordering::Greater)
        }
    }

    proof fn lemma_view_of_wf(d: &u64) {
    }

    proof fn lemma_merge_spec_wf(a: u64, b: u64) {
    }

    fn merge_in(val: &mut u64, other: u64) {
        if *val > other {
            *val = other;
        }
    }

    fn partial_cmp(val: &u64, other: &u64) -> (r: Option<Ordering>) {
        if *val > *other {
            Some(Ordering::Less)
        } else if *val == *other {
            Some(Ordering::Equal)
        } else {
            Some(Ordering::Greater)
        }
    }
}

impl Merge for Min<String> {
    type Domain = String;

    type ViewT = Seq<char>;

    open spec fn view_wf(v: Seq<char>) -> bool {
        true
    }

    open spec fn view_of(d: &String) -> Seq<char> {
        d@
    }

    open spec fn merge_spec(a: Seq<char>, b: Seq<char>) -> Seq<char> {
        if lex_lt(b, a) {
            b
        } else {
            a
        }
    }

    open spec fn cmp_spec(a: Seq<char>, b: Seq<char>) -> Option<Ordering> {
        if lex_lt(b, a) {
            Some(Ordering::Less)
        } else if lex_lt(a, b) {
            Some(Ordering::Greater)
        } else {
            Some(Ordering::Equal)
        }
    }

    proof fn lemma_view_of_wf(d: &String) {
    }

    proof fn lemma_merge_spec_wf(a: Seq<char>, b: Seq<char>) {
    }

    fn merge_in(val: &mut String, other: String) {
        if str_lt(other.as_str(), val.as_str()) {
            *val = other;
        }
    }

    fn partial_cmp(val: &String, other: &String) -> (r: Option<Ordering>) {
        if str_lt(other.as_str(), val.as_str()) {
            Some(Ordering::Less)
        } else if str_lt(val.as_str(), other.as_str()) {
            Some(Ordering::Greater)
        } else {
            Some(Ordering::Equal)
        }
    }
}

// SET MERGES //

/// In-place set union; a set is greater the more it holds.
pub struct Union<T> {
    _phantom: PhantomData<T>,
}

impl Merge for Union<IntSet> {
    type Domain = IntSet;

    type ViewT = Set<u64>;

    open spec fn view_wf(v: Set<u64>) -> bool {
        v.finite()
    }

    open spec fn view_of(d: &IntSet) -> Set<u64> {
        d@
    }

    open spec fn merge_spec(a: Set<u64>, b: Set<u64>) -> Set<u64> {
        a.union(b)
    }

    open spec fn cmp_spec(a: Set<u64>, b: Set<u64>) -> Option<Ordering> {
        if a.subset_of(b) && b.subset_of(a) {
            Some(Ordering::Equal)
        } else if b.subset_of(a) {
            Some(Ordering::Greater)
        } else if a.subset_of(b) {
            Some(Ordering::Less)
        } else {
            None
        }
    }

    proof fn lemma_view_of_wf(d: &IntSet) {
        lemma_int_set_view_finite(d);
    }

    proof fn lemma_merge_spec_wf(a: Set<u64>, b: Set<u64>) {
    }

    fn merge_in(val: &mut IntSet, other: IntSet) {
        val.union_in(other);
    }

    fn partial_cmp(val: &IntSet, other: &IntSet) -> (r: Option<Ordering>) {
        let ab = val.is_subset_of(other);
        let ba = other.is_subset_of(val);
        if ab && ba {
            Some(Ordering::Equal)
        } else if ba {
            Some(Ordering::Greater)
        } else if ab {
            Some(Ordering::Less)
        } else {
            None
        }
    }
}

/// In-place set intersection; a set is greater the less it holds.
pub struct Intersect<T> {
    _phantom: PhantomData<T>,
}

impl Merge for Intersect<IntSet> {
    type Domain = IntSet;

    type ViewT = Set<u64>;

    open spec fn view_wf(v: Set<u64>) -> bool {
        v.finite()
    }

    open spec fn view_of(d: &IntSet) -> Set<u64> {
        d@
    }

    open spec fn merge_spec(a: Set<u64>, b: Set<u64>) -> Set<u64> {
        a.intersect(b)
    }

    open spec fn cmp_spec(a: Set<u64>, b: Set<u64>) -> Option<Ordering> {
        if a.subset_of(b) && b.subset_of(a) {
            Some(Ordering::Equal)
        } else if a.subset_of(b) {
            Some(Ordering::Greater)
        } else if b.subset_of(a) {
            Some(Ordering::Less)
        } else {
            None
        }
    }

    proof fn lemma_view_of_wf(d: &IntSet) {
        lemma_int_set_view_finite(d);
    }

    proof fn lemma_merge_spec_wf(a: Set<u64>, b: Set<u64>) {
    }

    fn merge_in(val: &mut IntSet, other: IntSet) {
        val.intersect_in(other);
    }

    fn partial_cmp(val: &IntSet, other: &IntSet) -> (r: Option<Ordering>) {
        let ab = val.is_subset_of(other);
        let ba = other.is_subset_of(val);
        if ab && ba {
            Some(Ordering::Equal)
        } else if ab {
            Some(Ordering::Greater)
        } else if ba {
            Some(Ordering::Less)
        } else {
            None
        }
    }
}

// MAP MERGES //

/// Key-wise map union: keys present on both sides have their values merged
/// by the nested operator; keys on one side are copied verbatim. The larger
/// map (by entry count) is the candidate greater side; every key of the
/// smaller map must be present there with a nested comparison that is
/// consistently equal-or-greater (symmetrically for less), else the maps
/// are incomparable. The size gate makes the comparison asymmetric on
/// equal-sized maps: one whose values sit below the other's compares as
/// incomparable, while the mirror comparison yields greater — kept as the
/// catalog defines it rather than smoothed over.
pub struct MapUnion<T> {
    _phantom: PhantomData<T>,
}

/// What a key of the merged map is bound to: the nested merge where both
/// sides bind it, else whichever side does.
pub open spec fn map_merged_at<F: Merge>(
    a: Map<Seq<char>, F::ViewT>,
    b: Map<Seq<char>, F::ViewT>,
    k: Seq<char>,
) -> F::ViewT {
    if a.dom().contains(k) && b.dom().contains(k) {
        F::merge_spec(a[k], b[k])
    } else if a.dom().contains(k) {
        a[k]
    } else {
        b[k]
    }
}

impl<F: Merge> Merge for MapUnion<StrMap<F>> {
    type Domain = StrMap<F::Domain>;

    type ViewT = Map<Seq<char>, F::ViewT>;

    open spec fn view_wf(v: Map<Seq<char>, F::ViewT>) -> bool {
        &&& v.dom().finite()
        &&& forall|k: Seq<char>| v.dom().contains(k) ==> F::view_wf(#[trigger] v[k])
    }

    open spec fn view_of(d: &StrMap<F::Domain>) -> Map<Seq<char>, F::ViewT> {
        d@.map_values(|x: F::Domain| F::view_of(&x))
    }

    open spec fn merge_spec(
        a: Map<Seq<char>, F::ViewT>,
        b: Map<Seq<char>, F::ViewT>,
    ) -> Map<Seq<char>, F::ViewT> {
        Map::new(
            |k: Seq<char>| a.dom().contains(k) || b.dom().contains(k),
            |k: Seq<char>| map_merged_at::<F>(a, b, k),
        )
    }

    open spec fn cmp_spec(
        a: Map<Seq<char>, F::ViewT>,
        b: Map<Seq<char>, F::ViewT>,
    ) -> Option<Ordering> {
        if a.dom().len() >= b.dom().len() {
            if b.dom().subset_of(a.dom()) && (forall|k: Seq<char>|
                b.dom().contains(k) ==> (#[trigger] F::cmp_spec(a[k], b[k])) matches Some(
                    Ordering::Equal
                    | Ordering::Greater,
                )) {
                if a.dom().len() == b.dom().len() && (forall|k: Seq<char>|
                    b.dom().contains(k) ==> #[trigger] F::cmp_spec(a[k], b[k]) == Some(
                        Ordering::Equal,
                    )) {
                    Some(Ordering::Equal)
                } else {
                    Some(Ordering::Greater)
                }
            } else {
                None
            }
        } else {
            if a.dom().subset_of(b.dom()) && (forall|k: Seq<char>|
                a.dom().contains(k) ==> (#[trigger] F::cmp_spec(a[k], b[k])) matches Some(
                    Ordering::Equal
                    | Ordering::Less,
                )) {
                Some(Ordering::Less)
            } else {
                None
            }
        }
    }

    proof fn lemma_view_of_wf(d: &StrMap<F::Domain>) {
        lemma_str_map_view_finite(d);
        let v = Self::view_of(d);
        assert(v.dom() =~= d@.dom());
        assert forall|k: Seq<char>| v.dom().contains(k) implies F::view_wf(#[trigger] v[k]) by {
            F::lemma_view_of_wf(&d@[k]);
        }
    }

    proof fn lemma_merge_spec_wf(a: Map<Seq<char>, F::ViewT>, b: Map<Seq<char>, F::ViewT>) {
        let m = Self::merge_spec(a, b);
        assert(m.dom() =~= a.dom().union(b.dom()));
        assert forall|k: Seq<char>| m.dom().contains(k) implies F::view_wf(#[trigger] m[k]) by {
            if a.dom().contains(k) && b.dom().contains(k) {
                F::lemma_merge_spec_wf(a[k], b[k]);
            }
        }
    }

    fn merge_in(val: &mut StrMap<F::Domain>, other: StrMap<F::Domain>) {
        let ghost a = Self::view_of(old(val));
        let ghost b = Self::view_of(&other);
        let ghost bdom = other@.dom();
        let mut entries = other.into_entries();
        let ghost all = entries@;
        proof {
            assert(entries@ =~= all.take(all.len() as int));
            assert(b.dom() =~= bdom);
            assert forall|i: int| 0 <= i < all.len() implies b.dom().contains(#[trigger] all[i].0@)
                && b[all[i].0@] == F::view_of(&all[i].1) by {
                assert(bdom.contains(all[i].0@));
                assert(other@[all[i].0@] == all[i].1);
            }
        }
        while entries.len() > 0
            invariant
                entries@.len() <= all.len(),
                entries@ == all.take(entries@.len() as int),
                key_views(all).no_duplicates(),
                a == Self::view_of(old(val)),
                b.dom() == bdom,
                forall|i: int|
                    0 <= i < all.len() ==> b.dom().contains(#[trigger] all[i].0@) && b[all[i].0@]
                        == F::view_of(&all[i].1),
                forall|k: Seq<char>| b.dom().contains(k) ==> key_views(all).contains(k),
                forall|k: Seq<char>|
                    #![trigger Self::view_of(val).dom().contains(k)]
                    {
                        let cur = Self::view_of(val);
                        if b.dom().contains(k) && !key_views(entries@).contains(k) {
                            cur.dom().contains(k) && cur[k] == map_merged_at::<F>(a, b, k)
                        } else {
                            (cur.dom().contains(k) <==> a.dom().contains(k)) && (a.dom().contains(
                                k,
                            ) ==> cur[k] == a[k])
                        }
                    },
            decreases entries@.len(),
        {
            let ghost pre_entries = entries@;
            let ghost cur_pre = Self::view_of(val);
            let (ks, v) = entries.pop().unwrap();
            let ghost m = pre_entries.len() - 1;
            proof {
                assert(pre_entries =~= all.take(m + 1));
                assert(entries@ =~= all.take(m));
                assert(all[m] == (ks, v));
                assert(key_views(all)[m] == ks@);
                // the key being processed is still unprocessed: it sits in the prefix
                assert(key_views(pre_entries)[m] == ks@);
                assert(key_views(pre_entries).contains(ks@));
                // and it is not in the remaining prefix, keys being duplicate-free
                assert(!key_views(entries@).contains(ks@)) by {
                    if key_views(entries@).contains(ks@) {
                        let idx = key_views(entries@).index_of(ks@);
                        assert(key_views(all)[idx] == key_views(all)[m]);
                    }
                }
            }
            let ghost valpre = val@;
            let ghost kv = ks@;
            proof {
                // at the start of this round the key is still unprocessed,
                // so the accumulator binds it as the left-hand map does
                assert(cur_pre.dom().contains(kv) <==> a.dom().contains(kv));
                assert(a.dom().contains(kv) ==> cur_pre[kv] == a[kv]);
                assert(cur_pre.dom() =~= valpre.dom());
                assert(b[kv] == F::view_of(&v)) by {
                    assert(b[all[m].0@] == F::view_of(&all[m].1));
                }
            }
            let existing = val.remove(&ks);
            match existing {
                Some(mut cur) => {
                    proof {
                        assert(valpre.dom().contains(kv));
                        assert(F::view_of(&cur) == cur_pre[kv]) by {
                            assert(cur == valpre[kv]);
                            assert(cur_pre[kv] == F::view_of(&valpre[kv]));
                        }
                    }
                    F::merge_in(&mut cur, v);
                    proof {
                        assert(F::view_of(&cur) == F::merge_spec(a[kv], b[kv]));
                    }
                    val.insert(ks, cur);
                },
                None => {
                    proof {
                        assert(!valpre.dom().contains(kv));
                        assert(!a.dom().contains(kv));
                    }
                    val.insert(ks, v);
                },
            }
            proof {
                let cur_post = Self::view_of(val);
                assert(val@ == valpre.remove(kv).insert(kv, val@[kv]));
                assert forall|k: Seq<char>|
                    #![trigger cur_post.dom().contains(k)]
                    {
                        if b.dom().contains(k) && !key_views(entries@).contains(k) {
                            cur_post.dom().contains(k) && cur_post[k] == map_merged_at::<F>(a, b, k)
                        } else {
                            (cur_post.dom().contains(k) <==> a.dom().contains(k)) && (
                            a.dom().contains(k) ==> cur_post[k] == a[k])
                        }
                    } by {
                    if k == kv {
                        assert(b.dom().contains(k));
                        assert(val@.dom().contains(k));
                        assert(cur_post.dom().contains(k));
                        assert(cur_post[k] == F::view_of(&val@[k]));
                        assert(cur_post[k] == map_merged_at::<F>(a, b, k));
                    } else {
                        assert(val@.dom().contains(k) <==> valpre.dom().contains(k));
                        assert(val@.dom().contains(k) ==> val@[k] == valpre[k]);
                        assert(cur_post.dom().contains(k) <==> cur_pre.dom().contains(k));
                        if cur_post.dom().contains(k) {
                            assert(cur_post[k] == F::view_of(&val@[k]));
                            assert(cur_pre[k] == F::view_of(&valpre[k]));
                            assert(cur_post[k] == cur_pre[k]);
                        }
                        if key_views(pre_entries).contains(k) {
                            let idx = key_views(pre_entries).index_of(k);
                            assert(idx < m);
                            assert(key_views(entries@)[idx] == k);
                            assert(key_views(entries@).contains(k));
                        } else {
                            assert(!key_views(entries@).contains(k)) by {
                                if key_views(entries@).contains(k) {
                                    let idx = key_views(entries@).index_of(k);
                                    assert(key_views(pre_entries)[idx] == k);
                                }
                            }
                        }
                    }
                }
            }
        }
        proof {
            assert(key_views(entries@) =~= Seq::<Seq<char>>::empty());
            assert(Self::view_of(val) =~= Self::merge_spec(a, b));
        }
    }

    fn partial_cmp(val: &StrMap<F::Domain>, other: &StrMap<F::Domain>) -> (r: Option<Ordering>) {
        let ghost a = Self::view_of(val);
        let ghost b = Self::view_of(other);
        let alen = val.len();
        let blen = other.len();
        proof {
            assert(a.dom() =~= val@.dom());
            assert(b.dom() =~= other@.dom());
        }
        if alen >= blen {
            let mut all_eq = true;
            let ghost mut bad: int = 0;
            let mut i: usize = 0;
            while i < blen
                invariant
                    0 <= i <= blen,
                    blen == other@.dom().len(),
                    alen == val@.dom().len(),
                    alen >= blen,
                    other.kseq().len() == blen,
                    other.kseq().no_duplicates(),
                    a == Self::view_of(val),
                    b == Self::view_of(other),
                    a.dom() == val@.dom(),
                    b.dom() == other@.dom(),
                    forall|j: int|
                        0 <= j < other.kseq().len() ==> b.dom().contains(#[trigger] other.kseq()[j]),
                    forall|k: Seq<char>| b.dom().contains(k) ==> other.kseq().contains(k),
                    forall|j: int|
                        0 <= j < i ==> {
                            let k = #[trigger] other.kseq()[j];
                            a.dom().contains(k) && (F::cmp_spec(a[k], b[k]) matches Some(
                                Ordering::Equal
                                | Ordering::Greater,
                            ))
                        },
                    all_eq ==> (forall|j: int|
                        0 <= j < i ==> F::cmp_spec(
                            a[#[trigger] other.kseq()[j]],
                            b[other.kseq()[j]],
                        ) == Some(Ordering::Equal)),
                    !all_eq ==> 0 <= bad < i && b.dom().contains(other.kseq()[bad])
                        && F::cmp_spec(a[other.kseq()[bad]], b[other.kseq()[bad]]) != Some(
                        Ordering::Equal,
                    ),
                decreases blen - i,
            {
                let k = other.key_at(i);
                let bv = other.val_at(i);
                match val.get(k) {
                    None => {
                        proof {
                            assert(b.dom().contains(other.kseq()[i as int]));
                            assert(!a.dom().contains(other.kseq()[i as int]));
                        }
                        return None;
                    },
                    Some(av) => {
                        match F::partial_cmp(av, bv) {
                            Some(Ordering::Equal) => {},
                            Some(Ordering::Greater) => {
                                proof {
                                    bad = i as int;
                                }
                                all_eq = false;
                            },
                            _ => {
                                proof {
                                    let kk = other.kseq()[i as int];
                                    assert(b.dom().contains(kk));
                                    assert(!((F::cmp_spec(a[kk], b[kk])) matches Some(
                                        Ordering::Equal
                                        | Ordering::Greater,
                                    )));
                                }
                                return None;
                            },
                        }
                    },
                }
                i += 1;
            }
            proof {
                assert forall|k: Seq<char>| b.dom().contains(k) implies a.dom().contains(k) && (
                (#[trigger] F::cmp_spec(a[k], b[k])) matches Some(
                    Ordering::Equal
                    | Ordering::Greater,
                )) by {
                    assert(other.kseq().contains(k));
                    let idx = other.kseq().index_of(k);
                    assert(other.kseq()[idx] == k);
                }
                if all_eq {
                    assert forall|k: Seq<char>| b.dom().contains(k) implies #[trigger] F::cmp_spec(
                        a[k],
                        b[k],
                    ) == Some(Ordering::Equal) by {
                        assert(other.kseq().contains(k));
                        let idx = other.kseq().index_of(k);
                        assert(other.kseq()[idx] == k);
                    }
                }
            }
            if all_eq && alen == blen {
                Some(Ordering::Equal)
            } else {
                Some(Ordering::Greater)
            }
        } else {
            let mut i: usize = 0;
            while i < alen
                invariant
                    0 <= i <= alen,
                    alen == val@.dom().len(),
                    blen == other@.dom().len(),
                    alen < blen,
                    val.kseq().len() == alen,
                    val.kseq().no_duplicates(),
                    a == Self::view_of(val),
                    b == Self::view_of(other),
                    a.dom() == val@.dom(),
                    b.dom() == other@.dom(),
                    forall|j: int|
                        0 <= j < val.kseq().len() ==> a.dom().contains(#[trigger] val.kseq()[j]),
                    forall|k: Seq<char>| a.dom().contains(k) ==> val.kseq().contains(k),
                    forall|j: int|
                        0 <= j < i ==> {
                            let k = #[trigger] val.kseq()[j];
                            b.dom().contains(k) && (F::cmp_spec(a[k], b[k]) matches Some(
                                Ordering::Equal
                                | Ordering::Less,
                            ))
                        },
                decreases alen - i,
            {
                let k = val.key_at(i);
                let av = val.val_at(i);
                match other.get(k) {
                    None => {
                        proof {
                            assert(a.dom().contains(val.kseq()[i as int]));
                            assert(!b.dom().contains(val.kseq()[i as int]));
                        }
                        return None;
                    },
                    Some(bv) => {
                        match F::partial_cmp(av, bv) {
                            Some(Ordering::Equal) => {},
                            Some(Ordering::Less) => {},
                            _ => {
                                proof {
                                    let kk = val.kseq()[i as int];
                                    assert(a.dom().contains(kk));
                                    assert(!((F::cmp_spec(a[kk], b[kk])) matches Some(
                                        Ordering::Equal
                                        | Ordering::Less,
                                    )));
                                }
                                return None;
                            },
                        }
                    },
                }
                i += 1;
            }
            proof {
                assert forall|k: Seq<char>| a.dom().contains(k) implies b.dom().contains(k) && (
                (#[trigger] F::cmp_spec(a[k], b[k])) matches Some(
                    Ordering::Equal
                    | Ordering::Less,
                )) by {
                    assert(val.kseq().contains(k));
                    let idx = val.kseq().index_of(k);
                    assert(val.kseq()[idx] == k);
                }
            }
            Some(Ordering::Less)
        }
    }
}

// PAIR MERGES //

/// A priority pair: the first component's order dominates. Merging keeps
/// the pair with the strictly greater first component, merges the second
/// components when the first are equal, and merges both components when
/// the first are incomparable.
pub struct DominatingPair<AF, BF> where AF: Merge, BF: Merge {
    _phantom: PhantomData<(AF, BF)>,
}

impl<AF: Merge, BF: Merge> Merge for DominatingPair<AF, BF> {
    type Domain = (AF::Domain, BF::Domain);

    type ViewT = (AF::ViewT, BF::ViewT);

    open spec fn view_wf(v: (AF::ViewT, BF::ViewT)) -> bool {
        AF::view_wf(v.0) && BF::view_wf(v.1)
    }

    open spec fn view_of(d: &(AF::Domain, BF::Domain)) -> (AF::ViewT, BF::ViewT) {
        (AF::view_of(&d.0), BF::view_of(&d.1))
    }

    open spec fn merge_spec(
        a: (AF::ViewT, BF::ViewT),
        b: (AF::ViewT, BF::ViewT),
    ) -> (AF::ViewT, BF::ViewT) {
        match AF::cmp_spec(a.0, b.0) {
            None => (AF::merge_spec(a.0, b.0), BF::merge_spec(a.1, b.1)),
            Some(Ordering::Equal) => (a.0, BF::merge_spec(a.1, b.1)),
            Some(Ordering::Less) => b,
            Some(Ordering::Greater) => a,
        }
    }

    open spec fn cmp_spec(
        a: (AF::ViewT, BF::ViewT),
        b: (AF::ViewT, BF::ViewT),
    ) -> Option<Ordering> {
        match AF::cmp_spec(a.0, b.0) {
            None => BF::cmp_spec(a.1, b.1),
            Some(o) => Some(o),
        }
    }

    proof fn lemma_view_of_wf(d: &(AF::Domain, BF::Domain)) {
        AF::lemma_view_of_wf(&d.0);
        BF::lemma_view_of_wf(&d.1);
    }

    proof fn lemma_merge_spec_wf(a: (AF::ViewT, BF::ViewT), b: (AF::ViewT, BF::ViewT)) {
        match AF::cmp_spec(a.0, b.0) {
            None => {
                AF::lemma_merge_spec_wf(a.0, b.0);
                BF::lemma_merge_spec_wf(a.1, b.1);
            },
            Some(Ordering::Equal) => {
                BF::lemma_merge_spec_wf(a.1, b.1);
            },
            _ => {},
        }
    }

    fn merge_in(val: &mut (AF::Domain, BF::Domain), other: (AF::Domain, BF::Domain)) {
        let cmp = AF::partial_cmp(&val.0, &other.0);
        match cmp {
            None => {
                AF::merge_in(&mut val.0, other.0);
                BF::merge_in(&mut val.1, other.1);
            },
            Some(Ordering::Equal) => {
                BF::merge_in(&mut val.1, other.1);
            },
            Some(Ordering::Less) => {
                *val = other;
            },
            Some(Ordering::Greater) => {},
        }
    }

    fn partial_cmp(
        val: &(AF::Domain, BF::Domain),
        other: &(AF::Domain, BF::Domain),
    ) -> (r: Option<Ordering>) {
        match AF::partial_cmp(&val.0, &other.0) {
            None => BF::partial_cmp(&val.1, &other.1),
            Some(o) => Some(o),
        }
    }
}

// SIGNED-RANGE MERGE //

/// Merge two signed integers to the value in the closed interval between
/// them that is nearest zero: exactly zero when the signs differ, else
/// whichever has the smaller absolute value. Values are comparable only
/// when they share a sign; closer to zero is greater.
pub struct RangeToZeroI32;

/// The sign class used by [`RangeToZeroI32`]: negative, zero or positive.
pub open spec fn sign_of(v: i32) -> int {
    if v < 0 {
        -1
    } else if v == 0 {
        0
    } else {
        1
    }
}

/// Absolute value of an `i32`, as an unbounded integer.
pub open spec fn abs_of(v: i32) -> int {
    if v < 0 {
        -(v as int)
    } else {
        v as int
    }
}

impl Merge for RangeToZeroI32 {
    type Domain = i32;

    type ViewT = i32;

    open spec fn view_wf(v: i32) -> bool {
        true
    }

    open spec fn view_of(d: &i32) -> i32 {
        *d
    }

    open spec fn merge_spec(a: i32, b: i32) -> i32 {
        if sign_of(a) != sign_of(b) {
            0
        } else if abs_of(a) > abs_of(b) {
            b
        } else {
            a
        }
    }

    open spec fn cmp_spec(a: i32, b: i32) -> Option<Ordering> {
        if sign_of(a) != sign_of(b) {
            None
        } else if abs_of(a) > abs_of(b) {
            Some(Ordering::Less)
        } else if abs_of(a) == abs_of(b) {
            Some(Ordering::Equal)
        } else {
            Some(Ordering::Greater)
        }
    }

    proof fn lemma_view_of_wf(d: &i32) {
    }

    proof fn lemma_merge_spec_wf(a: i32, b: i32) {
    }

    fn merge_in(val: &mut i32, other: i32) {
        let val_neg = *val < 0;
        let other_neg = other < 0;
        if (*val == 0) != (other == 0) || val_neg != other_neg {
            *val = 0;
        } else if val_neg {
            // both strictly negative: the greater one is nearer zero
            if *val < other {
                *val = other;
            }
        } else {
            // both zero or both strictly positive
            if *val > other {
                *val = other;
            }
        }
    }

    fn partial_cmp(val: &i32, other: &i32) -> (r: Option<Ordering>) {
        let val_neg = *val < 0;
        let other_neg = *other < 0;
        if (*val == 0) != (*other == 0) || val_neg != other_neg {
            None
        } else if val_neg {
            if *val < *other {
                Some(Ordering::Less)
            } else if *val == *other {
                Some(Ordering::Equal)
            } else {
                Some(Ordering::Greater)
            }
        } else {
            if *val > *other {
                Some(Ordering::Less)
            } else if *val == *other {
                Some(Ordering::Equal)
            } else {
                Some(Ordering::Greater)
            }
        }
    }
}

} // verus!
