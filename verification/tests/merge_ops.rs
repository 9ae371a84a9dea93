use std::cmp::Ordering;

use spinach::domains::{IntSet, StrMap, str_lt};
use spinach::merge::{
    DominatingPair, Intersect, MapUnion, Max, Merge, Min, RangeToZeroI32, Union,
};

fn int_set(elems: &[u64]) -> IntSet {
    let mut s = IntSet::new();
    for &x in elems {
        s.insert(x);
    }
    s
}

fn str_map(entries: &[(&str, u64)]) -> StrMap<u64> {
    let mut m = StrMap::new();
    for &(k, v) in entries {
        m.insert(k.to_owned(), v);
    }
    m
}

#[test]
fn max_merge_keeps_greater() {
    let mut a: u64 = 3;
    Max::<u64>::merge_in(&mut a, 7);
    assert_eq!(a, 7);
    Max::<u64>::merge_in(&mut a, 2);
    assert_eq!(a, 7);
    assert_eq!(Max::<u64>::partial_cmp(&3, &7), Some(Ordering::Less));
    assert_eq!(Max::<u64>::partial_cmp(&7, &7), Some(Ordering::Equal));
    assert_eq!(Max::<u64>::partial_cmp(&9, &7), Some(Ordering::Greater));
}

#[test]
fn min_merge_keeps_lesser() {
    let mut a: u64 = 3;
    Min::<u64>::merge_in(&mut a, 7);
    assert_eq!(a, 3);
    Min::<u64>::merge_in(&mut a, 2);
    assert_eq!(a, 2);
    // the order is reversed: smaller is greater
    assert_eq!(Min::<u64>::partial_cmp(&3, &7), Some(Ordering::Greater));
    assert_eq!(Min::<u64>::partial_cmp(&7, &3), Some(Ordering::Less));
    assert_eq!(Min::<u64>::partial_cmp(&3, &3), Some(Ordering::Equal));
}

#[test]
fn max_string_merge_is_lexicographic() {
    let mut a = "bar".to_owned();
    Max::<String>::merge_in(&mut a, "baz".to_owned());
    assert_eq!(a, "baz");
    Max::<String>::merge_in(&mut a, "aaa".to_owned());
    assert_eq!(a, "baz");
    assert_eq!(
        Max::<String>::partial_cmp(&"abc".to_owned(), &"abd".to_owned()),
        Some(Ordering::Less)
    );
    assert_eq!(
        Max::<String>::partial_cmp(&"ab".to_owned(), &"ab".to_owned()),
        Some(Ordering::Equal)
    );
}

#[test]
fn min_string_merge_keeps_lexicographically_lesser() {
    let mut a = "baz".to_owned();
    Min::<String>::merge_in(&mut a, "bar".to_owned());
    assert_eq!(a, "bar");
    Min::<String>::merge_in(&mut a, "zzz".to_owned());
    assert_eq!(a, "bar");
    // the order is reversed: the lesser string is the greater element
    assert_eq!(
        Min::<String>::partial_cmp(&"abc".to_owned(), &"abd".to_owned()),
        Some(Ordering::Greater)
    );
    assert_eq!(
        Min::<String>::partial_cmp(&"ab".to_owned(), &"ab".to_owned()),
        Some(Ordering::Equal)
    );
}

#[test]
fn str_lt_orders_prefixes_first() {
    assert!(str_lt("ab", "abc"));
    assert!(!str_lt("abc", "ab"));
    assert!(str_lt("", "a"));
    assert!(!str_lt("a", "a"));
    assert!(str_lt("abc", "abd"));
    assert!(!str_lt("b", "abc"));
}

// The signed-range operator picks the value nearest zero from the closed
// interval between its arguments.
#[test]
fn range_to_zero_merge() {
    let mut a: i32 = 5;
    RangeToZeroI32::merge_in(&mut a, -3);
    assert_eq!(a, 0);
    let mut b: i32 = 5;
    RangeToZeroI32::merge_in(&mut b, 3);
    assert_eq!(b, 3);
    let mut c: i32 = -5;
    RangeToZeroI32::merge_in(&mut c, -2);
    assert_eq!(c, -2);
}

#[test]
fn range_to_zero_cmp_requires_same_sign() {
    assert_eq!(RangeToZeroI32::partial_cmp(&5, &-3), None);
    assert_eq!(RangeToZeroI32::partial_cmp(&0, &5), None);
    assert_eq!(RangeToZeroI32::partial_cmp(&-5, &-2), Some(Ordering::Less));
    assert_eq!(RangeToZeroI32::partial_cmp(&2, &5), Some(Ordering::Greater));
    assert_eq!(RangeToZeroI32::partial_cmp(&3, &3), Some(Ordering::Equal));
}

// With one sign, the signed-range merge is idempotent, commutative and
// associative on concrete values; across signs everything collapses to zero.
#[test]
fn range_to_zero_merge_laws_on_values() {
    let (a, b, c): (i32, i32, i32) = (5, -3, 2);
    let merge = |x: i32, y: i32| {
        let mut v = x;
        RangeToZeroI32::merge_in(&mut v, y);
        v
    };
    assert_eq!(merge(a, a), a);
    assert_eq!(merge(a, b), merge(b, a));
    assert_eq!(merge(merge(a, b), c), merge(a, merge(b, c)));
}

#[test]
fn union_merge_and_cmp() {
    let mut a = int_set(&[1, 2]);
    Union::<IntSet>::merge_in(&mut a, int_set(&[2, 3]));
    assert_eq!(a.len(), 3);
    assert!(a.contains(1) && a.contains(2) && a.contains(3));

    assert_eq!(
        Union::<IntSet>::partial_cmp(&int_set(&[1, 2]), &int_set(&[1, 2, 3])),
        Some(Ordering::Less)
    );
    assert_eq!(Union::<IntSet>::partial_cmp(&int_set(&[1, 2]), &int_set(&[2, 3])), None);
    assert_eq!(
        Union::<IntSet>::partial_cmp(&int_set(&[1, 2, 3]), &int_set(&[3, 2])),
        Some(Ordering::Greater)
    );
    assert_eq!(
        Union::<IntSet>::partial_cmp(&int_set(&[2, 1]), &int_set(&[1, 2])),
        Some(Ordering::Equal)
    );
}

#[test]
fn intersect_merge_and_cmp() {
    let mut a = int_set(&[1, 2]);
    Intersect::<IntSet>::merge_in(&mut a, int_set(&[2, 3]));
    assert_eq!(a.len(), 1);
    assert!(a.contains(2));

    // under intersection the subset is the greater side
    assert_eq!(
        Intersect::<IntSet>::partial_cmp(&int_set(&[1, 2]), &int_set(&[1, 2, 3])),
        Some(Ordering::Greater)
    );
    assert_eq!(
        Intersect::<IntSet>::partial_cmp(&int_set(&[1, 2, 3]), &int_set(&[1, 2])),
        Some(Ordering::Less)
    );
    assert_eq!(Intersect::<IntSet>::partial_cmp(&int_set(&[1, 2]), &int_set(&[2, 3])), None);
}

// A lesser set is absorbed by the union, as the comparison promises.
#[test]
fn union_less_is_absorbed() {
    let small = int_set(&[1, 2]);
    let big = int_set(&[1, 2, 3]);
    assert_eq!(Union::<IntSet>::partial_cmp(&small, &big), Some(Ordering::Less));
    let mut merged = small;
    Union::<IntSet>::merge_in(&mut merged, big.clone());
    assert_eq!(Union::<IntSet>::partial_cmp(&merged, &big), Some(Ordering::Equal));
}

type MaxMap = MapUnion<StrMap<Max<u64>>>;

#[test]
fn map_union_merges_keywise() {
    let mut a = str_map(&[("a", 1), ("b", 5)]);
    let b = str_map(&[("b", 3), ("c", 2)]);
    MaxMap::merge_in(&mut a, b);
    assert_eq!(a.len(), 3);
    assert_eq!(a.get(&"a".to_owned()), Some(&1));
    assert_eq!(a.get(&"b".to_owned()), Some(&5));
    assert_eq!(a.get(&"c".to_owned()), Some(&2));
}

#[test]
fn map_union_cmp() {
    assert_eq!(
        MaxMap::partial_cmp(&str_map(&[("a", 1)]), &str_map(&[("a", 1), ("b", 2)])),
        Some(Ordering::Less)
    );
    assert_eq!(
        MaxMap::partial_cmp(&str_map(&[("a", 1), ("b", 2)]), &str_map(&[("b", 2)])),
        Some(Ordering::Greater)
    );
    assert_eq!(
        MaxMap::partial_cmp(&str_map(&[("a", 1), ("b", 2)]), &str_map(&[("b", 2), ("a", 1)])),
        Some(Ordering::Equal)
    );
    assert_eq!(MaxMap::partial_cmp(&str_map(&[("a", 1)]), &str_map(&[("b", 1)])), None);
    assert_eq!(MaxMap::partial_cmp(&str_map(&[]), &str_map(&[])), Some(Ordering::Equal));
    // a key missing from the larger side makes the maps incomparable
    assert_eq!(
        MaxMap::partial_cmp(&str_map(&[("a", 1), ("b", 2)]), &str_map(&[("c", 1)])),
        None
    );
}

// Comparing equal means exactly equality, and a lesser map is absorbed.
#[test]
fn map_union_cmp_agrees_with_merge() {
    let small = str_map(&[("a", 1)]);
    let big = str_map(&[("a", 1), ("b", 2)]);
    assert_eq!(MaxMap::partial_cmp(&small, &big), Some(Ordering::Less));
    let mut merged = small;
    MaxMap::merge_in(&mut merged, big);
    assert_eq!(merged.len(), 2);
    assert_eq!(merged.get(&"a".to_owned()), Some(&1));
    assert_eq!(merged.get(&"b".to_owned()), Some(&2));
}

type Dominating = DominatingPair<Max<u64>, Max<String>>;

#[test]
fn dominating_pair_replaces_on_greater_first() {
    let mut pair = (1u64, "x".to_owned());
    Dominating::merge_in(&mut pair, (2, "y".to_owned()));
    assert_eq!(pair, (2, "y".to_owned()));
}

#[test]
fn dominating_pair_merges_second_on_equal_first() {
    let mut pair = (2u64, "x".to_owned());
    Dominating::merge_in(&mut pair, (2, "y".to_owned()));
    assert_eq!(pair, (2, "y".to_owned()));
    let mut pair = (2u64, "x".to_owned());
    Dominating::merge_in(&mut pair, (1, "y".to_owned()));
    assert_eq!(pair, (2, "x".to_owned()));
}

#[test]
fn dominating_pair_cmp_is_dominated_by_first() {
    let a = (1u64, "z".to_owned());
    let b = (2u64, "a".to_owned());
    assert_eq!(Dominating::partial_cmp(&a, &b), Some(Ordering::Less));
    // equal first components report equal even where the seconds differ
    let c = (2u64, "b".to_owned());
    assert_eq!(Dominating::partial_cmp(&b, &c), Some(Ordering::Equal));
}

// The merge laws on concrete values, for a nested operator pair.
#[test]
fn merge_laws_on_values() {
    let merge = |x: (u64, String), y: (u64, String)| {
        let mut v = x;
        Dominating::merge_in(&mut v, y);
        v
    };
    let a = (1u64, "x".to_owned());
    let b = (2u64, "y".to_owned());
    let c = (2u64, "z".to_owned());
    assert_eq!(merge(a.clone(), a.clone()), a);
    assert_eq!(merge(a.clone(), b.clone()), merge(b.clone(), a.clone()));
    assert_eq!(
        merge(merge(a.clone(), b.clone()), c.clone()),
        merge(a.clone(), merge(b.clone(), c.clone()))
    );
}
