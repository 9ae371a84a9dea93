use spinach::domains::{IntSet, StrMap};

#[test]
fn int_set_deduplicates() {
    let mut s = IntSet::new();
    assert_eq!(s.len(), 0);
    s.insert(1);
    s.insert(2);
    s.insert(1);
    assert_eq!(s.len(), 2);
    assert!(s.contains(1));
    assert!(s.contains(2));
    assert!(!s.contains(3));
}

#[test]
fn int_set_subsets() {
    let mut small = IntSet::new();
    small.insert(1);
    let mut big = IntSet::new();
    big.insert(2);
    big.insert(1);
    assert!(small.is_subset_of(&big));
    assert!(!big.is_subset_of(&small));
    assert!(IntSet::new().is_subset_of(&small));
    assert!(small.is_subset_of(&small.clone()));
}

#[test]
fn str_map_insert_get_remove() {
    let mut m: StrMap<u64> = StrMap::new();
    assert_eq!(m.len(), 0);
    m.insert("a".to_owned(), 1);
    m.insert("b".to_owned(), 2);
    assert_eq!(m.len(), 2);
    assert_eq!(m.get(&"a".to_owned()), Some(&1));
    assert_eq!(m.get(&"c".to_owned()), None);
    // a second binding of the same key replaces the first
    m.insert("a".to_owned(), 9);
    assert_eq!(m.len(), 2);
    assert_eq!(m.get(&"a".to_owned()), Some(&9));
    assert_eq!(m.remove(&"a".to_owned()), Some(9));
    assert_eq!(m.remove(&"a".to_owned()), None);
    assert_eq!(m.len(), 1);
}

#[test]
fn str_map_entries_and_clone() {
    let mut m: StrMap<u64> = StrMap::new();
    m.insert("x".to_owned(), 7);
    m.insert("y".to_owned(), 8);
    let copy = m.clone();
    assert_eq!(copy.get(&"x".to_owned()), Some(&7));
    let mut entries = m.into_entries();
    entries.sort();
    assert_eq!(entries, vec![("x".to_owned(), 7), ("y".to_owned(), 8)]);
}
