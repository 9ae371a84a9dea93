//! Verified domain collections for the merge catalog: a duplicate-free
//! integer set and an association-list map keyed by strings, each modelled
//! by its mathematical view, plus the lexicographic order on strings.

use vstd::prelude::*;
use vstd::seq_lib::*;
use vstd::string::StrSliceExecFns;

verus! {

/// A finite set of `u64` values, backed by a duplicate-free vector.
/// Its model is the [`Set`] of its elements.
pub struct IntSet {
    elems: Vec<u64>,
}

/// Appending an element extends exactly what a sequence holds.
pub(crate) proof fn lemma_push_contains<A>(s: Seq<A>, x: A, y: A)
    ensures
        s.push(x).contains(y) <==> (s.contains(y) || y == x),
{
    if s.push(x).contains(y) {
        let idx = choose|idx: int| 0 <= idx < s.push(x).len() && #[trigger] s.push(x)[idx] == y;
        if idx < s.len() {
            assert(s[idx] == y);
        }
    }
    if s.contains(y) {
        let idx = choose|idx: int| 0 <= idx < s.len() && #[trigger] s[idx] == y;
        assert(s.push(x)[idx] == y);
    } else if y == x {
        assert(s.push(x)[s.len() as int] == y);
    }
}

/// Lexicographic order on character sequences: a proper prefix comes
/// first, otherwise the first differing character decides.
pub open spec fn lex_lt(a: Seq<char>, b: Seq<char>) -> bool
    decreases a.len(),
{
    if b.len() == 0 {
        false
    } else if a.len() == 0 {
        true
    } else if a[0] < b[0] {
        true
    } else if a[0] == b[0] {
        lex_lt(a.skip(1), b.skip(1))
    } else {
        false
    }
}

/// Dropping an equal prefix does not change the lexicographic order.
proof fn lemma_lex_skip(a: Seq<char>, b: Seq<char>, i: int)
    requires
        0 <= i <= a.len(),
        i <= b.len(),
        forall|j: int| 0 <= j < i ==> a[j] == b[j],
    ensures
        lex_lt(a, b) == lex_lt(a.skip(i), b.skip(i)),
    decreases i,
{
    if i > 0 {
        assert(a[0] == b[0]);
        lemma_lex_skip(a.skip(1), b.skip(1), i - 1);
        assert(a.skip(1).skip(i - 1) =~= a.skip(i));
        assert(b.skip(1).skip(i - 1) =~= b.skip(i));
    } else {
        assert(a.skip(0) =~= a);
        assert(b.skip(0) =~= b);
    }
}

/// Of two character sequences, either one is lexicographically below the
/// other or they are equal, and never both.
pub proof fn lemma_lex_trichotomy(a: Seq<char>, b: Seq<char>)
    ensures
        !lex_lt(a, b) && !lex_lt(b, a) ==> a == b,
        lex_lt(a, b) ==> !lex_lt(b, a) && a != b,
    decreases a.len(),
{
    if a.len() > 0 && b.len() > 0 && a[0] == b[0] {
        lemma_lex_trichotomy(a.skip(1), b.skip(1));
        if !lex_lt(a, b) && !lex_lt(b, a) {
            assert(a.skip(1) == b.skip(1));
            assert(a =~= b) by {
                assert(forall|j: int| 1 <= j < a.len() ==> a[j] == a.skip(1)[j - 1]);
                assert(forall|j: int| 1 <= j < b.len() ==> b[j] == b.skip(1)[j - 1]);
            }
        }
        if lex_lt(a, b) && a == b {
            assert(lex_lt(a.skip(1), b.skip(1)));
        }
    }
}

/// The lexicographic order is transitive.
pub proof fn lemma_lex_trans(a: Seq<char>, b: Seq<char>, c: Seq<char>)
    requires
        lex_lt(a, b),
        lex_lt(b, c),
    ensures
        lex_lt(a, c),
    decreases a.len(),
{
    if a.len() > 0 && b.len() > 0 && c.len() > 0 && a[0] == b[0] && b[0] == c[0] {
        lemma_lex_trans(a.skip(1), b.skip(1), c.skip(1));
    }
}

/// Whether `a` comes lexicographically before `b`.
pub fn str_lt(a: &str, b: &str) -> (r: bool)
    ensures
        r == lex_lt(a@, b@),
{
    let alen = a.unicode_len();
    let blen = b.unicode_len();
    let mut i: usize = 0;
    while i < blen
        invariant
            alen == a@.len(),
            blen == b@.len(),
            0 <= i <= blen,
            i <= alen,
            forall|j: int| 0 <= j < i ==> a@[j] == b@[j],
        decreases blen - i,
    {
        proof {
            lemma_lex_skip(a@, b@, i as int);
        }
        if i >= alen {
            return true;
        }
        let ca = a.get_char(i);
        let cb = b.get_char(i);
        if ca < cb {
            return true;
        }
        if cb < ca {
            return false;
        }
        i += 1;
    }
    proof {
        lemma_lex_skip(a@, b@, i as int);
    }
    false
}

/// The model of a [`StrMap`] always has a finite domain.
pub proof fn lemma_str_map_view_finite<V>(m: &StrMap<V>)
    ensures
        m@.dom().finite(),
{
    lemma_assoc_map_finite(m.entries@);
}

/// The model of an [`IntSet`] is always a finite set.
pub proof fn lemma_int_set_view_finite(s: &IntSet)
    ensures
        s@.finite(),
{
    broadcast use seq_to_set_is_finite;

}

/// Whether `v` holds `x`.
fn vec_contains(v: &Vec<u64>, x: u64) -> (r: bool)
    ensures
        r == v@.contains(x),
{
    let n = v.len();
    let mut i: usize = 0;
    while i < n
        invariant
            n == v@.len(),
            0 <= i <= n,
            forall|j: int| 0 <= j < i ==> v@[j] != x,
        decreases n - i,
    {
        if v[i] == x {
            return true;
        }
        i += 1;
    }
    false
}

impl View for IntSet {
    type V = Set<u64>;

    closed spec fn view(&self) -> Set<u64> {
        self.elems@.to_set()
    }
}

impl IntSet {
    #[verifier::type_invariant]
    spec fn inv(self) -> bool {
        self.elems@.no_duplicates()
    }

    /// The empty set.
    pub fn new() -> (s: Self)
        ensures
            s@ == Set::<u64>::empty(),
    {
        let s = IntSet { elems: Vec::new() };
        proof {
            assert(s@ =~= Set::<u64>::empty());
        }
        s
    }

    /// The number of elements.
    pub fn len(&self) -> (n: usize)
        ensures
            n == self@.len(),
            self@.finite(),
    {
        proof {
            use_type_invariant(self);
            self.elems@.unique_seq_to_set();
        }
        self.elems.len()
    }

    /// Whether the set holds `x`.
    pub fn contains(&self, x: u64) -> (r: bool)
        ensures
            r == self@.contains(x),
    {
        vec_contains(&self.elems, x)
    }

    /// Add `x` to the set.
    pub fn insert(&mut self, x: u64)
        ensures
            final(self)@ == old(self)@.insert(x),
    {
        proof {
            use_type_invariant(&*self);
        }
        let present = vec_contains(&self.elems, x);
        let mut tmp = IntSet { elems: Vec::new() };
        core::mem::swap(self, &mut tmp);
        let IntSet { elems: mut mine } = tmp;
        let ghost pre = mine@;
        if !present {
            mine.push(x);
        }
        let result = IntSet { elems: mine };
        proof {
            assert forall|y: u64| result@.contains(y) <==> old(self)@.insert(x).contains(y) by {
                lemma_push_contains(pre, x, y);
            }
            assert(result@ =~= old(self)@.insert(x));
        }
        *self = result;
    }

    /// Whether every element of `self` is in `other`.
    pub fn is_subset_of(&self, other: &IntSet) -> (r: bool)
        ensures
            r == self@.subset_of(other@),
    {
        let n = self.elems.len();
        let mut i: usize = 0;
        while i < n
            invariant
                n == self.elems@.len(),
                0 <= i <= n,
                forall|j: int| 0 <= j < i ==> other@.contains(#[trigger] self.elems@[j]),
            decreases n - i,
        {
            if !vec_contains(&other.elems, self.elems[i]) {
                assert(self@.contains(self.elems@[i as int]));
                return false;
            }
            i += 1;
        }
        true
    }

    /// Add every element of `other` to `self`.
    pub fn union_in(&mut self, other: IntSet)
        ensures
            final(self)@ == old(self)@.union(other@),
    {
        proof {
            use_type_invariant(&*self);
            use_type_invariant(&other);
        }
        let mut tmp = IntSet { elems: Vec::new() };
        core::mem::swap(self, &mut tmp);
        let IntSet { elems: mut mine } = tmp;
        let IntSet { elems: others } = other;
        let n = others.len();
        let mut i: usize = 0;
        while i < n
            invariant
                n == others@.len(),
                0 <= i <= n,
                mine@.no_duplicates(),
                forall|x: u64|
                    mine@.contains(x) <==> (old(self)@.contains(x) || others@.take(i as int).contains(
                        x,
                    )),
            decreases n - i,
        {
            let x = others[i];
            let ghost pre = mine@;
            let present = vec_contains(&mine, x);
            if !present {
                mine.push(x);
            }
            proof {
                assert(others@.take(i + 1) =~= others@.take(i as int).push(others@[i as int]));
                assert forall|y: u64|
                    mine@.contains(y) <==> (old(self)@.contains(y) || others@.take(
                        i + 1,
                    ).contains(y)) by {
                    lemma_push_contains(others@.take(i as int), x, y);
                    if !present {
                        lemma_push_contains(pre, x, y);
                    }
                }
            }
            i += 1;
        }
        proof {
            assert(others@.take(n as int) =~= others@);
        }
        let result = IntSet { elems: mine };
        proof {
            assert(result@ =~= old(self)@.union(other@));
        }
        *self = result;
    }

    /// Keep only the elements of `self` that are also in `other`.
    pub fn intersect_in(&mut self, other: IntSet)
        ensures
            final(self)@ == old(self)@.intersect(other@),
    {
        proof {
            use_type_invariant(&*self);
            use_type_invariant(&other);
        }
        let mut tmp = IntSet { elems: Vec::new() };
        core::mem::swap(self, &mut tmp);
        let IntSet { elems: mine } = tmp;
        let IntSet { elems: others } = other;
        let n = mine.len();
        let mut kept: Vec<u64> = Vec::new();
        let mut i: usize = 0;
        while i < n
            invariant
                n == mine@.len(),
                0 <= i <= n,
                mine@.no_duplicates(),
                kept@.no_duplicates(),
                forall|x: u64|
                    kept@.contains(x) <==> (mine@.take(i as int).contains(x) && others@.contains(
                        x,
                    )),
            decreases n - i,
        {
            let x = mine[i];
            let ghost pre = kept@;
            let present = vec_contains(&others, x);
            if present {
                proof {
                    if kept@.contains(x) {
                        assert(mine@.take(i as int).contains(x));
                        let idx = choose|idx: int|
                            0 <= idx < i && #[trigger] mine@.take(i as int)[idx] == x;
                        assert(mine@[idx] == mine@[i as int]);
                        assert(false);
                    }
                }
                kept.push(x);
            }
            proof {
                assert(mine@.take(i + 1) =~= mine@.take(i as int).push(mine@[i as int]));
                assert forall|y: u64|
                    kept@.contains(y) <==> (mine@.take(i + 1).contains(y) && others@.contains(
                        y,
                    )) by {
                    lemma_push_contains(mine@.take(i as int), x, y);
                    if present {
                        lemma_push_contains(pre, x, y);
                    }
                }
            }
            i += 1;
        }
        proof {
            assert(mine@.take(n as int) =~= mine@);
        }
        let result = IntSet { elems: kept };
        proof {
            assert(result@ =~= old(self)@.intersect(other@));
        }
        *self = result;
    }
}

impl Clone for IntSet {
    /// An exact copy: the clone models the same set.
    fn clone(&self) -> (r: Self)
        ensures
            r@ == self@,
    {
        proof {
            use_type_invariant(self);
        }
        let n = self.elems.len();
        let mut es: Vec<u64> = Vec::new();
        let mut i: usize = 0;
        while i < n
            invariant
                n == self.elems@.len(),
                0 <= i <= n,
                es@ == self.elems@.take(i as int),
            decreases n - i,
        {
            es.push(self.elems[i]);
            proof {
                assert(es@ =~= self.elems@.take(i + 1));
            }
            i += 1;
        }
        proof {
            assert(es@ =~= self.elems@);
        }
        IntSet { elems: es }
    }
}

// STRING-KEYED MAP //

/// The key views of an association sequence, in order.
pub open spec fn key_views<V>(s: Seq<(String, V)>) -> Seq<Seq<char>> {
    s.map_values(|p: (String, V)| p.0@)
}

/// The mapping an association sequence stands for; a later entry wins,
/// though with duplicate-free keys the order never matters.
pub open spec fn assoc_map<V>(s: Seq<(String, V)>) -> Map<Seq<char>, V>
    decreases s.len(),
{
    if s.len() == 0 {
        Map::empty()
    } else {
        assoc_map(s.drop_last()).insert(s.last().0@, s.last().1)
    }
}

/// The domain of an association map holds exactly its keys.
pub proof fn lemma_assoc_map_dom_at<V>(s: Seq<(String, V)>, k: Seq<char>)
    ensures
        assoc_map(s).dom().contains(k) <==> key_views(s).contains(k),
    decreases s.len(),
{
    if s.len() == 0 {
    } else {
        lemma_assoc_map_dom_at(s.drop_last(), k);
        assert(key_views(s.drop_last()) =~= key_views(s).drop_last());
        if assoc_map(s).dom().contains(k) {
            if k == s.last().0@ {
                assert(key_views(s)[s.len() - 1] == k);
            } else {
                let idx = key_views(s.drop_last()).index_of(k);
                assert(key_views(s).drop_last()[idx] == k);
                assert(key_views(s)[idx] == k);
            }
        }
        if key_views(s).contains(k) {
            let idx = key_views(s).index_of(k);
            if idx < s.len() - 1 {
                assert(key_views(s.drop_last())[idx] == k);
                assert(key_views(s.drop_last()).contains(k));
            }
        }
    }
}

/// The domain of an association map is finite.
pub proof fn lemma_assoc_map_finite<V>(s: Seq<(String, V)>)
    ensures
        assoc_map(s).dom().finite(),
    decreases s.len(),
{
    if s.len() > 0 {
        lemma_assoc_map_finite(s.drop_last());
    }
}

/// The domain of an association map is exactly its keys, and it is finite.
pub proof fn lemma_assoc_map_dom<V>(s: Seq<(String, V)>)
    ensures
        forall|k: Seq<char>| assoc_map(s).dom().contains(k) <==> key_views(s).contains(k),
        assoc_map(s).dom().finite(),
{
    lemma_assoc_map_finite(s);
    assert forall|k: Seq<char>|
        assoc_map(s).dom().contains(k) <==> key_views(s).contains(k) by {
        lemma_assoc_map_dom_at(s, k);
    }
}

/// Each entry of a duplicate-free association sequence is in its map.
pub proof fn lemma_assoc_map_index<V>(s: Seq<(String, V)>, i: int)
    requires
        key_views(s).no_duplicates(),
        0 <= i < s.len(),
    ensures
        assoc_map(s).dom().contains(s[i].0@),
        assoc_map(s)[s[i].0@] == s[i].1,
    decreases s.len(),
{
    if i == s.len() - 1 {
    } else {
        assert(key_views(s.drop_last()) =~= key_views(s).drop_last());
        lemma_assoc_map_index(s.drop_last(), i);
        assert(key_views(s)[i] != key_views(s)[s.len() - 1]);
        assert(s[i].0@ != s.last().0@);
    }
}

/// Removing an entry of a duplicate-free association sequence removes
/// exactly its key from the map.
pub proof fn lemma_assoc_map_remove<V>(s: Seq<(String, V)>, i: int)
    requires
        key_views(s).no_duplicates(),
        0 <= i < s.len(),
    ensures
        assoc_map(s.remove(i)) == assoc_map(s).remove(s[i].0@),
    decreases s.len(),
{
    lemma_assoc_map_dom(s.drop_last());
    assert(key_views(s.drop_last()) =~= key_views(s).drop_last());
    if i == s.len() - 1 {
        assert(s.remove(i) =~= s.drop_last());
        assert(key_views(s)[i] == s[i].0@);
        assert(!key_views(s.drop_last()).contains(s[i].0@)) by {
            if key_views(s.drop_last()).contains(s[i].0@) {
                let idx = key_views(s.drop_last()).index_of(s[i].0@);
                assert(key_views(s)[idx] == key_views(s)[i]);
            }
        }
        assert(assoc_map(s.drop_last()) =~= assoc_map(s).remove(s[i].0@));
    } else {
        lemma_assoc_map_remove(s.drop_last(), i);
        assert(s.remove(i).drop_last() =~= s.drop_last().remove(i));
        assert(s.remove(i).last() == s.last());
        assert(assoc_map(s.remove(i)) == assoc_map(s.drop_last().remove(i)).insert(
            s.last().0@,
            s.last().1,
        ));
        assert(s[i].0@ != s.last().0@) by {
            assert(key_views(s)[i] == s[i].0@);
            assert(key_views(s)[s.len() - 1] == s.last().0@);
        }
        assert(assoc_map(s.drop_last()).remove(s[i].0@).insert(s.last().0@, s.last().1)
            =~= assoc_map(s.drop_last()).insert(s.last().0@, s.last().1).remove(s[i].0@));
    }
}

/// A map from string keys to values of type `V`, backed by an association
/// vector with duplicate-free keys. Its model is a [`Map`] keyed by the
/// keys' character sequences.
pub struct StrMap<V> {
    entries: Vec<(String, V)>,
}

impl<V> View for StrMap<V> {
    type V = Map<Seq<char>, V>;

    closed spec fn view(&self) -> Map<Seq<char>, V> {
        assoc_map(self.entries@)
    }
}

impl<V> StrMap<V> {
    #[verifier::type_invariant]
    spec fn inv(self) -> bool {
        key_views(self.entries@).no_duplicates()
    }

    /// The keys of the map, in insertion order.
    pub closed spec fn kseq(&self) -> Seq<Seq<char>> {
        key_views(self.entries@)
    }

    /// How the key sequence relates to the map: it is duplicate-free and
    /// enumerates the (finite) domain exactly.
    proof fn keys_props(&self)
        requires
            self.inv(),
        ensures
            self.kseq().no_duplicates(),
            self.kseq().len() == self@.dom().len(),
            self.kseq().len() == self.entries@.len(),
            forall|i: int|
                0 <= i < self.kseq().len() ==> self@.dom().contains(#[trigger] self.kseq()[i]),
            forall|k: Seq<char>| self@.dom().contains(k) ==> self.kseq().contains(k),
            self@.dom().finite(),
    {
        lemma_assoc_map_dom(self.entries@);
        assert(self@.dom() =~= self.kseq().to_set());
        self.kseq().unique_seq_to_set();
        assert forall|i: int| 0 <= i < self.kseq().len() implies self@.dom().contains(
            #[trigger] self.kseq()[i],
        ) by {
            assert(self.kseq().contains(self.kseq()[i]));
        }
    }

    /// The empty map.
    pub fn new() -> (m: Self)
        ensures
            m@ == Map::<Seq<char>, V>::empty(),
    {
        StrMap { entries: Vec::new() }
    }

    /// The number of entries. Also surfaces how the key sequence
    /// enumerates the domain, for callers that walk the map by index.
    pub fn len(&self) -> (n: usize)
        ensures
            n == self@.dom().len(),
            self@.dom().finite(),
            self.kseq().no_duplicates(),
            self.kseq().len() == n,
            forall|i: int|
                0 <= i < self.kseq().len() ==> self@.dom().contains(#[trigger] self.kseq()[i]),
            forall|k: Seq<char>| self@.dom().contains(k) ==> self.kseq().contains(k),
    {
        proof {
            use_type_invariant(self);
            self.keys_props();
        }
        self.entries.len()
    }

    /// Look up the value bound to `k`.
    pub fn get(&self, k: &String) -> (r: Option<&V>)
        ensures
            match r {
                Some(v) => self@.dom().contains(k@) && *v == self@[k@],
                None => !self@.dom().contains(k@),
            },
    {
        proof {
            use_type_invariant(self);
            lemma_assoc_map_dom(self.entries@);
        }
        let n = self.entries.len();
        let mut i: usize = 0;
        while i < n
            invariant
                n == self.entries@.len(),
                0 <= i <= n,
                key_views(self.entries@).no_duplicates(),
                forall|j: int| 0 <= j < i ==> #[trigger] self.entries@[j].0@ != k@,
            decreases n - i,
        {
            if self.entries[i].0.eq(k) {
                proof {
                    lemma_assoc_map_index(self.entries@, i as int);
                }
                return Some(&self.entries[i].1);
            }
            i += 1;
        }
        proof {
            if self@.dom().contains(k@) {
                assert(key_views(self.entries@).contains(k@));
                let idx = key_views(self.entries@).index_of(k@);
                assert(self.entries@[idx].0@ == k@);
            }
        }
        None
    }

    /// Remove and return the value bound to `k`, if any.
    pub fn remove(&mut self, k: &String) -> (r: Option<V>)
        ensures
            final(self)@ == old(self)@.remove(k@),
            match r {
                Some(v) => old(self)@.dom().contains(k@) && v == old(self)@[k@],
                None => !old(self)@.dom().contains(k@),
            },
    {
        proof {
            use_type_invariant(&*self);
            lemma_assoc_map_dom(self.entries@);
        }
        let mut tmp = StrMap { entries: Vec::new() };
        core::mem::swap(self, &mut tmp);
        let StrMap { entries: mut es } = tmp;
        let ghost pre = es@;
        let n = es.len();
        let mut i: usize = 0;
        let mut found: Option<V> = None;
        while i < n
            invariant
                n == pre.len(),
                0 <= i <= n,
                es@ == pre,
                found is None,
                old(self)@ == assoc_map(pre),
                key_views(pre).no_duplicates(),
                forall|j: int| 0 <= j < i ==> #[trigger] pre[j].0@ != k@,
            decreases n - i,
        {
            if es[i].0.eq(k) {
                proof {
                    lemma_assoc_map_index(pre, i as int);
                    lemma_assoc_map_remove(pre, i as int);
                    assert(key_views(pre.remove(i as int)) =~= key_views(pre).remove(i as int));
                    let kv = key_views(pre);
                    let kvr = kv.remove(i as int);
                    assert forall|j: int, l: int| 0 <= j < l < kvr.len() implies kvr[j] != kvr[l] by {
                        let j2: int = if j < i { j } else { j + 1 };
                        let l2: int = if l < i { l } else { l + 1 };
                        assert(kvr[j] == kv[j2] && kvr[l] == kv[l2]);
                    }
                }
                let e = es.remove(i);
                found = Some(e.1);
                let result = StrMap { entries: es };
                *self = result;
                return found;
            }
            i += 1;
        }
        proof {
            if old(self)@.dom().contains(k@) {
                assert(key_views(pre).contains(k@));
                let idx = key_views(pre).index_of(k@);
                assert(pre[idx].0@ == k@);
            }
            assert(old(self)@ =~= old(self)@.remove(k@));
        }
        let result = StrMap { entries: es };
        *self = result;
        None
    }

    /// Bind `k` to `v`, replacing any earlier binding.
    pub fn insert(&mut self, k: String, v: V)
        ensures
            final(self)@ == old(self)@.insert(k@, v),
    {
        let _ = self.remove(&k);
        proof {
            use_type_invariant(&*self);
            lemma_assoc_map_dom(self.entries@);
        }
        let mut tmp = StrMap { entries: Vec::new() };
        core::mem::swap(self, &mut tmp);
        let StrMap { entries: mut es } = tmp;
        let ghost pre = es@;
        es.push((k, v));
        proof {
            assert(es@.drop_last() =~= pre);
            assert(key_views(es@) =~= key_views(pre).push(es@.last().0@));
            key_views(pre).unique_seq_to_set();
            if key_views(pre).contains(es@.last().0@) {
                let idx = key_views(pre).index_of(es@.last().0@);
                assert(pre[idx].0@ == es@.last().0@);
                assert(false);
            }
            assert forall|j: int, l: int|
                0 <= j < l < key_views(es@).len() implies key_views(es@)[j] != key_views(
                es@,
            )[l] by {
                if l < key_views(pre).len() {
                } else {
                    assert(key_views(es@)[l] == es@.last().0@);
                    assert(key_views(pre)[j] == key_views(es@)[j]);
                    assert(key_views(pre).contains(key_views(pre)[j]));
                }
            }
            assert(old(self)@.insert(k@, v) =~= old(self)@.remove(k@).insert(k@, v));
        }
        let result = StrMap { entries: es };
        *self = result;
    }

    /// Consume the map, yielding its entries with duplicate-free keys.
    pub fn into_entries(self) -> (r: Vec<(String, V)>)
        ensures
            key_views(r@).no_duplicates(),
            r@.len() == self@.dom().len(),
            forall|i: int|
                0 <= i < r@.len() ==> self@.dom().contains(#[trigger] r@[i].0@) && self@[r@[i].0@]
                    == r@[i].1,
            forall|k: Seq<char>| self@.dom().contains(k) ==> key_views(r@).contains(k),
    {
        proof {
            use_type_invariant(&self);
            self.keys_props();
        }
        let StrMap { entries: es } = self;
        proof {
            assert forall|i: int| 0 <= i < es@.len() implies self@.dom().contains(
                #[trigger] es@[i].0@,
            ) && self@[es@[i].0@] == es@[i].1 by {
                lemma_assoc_map_index(es@, i);
                assert(key_views(es@)[i] == es@[i].0@);
            }
            assert forall|i: int| 0 <= i < es@.len() implies self.kseq()[i] == es@[i].0@ by {}
        }
        es
    }

    /// The key at position `i` of the key sequence.
    pub fn key_at(&self, i: usize) -> (k: &String)
        requires
            i < self@.dom().len(),
        ensures
            k@ == self.kseq()[i as int],
    {
        proof {
            use_type_invariant(self);
            self.keys_props();
        }
        &self.entries[i].0
    }

    /// The value at position `i` of the key sequence.
    pub fn val_at(&self, i: usize) -> (v: &V)
        requires
            i < self@.dom().len(),
        ensures
            *v == self@[self.kseq()[i as int]],
    {
        proof {
            use_type_invariant(self);
            self.keys_props();
            lemma_assoc_map_index(self.entries@, i as int);
        }
        &self.entries[i].1
    }
}

impl<V: Clone> Clone for StrMap<V> {
    /// A copy with the same keys; each value is a clone of the original's,
    /// with whatever the value type's `clone` promises.
    fn clone(&self) -> (r: Self)
        ensures
            r@.dom() == self@.dom(),
            forall|k: Seq<char>|
                self@.dom().contains(k) ==> cloned::<V>(self@[k], #[trigger] r@[k]),
    {
        proof {
            use_type_invariant(self);
            self.keys_props();
        }
        let n = self.entries.len();
        let mut es: Vec<(String, V)> = Vec::new();
        let mut i: usize = 0;
        while i < n
            invariant
                n == self.entries@.len(),
                0 <= i <= n,
                es@.len() == i,
                forall|j: int|
                    0 <= j < i ==> (#[trigger] es@[j]).0 == self.entries@[j].0 && cloned::<V>(
                        self.entries@[j].1,
                        es@[j].1,
                    ),
            decreases n - i,
        {
            let k = self.entries[i].0.clone();
            let v = self.entries[i].1.clone();
            es.push((k, v));
            i += 1;
        }
        proof {
            assert(key_views(es@) =~= key_views(self.entries@));
        }
        let r = StrMap { entries: es };
        proof {
            assert forall|k: Seq<char>| r@.dom().contains(k) <==> self@.dom().contains(k) by {
                lemma_assoc_map_dom_at(es@, k);
                lemma_assoc_map_dom_at(self.entries@, k);
            }
            assert(r@.dom() =~= self@.dom());
            assert forall|k: Seq<char>| self@.dom().contains(k) implies cloned::<V>(
                self@[k],
                #[trigger] r@[k],
            ) by {
                assert(key_views(self.entries@).contains(k));
                let idx = key_views(self.entries@).index_of(k);
                lemma_assoc_map_index(self.entries@, idx);
                lemma_assoc_map_index(es@, idx);
                assert(es@[idx].0@ == k);
                assert(self@[k] == self.entries@[idx].1);
                assert(r@[k] == es@[idx].1);
            }
        }
        r
    }
}

} // verus!
