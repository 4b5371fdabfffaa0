use indexmap::IndexMap;
use vstd::prelude::*;

verus! {

#[verifier::external_type_specification]
#[verifier::external_body]
#[verifier::reject_recursive_types(K)]
#[verifier::reject_recursive_types(V)]
#[verifier::reject_recursive_types(S)]
pub struct ExIndexMap<K, V, S>(IndexMap<K, V, S>);

/// An index from names to positions in an entry list.
pub type NameIndex = IndexMap<String, usize>;

/// What an index from names to positions holds.
pub uninterp spec fn index_positions(m: NameIndex) -> Map<Seq<char>, usize>;

/// Relies on `IndexMap::new`: a new map holds no key.
#[verifier::external_body]
fn index_new() -> (r: NameIndex)
    ensures
        index_positions(r).dom().is_empty(),
{
    IndexMap::new()
}

/// Relies on `IndexMap::get`: the value stored for an equal key, if any.
#[verifier::external_body]
fn index_get(m: &NameIndex, key: &str) -> (r: Option<usize>)
    ensures
        index_positions(*m).contains_key(key@) ==> r == Some(index_positions(*m)[key@]),
        !index_positions(*m).contains_key(key@) ==> r is None,
{
    m.get(key).copied()
}

/// Relies on `IndexMap::insert`: afterwards the key maps to the new value and
/// every other key keeps its value.
#[verifier::external_body]
fn index_insert(m: &mut NameIndex, key: String, value: usize)
    ensures
        index_positions(*final(m)) == index_positions(*old(m)).insert(key@, value),
{
    m.insert(key, value);
}

/// The position of the entry with key `k`, searching from the end.
pub open spec fn find_key<V>(s: Seq<(Seq<char>, V)>, k: Seq<char>) -> Option<int>
    decreases s.len(),
{
    if s.len() == 0 {
        None
    } else if s.last().0 == k {
        Some(s.len() - 1)
    } else {
        find_key(s.drop_last(), k)
    }
}

/// Inserting into an ordered map: an existing key keeps its place and takes
/// the new value; a new key goes last.
pub open spec fn insert_entry<V>(s: Seq<(Seq<char>, V)>, k: Seq<char>, v: V) -> Seq<(Seq<char>, V)> {
    match find_key(s, k) {
        Some(i) => s.update(i, (k, v)),
        None => s.push((k, v)),
    }
}

proof fn lemma_update_other<V>(s: Seq<(Seq<char>, V)>, i: int, k: Seq<char>, v: V, k2: Seq<char>)
    requires
        0 <= i < s.len(),
        s[i].0 == k,
        k != k2,
    ensures
        find_key(s.update(i, (k, v)), k2) == find_key(s, k2),
    decreases s.len(),
{
    let u = s.update(i, (k, v));
    if i == s.len() - 1 {
        assert(u.drop_last() =~= s.drop_last());
    } else {
        assert(u.last() == s.last());
        assert(u.drop_last() =~= s.drop_last().update(i, (k, v)));
        lemma_update_other(s.drop_last(), i, k, v, k2);
    }
}

/// Inserting under one key leaves the lookup of every other key as it was.
pub proof fn lemma_insert_entry_other<V>(s: Seq<(Seq<char>, V)>, k: Seq<char>, v: V, k2: Seq<char>)
    requires
        k != k2,
    ensures
        find_key(insert_entry(s, k, v), k2) == find_key(s, k2),
        find_key(s, k2) is Some ==> insert_entry(s, k, v)[find_key(s, k2)->0] == s[find_key(s, k2)->0],
{
    match find_key(s, k) {
        Some(i) => {
            lemma_find_key_some(s, k);
            lemma_update_other(s, i, k, v, k2);
        },
        None => {
            assert(s.push((k, v)).drop_last() =~= s);
        },
    }
    if find_key(s, k2) is Some {
        lemma_find_key_some(s, k2);
    }
}

/// An insertion adds at most one entry.
pub proof fn lemma_insert_entry_len<V>(s: Seq<(Seq<char>, V)>, k: Seq<char>, v: V)
    ensures
        insert_entry(s, k, v).len() <= s.len() + 1,
{
    if find_key(s, k) is Some {
        lemma_find_key_some(s, k);
    }
}

/// No two entries share a key.
pub open spec fn keys_unique<V>(s: Seq<(Seq<char>, V)>) -> bool {
    forall|i: int, j: int| 0 <= i < s.len() && 0 <= j < s.len() && #[trigger] s[i].0 == #[trigger] s[j].0 ==> i == j
}

pub proof fn lemma_find_key_at<V>(s: Seq<(Seq<char>, V)>, k: Seq<char>, i: int)
    requires
        0 <= i < s.len(),
        s[i].0 == k,
        forall|j: int| i < j < s.len() ==> #[trigger] s[j].0 != k,
    ensures
        find_key(s, k) == Some(i),
    decreases s.len(),
{
    if i != s.len() - 1 {
        assert(s.last() == s[s.len() - 1]);
        lemma_find_key_at(s.drop_last(), k, i);
    }
}

pub proof fn lemma_find_key_none<V>(s: Seq<(Seq<char>, V)>, k: Seq<char>)
    requires
        forall|j: int| 0 <= j < s.len() ==> #[trigger] s[j].0 != k,
    ensures
        find_key(s, k) is None,
    decreases s.len(),
{
    if s.len() > 0 {
        assert(s.last() == s[s.len() - 1]);
        lemma_find_key_none(s.drop_last(), k);
    }
}

pub proof fn lemma_find_key_some<V>(s: Seq<(Seq<char>, V)>, k: Seq<char>)
    requires
        find_key(s, k) is Some,
    ensures
        0 <= find_key(s, k)->0 < s.len(),
        s[find_key(s, k)->0].0 == k,
        forall|j: int| find_key(s, k)->0 < j < s.len() ==> #[trigger] s[j].0 != k,
    decreases s.len(),
{
    if s.last().0 != k {
        lemma_find_key_some(s.drop_last(), k);
        assert forall|j: int| find_key(s, k)->0 < j < s.len() implies #[trigger] s[j].0 != k by {
            if j < s.len() - 1 {
                assert(s[j] == s.drop_last()[j]);
            }
        }
    }
}

/// After an insertion, looking the key up finds the inserted value.
pub proof fn lemma_insert_entry_find<V>(s: Seq<(Seq<char>, V)>, k: Seq<char>, v: V)
    ensures
        find_key(insert_entry(s, k, v), k) is Some,
        insert_entry(s, k, v)[find_key(insert_entry(s, k, v), k)->0].1 == v,
{
    let t = insert_entry(s, k, v);
    match find_key(s, k) {
        Some(i) => {
            lemma_find_key_some(s, k);
            assert forall|j: int| i < j < t.len() implies #[trigger] t[j].0 != k by {
                assert(t[j] == s[j]);
            }
            lemma_find_key_at(t, k, i);
        },
        None => {
            assert(t.last() == (k, v));
        },
    }
}

/// A map from names to values that keeps the order in which names were first
/// inserted.
#[derive(Debug)]
pub struct NamedMap<V> {
    index: NameIndex,
    entries: Vec<(String, V)>,
}

impl<V> NamedMap<V> {
    /// The entries in order, keys seen as character sequences.
    pub closed spec fn view(&self) -> Seq<(Seq<char>, V)> {
        self.entries@.map_values(|e: (String, V)| (e.0@, e.1))
    }

    #[verifier::type_invariant]
    spec fn wf(self) -> bool {
        &&& keys_unique(self@)
        &&& forall|k: Seq<char>| #[trigger]
            index_positions(self.index).contains_key(k) ==> {
                let i = index_positions(self.index)[k] as int;
                0 <= i < self@.len() && self@[i].0 == k
            }
        &&& forall|i: int| 0 <= i < self@.len() ==> #[trigger]
            index_positions(self.index).contains_key(self@[i].0)
    }

    proof fn lemma_lookup(&self, k: Seq<char>)
        requires
            self.wf(),
        ensures
            index_positions(self.index).contains_key(k) ==> find_key(self@, k) == Some(
                index_positions(self.index)[k] as int,
            ),
            !index_positions(self.index).contains_key(k) ==> find_key(self@, k) is None,
    {
        if index_positions(self.index).contains_key(k) {
            let i = index_positions(self.index)[k] as int;
            assert forall|j: int| i < j < self@.len() implies #[trigger] self@[j].0 != k by {}
            lemma_find_key_at(self@, k, i);
        } else {
            assert forall|j: int| 0 <= j < self@.len() implies #[trigger] self@[j].0 != k by {}
            lemma_find_key_none(self@, k);
        }
    }

    /// An empty map.
    pub fn new() -> (r: NamedMap<V>)
        ensures
            r@ == Seq::<(Seq<char>, V)>::empty(),
    {
        let r = NamedMap { index: index_new(), entries: Vec::new() };
        assert(r@ =~= Seq::<(Seq<char>, V)>::empty());
        r
    }

    /// The number of entries.
    pub fn len(&self) -> (r: usize)
        ensures
            r == self@.len(),
            keys_unique(self@),
    {
        proof {
            use_type_invariant(self);
        }
        self.entries.len()
    }

    /// The key of the entry at position `i`.
    pub fn key_at(&self, i: usize) -> (r: &String)
        requires
            i < self@.len(),
        ensures
            r@ == self@[i as int].0,
    {
        &self.entries[i].0
    }

    /// The value of the entry at position `i`.
    pub fn value_at(&self, i: usize) -> (r: &V)
        requires
            i < self@.len(),
        ensures
            *r == self@[i as int].1,
    {
        &self.entries[i].1
    }

    /// The value stored under `key`, if any.
    pub fn get(&self, key: &str) -> (r: Option<&V>)
        ensures
            match find_key(self@, key@) {
                Some(i) => r is Some && *r->0 == self@[i].1,
                None => r is None,
            },
    {
        proof {
            use_type_invariant(self);
            self.lemma_lookup(key@);
        }
        match index_get(&self.index, key) {
            Some(i) => Some(&self.entries[i].1),
            None => None,
        }
    }

    /// Whether an entry has key `key`.
    pub fn contains_key(&self, key: &str) -> (r: bool)
        ensures
            r == find_key(self@, key@) is Some,
    {
        proof {
            use_type_invariant(self);
            self.lemma_lookup(key@);
        }
        index_get(&self.index, key).is_some()
    }

    /// Inserts `value` under `key`: an existing key keeps its place and takes
    /// the new value, a new key goes last.
    pub fn insert(&mut self, key: String, value: V)
        requires
            old(self)@.len() < usize::MAX,
        ensures
            final(self)@ == insert_entry(old(self)@, key@, value),
    {
        proof {
            use_type_invariant(&*self);
            self.lemma_lookup(key@);
        }
        let ghost k = key@;
        let ghost old_view = self@;
        let ghost old_index = self.index;
        let mut taken = NamedMap::new();
        std::mem::swap(self, &mut taken);
        let NamedMap { mut index, mut entries } = taken;
        let ghost view_of = |e: Seq<(String, V)>| e.map_values(|e: (String, V)| (e.0@, e.1));
        assert(old_view == view_of(entries@));
        match index_get(&index, key.as_str()) {
            Some(i) => {
                entries.set(i, (key, value));
                let ghost nv = view_of(entries@);
                assert(nv =~= old_view.update(i as int, (k, value)));
                assert forall|j: int| 0 <= j < nv.len() implies #[trigger]
                    index_positions(index).contains_key(nv[j].0) by {
                    if j != i {
                        assert(nv[j] == old_view[j]);
                    }
                }
            },
            None => {
                let n = entries.len();
                index_insert(&mut index, key.clone(), n);
                entries.push((key, value));
                let ghost nv = view_of(entries@);
                assert(nv =~= old_view.push((k, value)));
                assert forall|j: int| 0 <= j < nv.len() implies #[trigger]
                    index_positions(index).contains_key(nv[j].0) by {
                    if j < n {
                        assert(nv[j] == old_view[j]);
                    }
                }
                assert forall|a: int, b: int|
                    0 <= a < nv.len() && 0 <= b < nv.len() && #[trigger] nv[a].0
                        == #[trigger] nv[b].0 implies a == b by {
                    if a < n && b < n {
                        assert(nv[a] == old_view[a]);
                        assert(nv[b] == old_view[b]);
                    } else if a < n {
                        assert(nv[a] == old_view[a]);
                        assert(index_positions(old_index).contains_key(old_view[a].0));
                    } else if b < n {
                        assert(nv[b] == old_view[b]);
                        assert(index_positions(old_index).contains_key(old_view[b].0));
                    }
                }
            },
        }
        *self = NamedMap { index, entries };
    }
}

} // verus!
