//! The dictionary of keys read from keyfiles, and the record of which keys
//! each keyfile contributed.
use vstd::prelude::*;
use crate::assoc::{self, find_key};

verus! {

/// A value together with where it came from: the name of the keyfile, or
/// the markers for environment variables and missing keys.
#[derive(Debug)]
pub struct ValueAndSource {
    pub value: String,
    pub source: String,
}

impl View for ValueAndSource {
    type V = (Seq<char>, Seq<char>);

    open spec fn view(&self) -> (Seq<char>, Seq<char>) {
        (self.value@, self.source@)
    }
}

impl ValueAndSource {
    /// A copy of this value and source.
    pub fn duplicate(&self) -> (r: ValueAndSource)
        ensures
            r@ == self@,
    {
        ValueAndSource { value: self.value.clone(), source: self.source.clone() }
    }
}

/// The dictionary of keys with their values and sources.
pub struct KeysAndSources {
    dictionary: Vec<(String, ValueAndSource)>,
}

/// The map that a list of entries stands for: each key to the value of its
/// first entry.
pub open spec fn entries_map<T: View>(e: Seq<(String, T)>) -> Map<Seq<char>, T::V> {
    Map::new(
        |k: Seq<char>| assoc::index_of(assoc::keys_of(e), k) < e.len(),
        |k: Seq<char>| e[assoc::index_of(assoc::keys_of(e), k)].1@,
    )
}

/// Rewriting the entry of an existing key, or appending an entry for a new
/// key, inserts into the map that the list stands for.
pub proof fn lemma_entries_map_set<T: View>(e: Seq<(String, T)>, p: int, key: String, v: T)
    requires
        p == assoc::index_of(assoc::keys_of(e), key@),
    ensures
        p < e.len() ==> entries_map(e.update(p, (key, v))) == entries_map(e).insert(key@, v@),
        p == e.len() ==> entries_map(e.push((key, v))) == entries_map(e).insert(key@, v@),
{
    let ks = assoc::keys_of(e);
    assoc::lemma_index_of(ks, key@);
    if p < e.len() {
        let e2 = e.update(p, (key, v));
        assert(assoc::keys_of(e2) =~= ks);
        assert forall|k: Seq<char>| #[trigger]
            entries_map(e2).contains_key(k) implies entries_map(e2)[k] == entries_map(e).insert(
            key@,
            v@,
        )[k] by {
            assoc::lemma_index_of(ks, k);
        }
        assert(entries_map(e2) =~= entries_map(e).insert(key@, v@));
    } else {
        let e2 = e.push((key, v));
        assert(assoc::keys_of(e2) =~= ks.push(key@));
        assert forall|k: Seq<char>| #[trigger]
            assoc::index_of(assoc::keys_of(e2), k) == assoc::index_of(ks.push(key@), k) by {}
        assert forall|k: Seq<char>|
            entries_map(e2).contains_key(k) == entries_map(e).insert(key@, v@).contains_key(k)
            by {
            assoc::lemma_index_of_push(ks, key@, k);
        }
        assert forall|k: Seq<char>| #[trigger]
            entries_map(e2).contains_key(k) implies entries_map(e2)[k] == entries_map(e).insert(
            key@,
            v@,
        )[k] by {
            assoc::lemma_index_of_push(ks, key@, k);
            assoc::lemma_index_of(ks, k);
            let i = assoc::index_of(ks, k);
            if i < e.len() {
                assert(e2[i] == e[i]);
            }
        }
        assert(entries_map(e2) =~= entries_map(e).insert(key@, v@));
    }
}

/// The map of an empty list is empty.
pub proof fn lemma_entries_map_empty<T: View>(e: Seq<(String, T)>)
    requires
        e.len() == 0,
    ensures
        entries_map(e) == Map::<Seq<char>, T::V>::empty(),
{
    assert(entries_map(e) =~= Map::<Seq<char>, T::V>::empty());
}

/// A list with an entry stands for a map with a key.
pub proof fn lemma_entries_map_nonempty<T: View>(e: Seq<(String, T)>)
    requires
        e.len() > 0,
    ensures
        entries_map(e).contains_key(e[0].0@),
{
    let ks = assoc::keys_of(e);
    assoc::lemma_index_of(ks, e[0].0@);
    if assoc::index_of(ks, e[0].0@) == e.len() {
        assert(ks[0] == e[0].0@);
    }
}

/// The keys of the map of a list of entries are the keys of its entries;
/// there are finitely many, and as many as entries when no key repeats.
pub proof fn lemma_entries_map_dom<T: View>(e: Seq<(String, T)>)
    ensures
        entries_map(e).dom() == assoc::keys_of(e).to_set(),
        entries_map(e).dom().finite(),
        assoc::keys_of(e).no_duplicates() ==> entries_map(e).dom().len() == e.len(),
{
    let ks = assoc::keys_of(e);
    assert forall|k: Seq<char>| #[trigger] entries_map(e).dom().contains(k) == ks.to_set().contains(
        k,
    ) by {
        assoc::lemma_index_of(ks, k);
        if ks.contains(k) {
            let j = choose|j: int| 0 <= j < ks.len() && ks[j] == k;
            assert(ks[j] == k);
        }
    }
    assert(entries_map(e).dom() =~= ks.to_set());
    vstd::seq_lib::seq_to_set_is_finite(ks);
    if ks.no_duplicates() {
        ks.unique_seq_to_set();
    }
}

impl View for KeysAndSources {
    type V = Map<Seq<char>, (Seq<char>, Seq<char>)>;

    closed spec fn view(&self) -> Map<Seq<char>, (Seq<char>, Seq<char>)> {
        entries_map(self.dictionary@)
    }
}

impl KeysAndSources {
    /// No key has more than one entry.
    #[verifier::type_invariant]
    closed spec fn inv(self) -> bool {
        assoc::keys_of(self.dictionary@).no_duplicates()
    }

    /// A dictionary holds finitely many keys.
    pub proof fn lemma_view_finite(self)
        ensures
            self@.dom().finite(),
    {
        lemma_entries_map_dom(self.dictionary@);
    }

    /// An empty dictionary.
    pub fn new() -> (r: KeysAndSources)
        ensures
            r@ == Map::<Seq<char>, (Seq<char>, Seq<char>)>::empty(),
            r@.dom().finite(),
    {
        let r = KeysAndSources { dictionary: Vec::new() };
        proof {
            lemma_entries_map_empty(r.dictionary@);
        }
        r
    }

    /// The number of keys.
    pub fn len(&self) -> (n: usize)
        ensures
            self@.dom().finite(),
            n == self@.dom().len(),
    {
        proof {
            use_type_invariant(self);
            lemma_entries_map_dom(self.dictionary@);
        }
        self.dictionary.len()
    }

    /// Whether the dictionary holds no key.
    pub fn is_empty(&self) -> (b: bool)
        ensures
            b == (self@ == Map::<Seq<char>, (Seq<char>, Seq<char>)>::empty()),
    {
        proof {
            if self.dictionary@.len() == 0 {
                lemma_entries_map_empty(self.dictionary@);
            } else {
                lemma_entries_map_nonempty(self.dictionary@);
            }
        }
        self.dictionary.len() == 0
    }

    /// The value and source recorded for `key`.
    pub fn get(&self, key: &String) -> (r: Option<&ValueAndSource>)
        ensures
            match r {
                Some(v) => self@.contains_key(key@) && v@ == self@[key@],
                None => !self@.contains_key(key@),
            },
    {
        let p = find_key(&self.dictionary, key);
        proof {
            assoc::lemma_index_of(assoc::keys_of(self.dictionary@), key@);
        }
        if p < self.dictionary.len() {
            Some(&self.dictionary[p].1)
        } else {
            None
        }
    }

    /// Sets the value and source of `key`.
    pub fn insert(&mut self, key: String, v: ValueAndSource)
        ensures
            final(self)@ == old(self)@.insert(key@, v@),
            final(self)@.dom().finite(),
    {
        proof {
            use_type_invariant(&*self);
        }
        let ghost e = self.dictionary@;
        let ghost ks = assoc::keys_of(e);
        let p = find_key(&self.dictionary, &key);
        proof {
            assoc::lemma_index_of(ks, key@);
            lemma_entries_map_set(e, p as int, key, v);
        }
        let mut d: Vec<(String, ValueAndSource)> = Vec::new();
        std::mem::swap(&mut d, &mut self.dictionary);
        if p < d.len() {
            d.set(p, (key, v));
            assert(assoc::keys_of(d@) =~= ks);
        } else {
            d.push((key, v));
            proof {
                assoc::lemma_push_distinct(ks, key@);
            }
            assert(assoc::keys_of(d@) =~= ks.push(key@));
        }
        proof {
            lemma_entries_map_dom(d@);
        }
        self.dictionary = d;
    }
}

/// For each keyfile, the keys taken from it, in the order they were taken.
pub struct KeysFromFiles {
    sources: Vec<(String, Vec<String>)>,
}

/// A list of strings by their views.
pub open spec fn strings_view(v: Seq<String>) -> Seq<Seq<char>> {
    v.map_values(|s: String| s@)
}

/// Appends `key` to the keys recorded for `source`.
pub open spec fn add_key(m: Map<Seq<char>, Seq<Seq<char>>>, source: Seq<char>, key: Seq<char>) -> Map<
    Seq<char>,
    Seq<Seq<char>>,
> {
    m.insert(
        source,
        if m.contains_key(source) {
            m[source].push(key)
        } else {
            seq![key]
        },
    )
}

/// The list of keys recorded in one entry.
pub struct KeyList {
    pub keys: Vec<String>,
}

impl View for KeyList {
    type V = Seq<Seq<char>>;

    open spec fn view(&self) -> Seq<Seq<char>> {
        strings_view(self.keys@)
    }
}

impl View for KeysFromFiles {
    type V = Map<Seq<char>, Seq<Seq<char>>>;

    closed spec fn view(&self) -> Map<Seq<char>, Seq<Seq<char>>> {
        Map::new(
            |k: Seq<char>|
                assoc::index_of(assoc::keys_of(self.sources@), k) < self.sources@.len(),
            |k: Seq<char>|
                strings_view(self.sources@[assoc::index_of(assoc::keys_of(self.sources@), k)].1@),
        )
    }
}

impl KeysFromFiles {
    /// No keyfile has more than one list.
    #[verifier::type_invariant]
    closed spec fn inv(self) -> bool {
        assoc::keys_of(self.sources@).no_duplicates()
    }

    closed spec fn as_lists(self) -> Seq<(String, KeyList)> {
        self.sources@.map_values(|p: (String, Vec<String>)| (p.0, KeyList { keys: p.1 }))
    }

    proof fn lemma_view_is_entries_map(self)
        ensures
            self@ == entries_map(self.as_lists()),
    {
        let l = self.as_lists();
        assert(assoc::keys_of(l) =~= assoc::keys_of(self.sources@));
        assert forall|k: Seq<char>| #[trigger]
            self@.contains_key(k) implies self@[k] == entries_map(l)[k] by {
            let i = assoc::index_of(assoc::keys_of(self.sources@), k);
            assert(0 <= i < self.sources@.len()) by {
                assoc::lemma_index_of(assoc::keys_of(self.sources@), k);
            }
            assert(l[i] == (self.sources@[i].0, KeyList { keys: self.sources@[i].1 }));
            assert(l[i].1@ == strings_view(self.sources@[i].1@));
        }
        assert(self@ =~= entries_map(l));
    }

    /// No keyfile has contributed a key yet.
    pub fn new() -> (r: KeysFromFiles)
        ensures
            r@ == Map::<Seq<char>, Seq<Seq<char>>>::empty(),
    {
        let r = KeysFromFiles { sources: Vec::new() };
        assert(r@ =~= Map::<Seq<char>, Seq<Seq<char>>>::empty());
        r
    }

    /// Records that `key` was taken from `source`.
    pub fn add(&mut self, source: String, key: String)
        ensures
            final(self)@ == add_key(old(self)@, source@, key@),
    {
        proof {
            use_type_invariant(&*self);
        }
        let ghost ks = assoc::keys_of(self.sources@);
        let p = find_key(&self.sources, &source);
        let ghost old_lists = self.as_lists();
        proof {
            assoc::lemma_index_of(assoc::keys_of(self.sources@), source@);
            self.lemma_view_is_entries_map();
            assert(assoc::keys_of(old_lists) =~= assoc::keys_of(self.sources@));
        }
        if p < self.sources.len() {
            let mut list = self.sources[p].1.clone();
            proof {
                assert(list@ =~= self.sources@[p as int].1@);
            }
            list.push(key);
            let ghost kl = KeyList { keys: list };
            proof {
                lemma_entries_map_set(old_lists, p as int, source, kl);
                assert(strings_view(list@) =~= strings_view(self.sources@[p as int].1@).push(
                    key@,
                ));
            }
            let mut v: Vec<(String, Vec<String>)> = Vec::new();
            std::mem::swap(&mut v, &mut self.sources);
            v.set(p, (source, list));
            assert(assoc::keys_of(v@) =~= ks);
            self.sources = v;
            proof {
                assert(self.as_lists() =~= old_lists.update(p as int, (source, kl)));
                self.lemma_view_is_entries_map();
            }
        } else {
            let mut list: Vec<String> = Vec::new();
            list.push(key);
            let ghost kl = KeyList { keys: list };
            proof {
                lemma_entries_map_set(old_lists, p as int, source, kl);
                assert(strings_view(list@) =~= seq![key@]);
            }
            let mut v: Vec<(String, Vec<String>)> = Vec::new();
            std::mem::swap(&mut v, &mut self.sources);
            v.push((source, list));
            proof {
                assoc::lemma_push_distinct(ks, source@);
            }
            assert(assoc::keys_of(v@) =~= ks.push(source@));
            self.sources = v;
            proof {
                assert(self.as_lists() =~= old_lists.push((source, kl)));
                self.lemma_view_is_entries_map();
            }
        }
    }
}

/// Records `key` with `val` from the keyfile `source`: the dictionary maps
/// `key` to `(val, source)` whether or not it held the key before, and
/// `key` is added to the keys taken from `source`.
pub fn insert_key(
    dict: &mut KeysAndSources,
    keys_from_files: &mut KeysFromFiles,
    val: String,
    source: String,
    key: String,
)
    ensures
        final(dict)@ == old(dict)@.insert(key@, (val@, source@)),
        final(keys_from_files)@ == add_key(old(keys_from_files)@, source@, key@),
{
    dict.insert(key.clone(), ValueAndSource { value: val.clone(), source: source.clone() });
    keys_from_files.add(source, key);
}

} // verus!
