//! A mapping from names to values that remembers the order in which the names
//! were first set, so that what is written from it is the same every time.

use vstd::prelude::*;

verus! {

/// No two entries have the same key.
pub open spec fn distinct_keys<V>(entries: Seq<(Seq<char>, V)>) -> bool {
    forall|i: int, j: int|
        0 <= i < j < entries.len() ==> (#[trigger] entries[i]).0 != (#[trigger] entries[j]).0
}

/// Some entry has the key `key`.
pub open spec fn has_key<V>(entries: Seq<(Seq<char>, V)>, key: Seq<char>) -> bool {
    exists|i: int| 0 <= i < entries.len() && (#[trigger] entries[i]).0 == key
}

/// The value of the first entry with the key `key`.
pub open spec fn lookup<V>(entries: Seq<(Seq<char>, V)>, key: Seq<char>) -> Option<V>
    decreases entries.len(),
{
    if entries.len() == 0 {
        None
    } else if entries[0].0 == key {
        Some(entries[0].1)
    } else {
        lookup(entries.drop_first(), key)
    }
}

/// The entries after `key` is set to `value`: the first entry with that key
/// gets the new value where it stands; without such an entry, a new one is
/// added at the end.
pub open spec fn inserted<V>(entries: Seq<(Seq<char>, V)>, key: Seq<char>, value: V) -> Seq<
    (Seq<char>, V),
>
    decreases entries.len(),
{
    if entries.len() == 0 {
        seq![(key, value)]
    } else if entries[0].0 == key {
        seq![(key, value)] + entries.drop_first()
    } else {
        seq![entries[0]] + inserted(entries.drop_first(), key, value)
    }
}

/// Setting a key that first occurs at `at` changes the entry there, and
/// looking it up finds the value there.
pub proof fn lemma_inserted_at<V>(entries: Seq<(Seq<char>, V)>, key: Seq<char>, value: V, at: int)
    requires
        0 <= at < entries.len(),
        entries[at].0 == key,
        forall|i: int| 0 <= i < at ==> (#[trigger] entries[i]).0 != key,
    ensures
        inserted(entries, key, value) == entries.update(at, (key, value)),
        lookup(entries, key) == Some(entries[at].1),
    decreases at,
{
    if at == 0 {
        assert(seq![(key, value)] + entries.drop_first() =~= entries.update(0, (key, value)));
    } else {
        let rest = entries.drop_first();
        assert(entries[0].0 != key);
        assert forall|i: int| 0 <= i < at - 1 implies (#[trigger] rest[i]).0 != key by {
            assert(rest[i] == entries[i + 1]);
        }
        lemma_inserted_at(rest, key, value, at - 1);
        assert(seq![entries[0]] + rest.update(at - 1, (key, value)) =~= entries.update(
            at,
            (key, value),
        ));
    }
}

/// Setting a key that no entry has adds an entry at the end, and looking it
/// up finds nothing.
pub proof fn lemma_inserted_new<V>(entries: Seq<(Seq<char>, V)>, key: Seq<char>, value: V)
    requires
        !has_key(entries, key),
    ensures
        inserted(entries, key, value) == entries.push((key, value)),
        lookup(entries, key) is None,
    decreases entries.len(),
{
    if entries.len() == 0 {
        assert(seq![(key, value)] =~= entries.push((key, value)));
    } else {
        let rest = entries.drop_first();
        assert(entries[0].0 != key);
        assert(!has_key(rest, key)) by {
            if has_key(rest, key) {
                let i = choose|i: int| 0 <= i < rest.len() && (#[trigger] rest[i]).0 == key;
                assert(entries[i + 1].0 == key);
            }
        }
        lemma_inserted_new(rest, key, value);
        assert(seq![entries[0]] + rest.push((key, value)) =~= entries.push((key, value)));
    }
}

/// After a key is set, looking it up finds the value it was set to; the keys
/// are distinct if they were; and there is one entry more if the key is new,
/// and as many as before if it is not.
pub proof fn lemma_inserted_lookup<V>(entries: Seq<(Seq<char>, V)>, key: Seq<char>, value: V)
    ensures
        lookup(inserted(entries, key, value), key) == Some(value),
        distinct_keys(entries) ==> distinct_keys(inserted(entries, key, value)),
        inserted(entries, key, value).len() == if has_key(entries, key) {
            entries.len()
        } else {
            entries.len() + 1
        },
{
    if has_key(entries, key) {
        lemma_first_position(entries, key);
        let at = first_position(entries, key);
        lemma_inserted_at(entries, key, value, at);
        lemma_inserted_at(entries.update(at, (key, value)), key, value, at);
    } else {
        lemma_inserted_new(entries, key, value);
        let longer = entries.push((key, value));
        lemma_inserted_at(longer, key, value, entries.len() as int);
    }
}

/// Setting the same key twice is the same as setting it once, to the value
/// given last.
pub proof fn lemma_inserted_twice<V>(
    entries: Seq<(Seq<char>, V)>,
    key: Seq<char>,
    first: V,
    second: V,
)
    ensures
        inserted(inserted(entries, key, first), key, second) == inserted(entries, key, second),
{
    if has_key(entries, key) {
        lemma_first_position(entries, key);
        let at = first_position(entries, key);
        lemma_inserted_at(entries, key, first, at);
        lemma_inserted_at(entries, key, second, at);
        lemma_inserted_at(entries.update(at, (key, first)), key, second, at);
        assert(entries.update(at, (key, first)).update(at, (key, second)) =~= entries.update(
            at,
            (key, second),
        ));
    } else {
        lemma_inserted_new(entries, key, first);
        lemma_inserted_new(entries, key, second);
        let longer = entries.push((key, first));
        lemma_inserted_at(longer, key, second, entries.len() as int);
        assert(longer.update(entries.len() as int, (key, second)) =~= entries.push((key, second)));
    }
}

/// Setting a key and then changing every value in the same way is the same
/// as changing every value and then setting the key to the changed value.
pub proof fn lemma_inserted_map_values<V, W>(
    entries: Seq<(Seq<char>, V)>,
    key: Seq<char>,
    value: V,
    f: spec_fn(V) -> W,
)
    ensures
        inserted(entries, key, value).map_values(|e: (Seq<char>, V)| (e.0, f(e.1))) == inserted(
            entries.map_values(|e: (Seq<char>, V)| (e.0, f(e.1))),
            key,
            f(value),
        ),
    decreases entries.len(),
{
    let g = |e: (Seq<char>, V)| (e.0, f(e.1));
    let mapped = entries.map_values(g);
    if entries.len() == 0 {
        assert(seq![(key, value)].map_values(g) =~= seq![(key, f(value))]);
    } else {
        let rest = entries.drop_first();
        assert(mapped.drop_first() =~= rest.map_values(g));
        assert(mapped[0] == g(entries[0]));
        if entries[0].0 == key {
            assert((seq![(key, value)] + rest).map_values(g) =~= seq![(key, f(value))]
                + rest.map_values(g));
        } else {
            lemma_inserted_map_values(rest, key, value, f);
            assert((seq![entries[0]] + inserted(rest, key, value)).map_values(g) =~= seq![
                mapped[0],
            ] + inserted(rest, key, value).map_values(g));
        }
    }
}

/// The first place at which `key` occurs.
pub open spec fn first_position<V>(entries: Seq<(Seq<char>, V)>, key: Seq<char>) -> int
    recommends
        has_key(entries, key),
    decreases entries.len(),
{
    if entries.len() == 0 || entries[0].0 == key {
        0
    } else {
        1 + first_position(entries.drop_first(), key)
    }
}

proof fn lemma_first_position<V>(entries: Seq<(Seq<char>, V)>, key: Seq<char>)
    requires
        has_key(entries, key),
    ensures
        0 <= first_position(entries, key) < entries.len(),
        entries[first_position(entries, key)].0 == key,
        forall|i: int| 0 <= i < first_position(entries, key) ==> (#[trigger] entries[i]).0 != key,
    decreases entries.len(),
{
    if entries.len() == 0 {
    } else if entries[0].0 == key {
    } else {
        let rest = entries.drop_first();
        let at = choose|i: int| 0 <= i < entries.len() && (#[trigger] entries[i]).0 == key;
        assert(rest[at - 1].0 == key);
        lemma_first_position(rest, key);
        let p = first_position(rest, key);
        assert(entries[p + 1] == rest[p]);
        assert forall|i: int| 0 <= i < p + 1 implies (#[trigger] entries[i]).0 != key by {
            if i > 0 {
                assert(entries[i] == rest[i - 1]);
            }
        }
    }
}

/// A mapping from names to values, in the order in which the names were
/// first set. Its view is the sequence of its entries, each a name and its
/// value; no name occurs twice.
#[derive(Debug)]
pub struct OrderedMap<V> {
    entries: Vec<(String, V)>,
}

impl<V> View for OrderedMap<V> {
    type V = Seq<(Seq<char>, V)>;

    closed spec fn view(&self) -> Seq<(Seq<char>, V)> {
        self.entries@.map_values(|e: (String, V)| (e.0@, e.1))
    }
}

impl<V> OrderedMap<V> {
    #[verifier::type_invariant]
    spec fn well_formed(&self) -> bool {
        distinct_keys(self@)
    }

    /// The mapping without entries.
    pub fn new() -> (map: Self)
        ensures
            map@ == Seq::<(Seq<char>, V)>::empty(),
    {
        let map = OrderedMap { entries: Vec::new() };
        assert(map@ =~= Seq::<(Seq<char>, V)>::empty());
        map
    }

    /// The number of entries.
    pub fn len(&self) -> (n: usize)
        ensures
            n == self@.len(),
            distinct_keys(self@),
    {
        proof {
            use_type_invariant(self);
        }
        self.entries.len()
    }

    /// Whether there is no entry.
    pub fn is_empty(&self) -> (empty: bool)
        ensures
            empty == (self@.len() == 0),
    {
        self.entries.len() == 0
    }

    /// The name of the entry at `index`.
    pub fn key_at(&self, index: usize) -> (key: &str)
        requires
            index < self@.len(),
        ensures
            key@ == self@[index as int].0,
    {
        self.entries[index].0.as_str()
    }

    /// The value of the entry at `index`.
    pub fn value_at(&self, index: usize) -> (value: &V)
        requires
            index < self@.len(),
        ensures
            *value == self@[index as int].1,
    {
        &self.entries[index].1
    }

    /// The value set for the name `key`, if there is one.
    pub fn get(&self, key: &str) -> (value: Option<&V>)
        ensures
            value is Some <==> has_key(self@, key@),
            match value {
                Some(v) => lookup(self@, key@) == Some(*v),
                None => lookup(self@, key@) is None,
            },
    {
        let wanted = key.to_owned();
        match self.find(&wanted) {
            Some(index) => {
                proof {
                    lemma_inserted_at(self@, key@, self@[index as int].1, index as int);
                }
                Some(&self.entries[index].1)
            },
            None => {
                proof {
                    lemma_inserted_new(self@, key@, arbitrary());
                }
                None
            },
        }
    }

    /// Sets the value for the name `key`. A name that is already there keeps
    /// its place and gets the new value, and the value it had is returned;
    /// a new name goes to the end.
    pub fn insert(&mut self, key: String, value: V) -> (previous: Option<V>)
        ensures
            final(self)@ == inserted(old(self)@, key@, value),
            previous == lookup(old(self)@, key@),
            distinct_keys(final(self)@),
    {
        proof {
            use_type_invariant(&*self);
        }
        let ghost before = self@;
        let found = self.find(&key);
        // The entries are taken out, changed, and put back in one piece.
        let mut entries: Vec<(String, V)> = Vec::new();
        core::mem::swap(&mut self.entries, &mut entries);
        let ghost view_of = |e: (String, V)| (e.0@, e.1);
        assert(entries@.map_values(view_of) == before);
        let previous = match found {
            Some(index) => {
                let ghost at = index as int;
                proof {
                    lemma_inserted_at(before, key@, value, at);
                }
                let removed = entries.remove(index);
                entries.insert(index, (key, value));
                assert(entries@.map_values(view_of) =~= before.update(at, (key@, value)));
                assert(removed.1 == before[at].1);
                Some(removed.1)
            },
            None => {
                proof {
                    lemma_inserted_new(before, key@, value);
                }
                entries.push((key, value));
                assert(entries@.map_values(view_of) =~= before.push((key@, value)));
                None
            },
        };
        self.entries = entries;
        previous
    }

    /// Where the name `key` stands, if it is there.
    fn find(&self, key: &String) -> (found: Option<usize>)
        ensures
            found matches Some(index) ==> index < self@.len() && self@[index as int].0 == key@
                && forall|i: int| 0 <= i < index ==> (#[trigger] self@[i]).0 != key@,
            found is None ==> !has_key(self@, key@),
    {
        let mut index: usize = 0;
        while index < self.entries.len()
            invariant
                index <= self.entries.len(),
                forall|i: int| 0 <= i < index ==> (#[trigger] self@[i]).0 != key@,
            decreases self.entries.len() - index,
        {
            if self.entries[index].0 == *key {
                return Some(index);
            }
            index = index + 1;
        }
        None
    }
}

} // verus!
