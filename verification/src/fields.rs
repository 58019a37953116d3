//! The mapping of a control file: keys with their values, each key once,
//! in the order in which the keys first came.

use vstd::prelude::*;

verus! {

/// A key with its value.
pub type Field = (Seq<char>, Seq<char>);

/// The index of the first field of `fields` at or after `from` whose key is
/// `key`; the length of `fields` where there is none.
pub open spec fn key_index(fields: Seq<Field>, key: Seq<char>, from: int) -> int
    decreases fields.len() - from,
{
    if from < 0 || from >= fields.len() {
        fields.len() as int
    } else if fields[from].0 == key {
        from
    } else {
        key_index(fields, key, from + 1)
    }
}

/// Whether some field has the key `key`.
pub open spec fn has_key(fields: Seq<Field>, key: Seq<char>) -> bool {
    key_index(fields, key, 0) < fields.len()
}

/// The value stored under `key`.
pub open spec fn lookup(fields: Seq<Field>, key: Seq<char>) -> Option<Seq<char>> {
    if has_key(fields, key) {
        Some(fields[key_index(fields, key, 0)].1)
    } else {
        None
    }
}

/// `fields` after `value` was stored under `key`: the value of a key that
/// is there already is overwritten in place, a new key comes last.
pub open spec fn put(fields: Seq<Field>, key: Seq<char>, value: Seq<char>) -> Seq<Field> {
    if has_key(fields, key) {
        fields.update(key_index(fields, key, 0), (key, value))
    } else {
        fields.push((key, value))
    }
}

/// No key occurs twice.
pub open spec fn distinct_keys(fields: Seq<Field>) -> bool {
    forall|i: int, j: int|
        0 <= i < j < fields.len() ==> (#[trigger] fields[i]).0 != (#[trigger] fields[j]).0
}

/// Where `key_index` points: at the first field with the key, or past the
/// end where no field at or after `from` has it.
pub proof fn lemma_key_index(fields: Seq<Field>, key: Seq<char>, from: int)
    requires
        0 <= from <= fields.len(),
    ensures
        from <= key_index(fields, key, from) <= fields.len(),
        key_index(fields, key, from) < fields.len() ==> fields[key_index(fields, key, from)].0
            == key,
        forall|i: int| from <= i < key_index(fields, key, from) ==> (#[trigger] fields[i]).0 != key,
    decreases fields.len() - from,
{
    if from < fields.len() && fields[from].0 != key {
        lemma_key_index(fields, key, from + 1);
    }
}

/// Storing a value keeps the keys distinct, and the stored value is the one
/// that a lookup of the key then finds; every other key keeps its value.
pub proof fn lemma_put(fields: Seq<Field>, key: Seq<char>, value: Seq<char>)
    requires
        distinct_keys(fields),
    ensures
        distinct_keys(put(fields, key, value)),
        lookup(put(fields, key, value), key) == Some(value),
        forall|other: Seq<char>|
            other != key ==> lookup(put(fields, key, value), other) == lookup(fields, other),
        put(fields, key, value).len() == if has_key(fields, key) {
            fields.len()
        } else {
            fields.len() + 1
        },
{
    let after = put(fields, key, value);
    let at = key_index(fields, key, 0);
    lemma_key_index(fields, key, 0);
    lemma_key_index(after, key, 0);
    assert(after[at].0 == key);
    assert(forall|i: int| 0 <= i < after.len() && i != at ==> after[i] == fields[i]);
    assert(key_index(after, key, 0) == at);
    assert forall|other: Seq<char>| other != key implies lookup(after, other) == lookup(
        fields,
        other,
    ) by {
        lemma_key_index(fields, other, 0);
        lemma_key_index(after, other, 0);
        let a = key_index(fields, other, 0);
        let b = key_index(after, other, 0);
        if a < fields.len() {
            assert(after[a] == fields[a]);
            if b < a {
                assert(after[b] == fields[b]);
            }
        } else if b < after.len() {
            assert(after[b] == fields[b]);
        }
    }
}

/// The mapping of a control file.
#[derive(Debug)]
pub struct ControlMap {
    fields: Vec<(String, String)>,
}

impl View for ControlMap {
    type V = Seq<Field>;

    closed spec fn view(&self) -> Seq<Field> {
        Seq::new(self.fields@.len(), |i: int| (self.fields@[i].0@, self.fields@[i].1@))
    }
}

impl ControlMap {
    #[verifier::type_invariant]
    spec fn keys_are_distinct(&self) -> bool {
        distinct_keys(self@)
    }

    /// The empty mapping.
    pub fn new() -> (map: ControlMap)
        ensures
            map@ == Seq::<Field>::empty(),
    {
        let map = ControlMap { fields: Vec::new() };
        assert(map@ =~= Seq::<Field>::empty());
        map
    }

    /// The number of keys.
    pub fn len(&self) -> (n: usize)
        ensures
            n == self@.len(),
            distinct_keys(self@),
    {
        proof {
            use_type_invariant(self);
        }
        self.fields.len()
    }

    /// Whether the mapping holds no key.
    pub fn is_empty(&self) -> (empty: bool)
        ensures
            empty == (self@.len() == 0),
    {
        self.fields.len() == 0
    }

    /// The key and the value at position `index`, in the order in which
    /// the keys first came; `None` past the last one.
    pub fn entry(&self, index: usize) -> (entry: Option<(&str, &str)>)
        ensures
            match entry {
                Some((key, value)) => index < self@.len() && self@[index as int] == (key@, value@),
                None => index >= self@.len(),
            },
    {
        if index < self.fields.len() {
            Some((self.fields[index].0.as_str(), self.fields[index].1.as_str()))
        } else {
            None
        }
    }

    /// The position of `key`, or the number of keys where it is not there.
    fn position(&self, key: &String) -> (at: usize)
        ensures
            at == key_index(self@, key@, 0),
            at <= self@.len(),
    {
        let mut at: usize = 0;
        while at < self.fields.len()
            invariant
                at <= self.fields@.len(),
                self@.len() == self.fields@.len(),
                key_index(self@, key@, 0) == key_index(self@, key@, at as int),
            decreases self.fields@.len() - at,
        {
            assert(self@[at as int].0 == self.fields@[at as int].0@);
            if self.fields[at].0 == *key {
                return at;
            }
            at = at + 1;
        }
        at
    }

    /// The value stored under `key`.
    pub fn get(&self, key: &str) -> (value: Option<&str>)
        ensures
            match value {
                Some(value) => lookup(self@, key@) == Some(value@),
                None => lookup(self@, key@) is None,
            },
    {
        let wanted = key.to_owned();
        let at = self.position(&wanted);
        if at < self.fields.len() {
            Some(self.fields[at].1.as_str())
        } else {
            None
        }
    }

    /// Whether `key` has a value.
    pub fn contains_key(&self, key: &str) -> (found: bool)
        ensures
            found == has_key(self@, key@),
    {
        let wanted = key.to_owned();
        self.position(&wanted) < self.fields.len()
    }

    /// Stores `value` under `key`; a value that was there is overwritten.
    pub fn insert(&mut self, key: String, value: String)
        ensures
            final(self)@ == put(old(self)@, key@, value@),
    {
        proof {
            use_type_invariant(&*self);
            lemma_put(self@, key@, value@);
        }
        let at = self.position(&key);
        let ghost before = self@;
        let mut taken = ControlMap::new();
        std::mem::swap(self, &mut taken);
        let mut fields = taken.fields;
        if at < fields.len() {
            fields[at] = (key, value);
        } else {
            fields.push((key, value));
        }
        proof {
            let model = Seq::new(fields@.len(), |i: int| (fields@[i].0@, fields@[i].1@));
            assert(model =~= put(before, key@, value@));
        }
        *self = ControlMap { fields };
    }
}

} // verus!
