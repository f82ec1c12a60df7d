//! Maps keyed by address, kept as a list of distinct keys with their values,
//! and the rule by which a list with repeated keys is read as a map: the last
//! occurrence of a key decides.

use vstd::prelude::*;
use crate::address::Address;

verus! {

/// The greatest position at which `key` stands in `keys`, or -1 if it stands
/// nowhere.
pub open spec fn last_position(keys: Seq<Address>, key: Address) -> int
    decreases keys.len(),
{
    if keys.len() == 0 {
        -1
    } else if keys.last() == key {
        keys.len() - 1
    } else {
        last_position(keys.drop_last(), key)
    }
}

/// The map that sends each address of `keys` to `value_at` of its last position.
pub open spec fn by_last_position<V>(keys: Seq<Address>, value_at: spec_fn(int) -> V) -> Map<
    Address,
    V,
> {
    Map::new(|key: Address| keys.contains(key), |key: Address| value_at(last_position(keys, key)))
}

/// `last_position` is -1 exactly for an address that is not listed; otherwise
/// it is a position of the address, and the address stands at no later one.
pub proof fn lemma_last_position(keys: Seq<Address>, key: Address)
    ensures
        -1 <= last_position(keys, key) < keys.len(),
        keys.contains(key) <==> last_position(keys, key) >= 0,
        last_position(keys, key) >= 0 ==> keys[last_position(keys, key)] == key,
        forall|k: int| last_position(keys, key) < k < keys.len() ==> keys[k] != key,
    decreases keys.len(),
{
    if keys.len() == 0 {
    } else if keys.last() == key {
        assert(keys[keys.len() - 1] == key);
    } else {
        let front = keys.drop_last();
        lemma_last_position(front, key);
        let p = last_position(front, key);
        if p >= 0 {
            assert(keys[p] == front[p]);
        }
        if keys.contains(key) {
            let i = choose|i: int| 0 <= i < keys.len() && keys[i] == key;
            assert(front[i] == key);
        }
        assert forall|k: int| p < k < keys.len() implies keys[k] != key by {
            if k < keys.len() - 1 {
                assert(front[k] == keys[k]);
            }
        }
    }
}

/// The position `i` is the last position of `key` where `key` stands at `i`
/// and nowhere after it.
pub proof fn lemma_last_position_is(keys: Seq<Address>, key: Address, i: int)
    requires
        0 <= i < keys.len(),
        keys[i] == key,
        forall|k: int| i < k < keys.len() ==> keys[k] != key,
    ensures
        last_position(keys, key) == i,
{
    lemma_last_position(keys, key);
}

/// Appending an address makes the new position its last one and leaves the
/// last position of every other address as it was.
pub proof fn lemma_last_position_push(keys: Seq<Address>, added: Address, key: Address)
    ensures
        last_position(keys.push(added), key) == if added == key {
            keys.len() as int
        } else {
            last_position(keys, key)
        },
        keys.push(added).contains(key) <==> (added == key || keys.contains(key)),
{
    let longer = keys.push(added);
    assert(longer.drop_last() =~= keys);
    assert(longer.last() == added);
    lemma_last_position(keys, key);
    lemma_last_position(longer, key);
}

/// Appending a key to the list is inserting it into the map, with the value at
/// the new position.
pub proof fn lemma_by_last_position_push<V>(
    keys: Seq<Address>,
    added: Address,
    value_at: spec_fn(int) -> V,
)
    ensures
        by_last_position(keys.push(added), value_at) == by_last_position(keys, value_at).insert(
            added,
            value_at(keys.len() as int),
        ),
{
    let longer = by_last_position(keys.push(added), value_at);
    let inserted = by_last_position(keys, value_at).insert(added, value_at(keys.len() as int));
    assert forall|key: Address| #[trigger]
        longer.contains_key(key) == inserted.contains_key(key) && (longer.contains_key(key)
            ==> longer[key] == inserted[key]) by {
        lemma_last_position_push(keys, added, key);
    }
    assert(longer =~= inserted);
}

/// A map from addresses to values of `V`.
#[derive(Debug)]
pub struct AddressMap<V> {
    keys: Vec<Address>,
    values: Vec<V>,
}

impl<V> AddressMap<V> {
    /// Every key is listed once, with one value.
    pub closed spec fn wf(&self) -> bool {
        &&& self.keys@.len() == self.values@.len()
        &&& self.keys@.no_duplicates()
    }

    /// The keys, in the order in which they were first inserted.
    pub closed spec fn key_seq(&self) -> Seq<Address> {
        self.keys@
    }

    /// The map that the value stands for.
    pub closed spec fn view(&self) -> Map<Address, V> {
        by_last_position(self.keys@, |i: int| self.values@[i])
    }

    /// The keys of the map are those of `key_seq`, each listed once.
    pub proof fn lemma_keys(&self)
        requires
            self.wf(),
        ensures
            self.key_seq().no_duplicates(),
            self@.dom().finite(),
            self@.dom() == self.key_seq().to_set(),
            self@.len() == self.key_seq().len(),
    {
        assert(self@.dom() =~= self.keys@.to_set());
        self.keys@.unique_seq_to_set();
    }

    /// The map without an entry.
    pub fn new() -> (map: AddressMap<V>)
        ensures
            map.wf(),
            map@ == Map::<Address, V>::empty(),
            map.key_seq() == Seq::<Address>::empty(),
    {
        let map = AddressMap { keys: Vec::new(), values: Vec::new() };
        assert(map@ =~= Map::<Address, V>::empty());
        map
    }

    /// The position of `key` among the keys.
    fn position(&self, key: &Address) -> (found: Option<usize>)
        requires
            self.wf(),
        ensures
            match found {
                Some(i) => i < self.keys@.len() && self.keys@[i as int] == *key
                    && last_position(self.keys@, *key) == i,
                None => !self.keys@.contains(*key),
            },
    {
        let mut i: usize = 0;
        while i < self.keys.len()
            invariant
                self.wf(),
                i <= self.keys@.len(),
                forall|k: int| 0 <= k < i ==> self.keys@[k] != *key,
            decreases self.keys@.len() - i,
        {
            if self.keys[i] == *key {
                proof {
                    lemma_last_position_is(self.keys@, *key, i as int);
                }
                return Some(i);
            }
            i += 1;
        }
        None
    }

    /// The number of entries.
    pub fn len(&self) -> (count: usize)
        requires
            self.wf(),
        ensures
            count == self@.len(),
            count == self.key_seq().len(),
    {
        proof {
            self.lemma_keys();
        }
        self.keys.len()
    }

    /// Whether `key` has an entry.
    pub fn contains_key(&self, key: &Address) -> (present: bool)
        requires
            self.wf(),
        ensures
            present == self@.contains_key(*key),
    {
        self.position(key).is_some()
    }

    /// The value entered for `key`, if there is one.
    pub fn get(&self, key: &Address) -> (found: Option<&V>)
        requires
            self.wf(),
        ensures
            match found {
                Some(value) => self@.contains_key(*key) && self@[*key] == *value,
                None => !self@.contains_key(*key),
            },
    {
        match self.position(key) {
            Some(i) => Some(&self.values[i]),
            None => None,
        }
    }

    /// The keys, each once, in the order in which they were first inserted.
    pub fn keys(&self) -> (listed: &Vec<Address>)
        requires
            self.wf(),
        ensures
            listed@ == self.key_seq(),
            listed@.no_duplicates(),
            forall|key: Address| listed@.contains(key) <==> self@.contains_key(key),
    {
        &self.keys
    }

    /// Enters `value` for `key`, in place of the value that `key` had, if any.
    pub fn insert(&mut self, key: Address, value: V)
        requires
            old(self).wf(),
        ensures
            final(self).wf(),
            final(self)@ == old(self)@.insert(key, value),
            final(self).key_seq() == if old(self)@.contains_key(key) {
                old(self).key_seq()
            } else {
                old(self).key_seq().push(key)
            },
    {
        let ghost before = *self;
        match self.position(&key) {
            Some(i) => {
                self.values.set(i, value);
                proof {
                    assert forall|a: Address| #[trigger]
                        self@.contains_key(a) == before@.insert(key, value).contains_key(a) && (
                        self@.contains_key(a) ==> self@[a] == before@.insert(key, value)[a]) by {
                        lemma_last_position(self.keys@, a);
                    }
                    assert(self@ =~= before@.insert(key, value));
                }
            },
            None => {
                self.keys.push(key);
                self.values.push(value);
                proof {
                    let value_at = |i: int| self.values@[i];
                    lemma_by_last_position_push(before.keys@, key, value_at);
                    assert forall|a: Address| before.keys@.contains(a) implies by_last_position(
                        before.keys@,
                        value_at,
                    )[a] == before@[a] by {
                        lemma_last_position(before.keys@, a);
                    }
                    assert(by_last_position(before.keys@, value_at) =~= before@);
                    assert(self@ =~= before@.insert(key, value));
                }
            },
        }
    }
}

} // verus!
