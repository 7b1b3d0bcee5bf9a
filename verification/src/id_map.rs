//! Maps keyed by participant.
use rustc_hash::{FxBuildHasher, FxHashMap};
use vstd::prelude::*;

use crate::watcher::Id;

verus! {

/// The hasher factory of `FxHashMap`.
#[verifier::external_type_specification]
#[verifier::external_body]
pub struct ExFxBuildHasher(FxBuildHasher);

/// `FxHashMap::default` makes an empty map.
#[verifier::external_body]
fn fx_new<V>() -> (fresh: FxHashMap<u128, V>)
    ensures
        (fresh@ == Map::<u128, V>::empty()),
{
    FxHashMap::default()
}

/// `FxHashMap::insert` binds the key, and hands back what it was bound to before.
#[verifier::external_body]
fn fx_insert<V>(map: &mut FxHashMap<u128, V>, key: u128, value: V) -> (previous: Option<V>)
    ensures
        final(map)@ == old(map)@.insert(key, value),
        previous == if old(map)@.contains_key(key) { Some(old(map)@[key]) } else { None },
{
    map.insert(key, value)
}

/// `FxHashMap::remove` unbinds the key, and hands back what it was bound to.
#[verifier::external_body]
fn fx_remove<V>(map: &mut FxHashMap<u128, V>, key: u128) -> (previous: Option<V>)
    ensures
        final(map)@ == old(map)@.remove(key),
        previous == if old(map)@.contains_key(key) { Some(old(map)@[key]) } else { None },
{
    map.remove(&key)
}

/// `FxHashMap::get` looks the key up.
#[verifier::external_body]
fn fx_get<V>(map: &FxHashMap<u128, V>, key: u128) -> (found: Option<&V>)
    ensures
        match found {
            Some(value) => map@.contains_key(key) && *value == map@[key],
            None => !map@.contains_key(key),
        },
{
    map.get(&key)
}

/// `FxHashMap::keys` lists every key once, in an order that nothing is promised of.
#[verifier::external_body]
fn fx_keys<V>(map: &FxHashMap<u128, V>) -> (keys: Vec<u128>)
    ensures
        keys@.no_duplicates(),
        keys@.to_set() == map@.dom(),
{
    map.keys().copied().collect()
}

/// A map from participants to values.
#[derive(Debug, Clone)]
pub struct IdMap<V> {
    inner: FxHashMap<u128, V>,
}

impl<V> View for IdMap<V> {
    type V = Map<Id, V>;

    closed spec fn view(&self) -> Map<Id, V> {
        Map::new(|id: Id| self.inner@.contains_key(id.0), |id: Id| self.inner@[id.0])
    }
}

impl<V> IdMap<V> {
    /// An empty map.
    pub fn new() -> (map: Self)
        ensures
            map@ == Map::<Id, V>::empty(),
    {
        let map = IdMap { inner: fx_new() };
        assert(map@ =~= Map::<Id, V>::empty());
        map
    }

    /// Binds `id` to `value`, and hands back what it was bound to before.
    pub fn insert(&mut self, id: Id, value: V) -> (previous: Option<V>)
        ensures
            final(self)@ == old(self)@.insert(id, value),
            previous == if old(self)@.contains_key(id) { Some(old(self)@[id]) } else { None },
    {
        let previous = fx_insert(&mut self.inner, id.0, value);
        assert(self@ =~= old(self)@.insert(id, value));
        previous
    }

    /// Unbinds `id`, and hands back what it was bound to.
    pub fn remove(&mut self, id: Id) -> (previous: Option<V>)
        ensures
            final(self)@ == old(self)@.remove(id),
            previous == if old(self)@.contains_key(id) { Some(old(self)@[id]) } else { None },
    {
        let previous = fx_remove(&mut self.inner, id.0);
        assert(self@ =~= old(self)@.remove(id));
        previous
    }

    /// The value bound to `id`.
    pub fn get(&self, id: Id) -> (found: Option<&V>)
        ensures
            match found {
                Some(value) => self@.contains_key(id) && *value == self@[id],
                None => !self@.contains_key(id),
            },
    {
        fx_get(&self.inner, id.0)
    }

    /// Whether `id` is bound.
    pub fn contains_key(&self, id: Id) -> (bound: bool)
        ensures
            bound == self@.contains_key(id),
    {
        self.get(id).is_some()
    }

    /// The number of bound participants.
    pub fn len(&self) -> (count: usize)
        ensures
            count == self@.dom().len(),
            self@.dom().finite(),
    {
        let ids = self.keys();
        proof {
            ids@.unique_seq_to_set();
            vstd::seq_lib::seq_to_set_is_finite(ids@);
        }
        ids.len()
    }

    /// Whether nobody is bound.
    pub fn is_empty(&self) -> (empty: bool)
        ensures
            empty <==> self@.dom() == Set::<Id>::empty(),
    {
        let count: usize = self.len();
        proof {
            if self@.dom().len() == 0 {
                assert(self@.dom() =~= Set::<Id>::empty());
            }
        }
        count == 0
    }

    /// Every bound participant once, in no particular order.
    pub fn keys(&self) -> (ids: Vec<Id>)
        ensures
            ids@.no_duplicates(),
            ids@.to_set() == self@.dom(),
    {
        let keys = fx_keys(&self.inner);
        let mut ids: Vec<Id> = Vec::new();
        let mut i: usize = 0;
        while i < keys.len()
            invariant
                i <= keys.len(),
                ids@ == keys@.take(i as int).map_values(|key: u128| Id(key)),
            decreases keys.len() - i,
        {
            ids.push(Id(keys[i]));
            i = i + 1;
            assert(ids@ =~= keys@.take(i as int).map_values(|key: u128| Id(key)));
        }
        proof {
            assert(keys@.take(i as int) =~= keys@);
            assert forall|id: Id| ids@.to_set().contains(id) <==> self@.dom().contains(id) by {
                if ids@.contains(id) {
                    let j = choose|j: int| 0 <= j < ids@.len() && ids@[j] == id;
                    assert(keys@[j] == id.0);
                    assert(keys@.to_set().contains(id.0));
                }
                if self@.dom().contains(id) {
                    assert(keys@.to_set().contains(id.0));
                    let j = choose|j: int| 0 <= j < keys@.len() && keys@[j] == id.0;
                    assert(ids@[j] == id);
                }
            }
            assert(ids@.to_set() =~= self@.dom());
        }
        ids
    }
}

} // verus!
