//! A memo of expensive expansions, keyed by inode.
use vstd::prelude::*;
use std::collections::HashMap;

verus! {

broadcast use vstd::std_specs::hash::group_hash_axioms;

/// Remembers one value per key. An entry is written once and never changes
/// or leaves afterwards.
pub struct ExpansionCache<T> {
    entries: HashMap<u64, T>,
}

impl<T> View for ExpansionCache<T> {
    type V = Map<u64, T>;

    closed spec fn view(&self) -> Map<u64, T> {
        self.entries@
    }
}

/// What an expansion leaves in a cache that held `before`, when the producer
/// would answer `outcome`: a cached value is kept and returned whatever the
/// outcome; otherwise a produced value is stored and a failure is handed on.
pub open spec fn expanded<T, E>(before: Map<u64, T>, key: u64, outcome: Result<T, E>) -> (Map<u64, T>, Result<T, E>) {
    if before.contains_key(key) {
        (before, Ok(before[key]))
    } else {
        match outcome {
            Ok(value) => (before.insert(key, value), Ok(value)),
            Err(e) => (before, Err(e)),
        }
    }
}

impl<T> ExpansionCache<T> {
    /// An empty cache.
    pub fn new() -> (cache: ExpansionCache<T>)
        ensures
            cache@ == Map::<u64, T>::empty(),
    {
        ExpansionCache { entries: HashMap::new() }
    }

    /// Whether `key` has an entry.
    pub fn contains(&self, key: u64) -> (b: bool)
        ensures
            b == self@.contains_key(key),
    {
        self.entries.contains_key(&key)
    }

    /// The entry of `key`, if it has one.
    pub fn get(&self, key: u64) -> (value: Option<&T>)
        ensures
            match value {
                Some(v) => self@.contains_key(key) && *v == self@[key],
                None => !self@.contains_key(key),
            },
    {
        self.entries.get(&key)
    }

    /// Stores `value` under `key` unless the key has an entry already, in
    /// which case the entry stays and `value` is dropped. Says whether the
    /// value was stored.
    pub fn populate(&mut self, key: u64, value: T) -> (stored: bool)
        ensures
            stored == !old(self)@.contains_key(key),
            final(self)@ == if stored {
                old(self)@.insert(key, value)
            } else {
                old(self)@
            },
    {
        if self.entries.contains_key(&key) {
            false
        } else {
            self.entries.insert(key, value);
            true
        }
    }

    /// The entry of `key`, produced on first use: `produce` is called only
    /// when `key` has no entry. What it delivers is stored and served from
    /// then on; a failure is handed on and nothing is stored.
    pub fn expand<E, F: FnOnce() -> Result<T, E>>(&mut self, key: u64, produce: F) -> (r: Result<&T, E>)
        requires
            call_requires(produce, ()),
        ensures
            old(self)@.contains_key(key) ==> final(self)@ == old(self)@ && r == Ok::<&T, E>(&old(self)@[key]),
            !old(self)@.contains_key(key) ==> exists|outcome: Result<T, E>|
                #[trigger] call_ensures(produce, (), outcome) && final(self)@ == expanded(old(self)@, key, outcome).0
                    && (match r {
                    Ok(v) => expanded(old(self)@, key, outcome).1 == Ok::<T, E>(*v),
                    Err(e) => expanded(old(self)@, key, outcome).1 == Err::<T, E>(e),
                }),
    {
        if !self.entries.contains_key(&key) {
            let outcome = produce();
            let ghost answer = outcome;
            assert(call_ensures(produce, (), answer));
            match outcome {
                Ok(value) => {
                    self.entries.insert(key, value);
                    assert(self@ =~= expanded(old(self)@, key, answer).0);
                },
                Err(e) => {
                    assert(self@ =~= expanded(old(self)@, key, answer).0);
                    return Err(e);
                },
            }
        }
        let found = self.entries.get(&key);
        Ok(found.unwrap())
    }
}

} // verus!
