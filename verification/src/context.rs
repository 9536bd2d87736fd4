//! The State Context: the boolean variable store the runner consults and
//! mutates.  The trait is the contract the caller's store implements; a
//! map-backed implementation is provided.

use vstd::prelude::*;

verus! {

/// The boolean variable store consulted by conditions and written by set
/// lines.  `vars()` is the store seen as a map from variable name to value.
pub trait StateContext {
    spec fn vars(&self) -> Map<Seq<char>, bool>;

    /// The value stored under `key`, if any.
    fn get_value(&self, key: &str) -> (r: Option<bool>)
        ensures
            r == if self.vars().contains_key(key@) {
                Some(self.vars()[key@])
            } else {
                None::<bool>
            },
    ;

    /// Stores `value` under `key`, replacing any earlier value.
    fn set_value(&mut self, key: &str, value: bool)
        ensures
            final(self).vars() == old(self).vars().insert(key@, value),
    ;
}

/// One stored binding of a variable name to a value.
#[derive(Clone, Debug)]
pub struct ContextEntry {
    pub key: String,
    pub value: bool,
}

/// The map a history of bindings denotes: later entries win.
pub open spec fn map_of(entries: Seq<(Seq<char>, bool)>) -> Map<Seq<char>, bool>
    decreases entries.len(),
{
    if entries.len() == 0 {
        Map::empty()
    } else {
        map_of(entries.drop_last()).insert(entries.last().0, entries.last().1)
    }
}

/// A `StateContext` backed by the history of its assignments.
pub struct MapContext {
    entries: Vec<ContextEntry>,
}

impl MapContext {
    /// An empty store: every variable is unset.
    pub fn new() -> (r: MapContext)
        ensures
            r.vars() == Map::<Seq<char>, bool>::empty(),
    {
        MapContext { entries: Vec::new() }
    }
}

impl StateContext for MapContext {
    closed spec fn vars(&self) -> Map<Seq<char>, bool> {
        map_of(self.entries@.map_values(|e: ContextEntry| (e.key@, e.value)))
    }

    fn get_value(&self, key: &str) -> (r: Option<bool>)
        ensures
            r == if self.vars().contains_key(key@) {
                Some(self.vars()[key@])
            } else {
                None::<bool>
            },
    {
        let ghost ev = self.entries@.map_values(|e: ContextEntry| (e.key@, e.value));
        let mut i: usize = self.entries.len();
        proof {
            assert(ev.subrange(0, i as int) =~= ev);
        }
        while i > 0
            invariant
                i <= self.entries@.len(),
                ev == self.entries@.map_values(|e: ContextEntry| (e.key@, e.value)),
                map_of(ev).contains_key(key@) == map_of(ev.subrange(0, i as int)).contains_key(
                    key@,
                ),
                map_of(ev).contains_key(key@) ==> map_of(ev)[key@] == map_of(
                    ev.subrange(0, i as int),
                )[key@],
            decreases i,
        {
            let e = &self.entries[i - 1];
            let found = crate::textscan::str_eq(e.key.as_str(), key);
            proof {
                assert(ev.subrange(0, i as int).drop_last() =~= ev.subrange(0, i - 1));
                assert(ev.subrange(0, i as int).last() == (e.key@, e.value));
            }
            if found {
                return Some(e.value);
            }
            i -= 1;
        }
        proof {
            assert(ev.subrange(0, 0) =~= Seq::<(Seq<char>, bool)>::empty());
        }
        None
    }

    fn set_value(&mut self, key: &str, value: bool)
        ensures
            final(self).vars() == old(self).vars().insert(key@, value),
    {
        let ghost ev = self.entries@.map_values(|e: ContextEntry| (e.key@, e.value));
        let k = String::from_str(key);
        self.entries.push(ContextEntry { key: k, value });
        proof {
            let ev2 = self.entries@.map_values(|e: ContextEntry| (e.key@, e.value));
            assert(ev2.drop_last() =~= ev);
            assert(ev2.last() == (key@, value));
        }
    }
}

} // verus!
