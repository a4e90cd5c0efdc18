use std::collections::HashMap;
use vstd::prelude::*;

use crate::esi::EsiID;

verus! {

broadcast use vstd::std_specs::hash::group_hash_axioms;

/// Values fetched from the data source, by id. An entry is added on the
/// first miss and then served for as long as the process lives.
pub struct Cache<V> {
    entries: HashMap<EsiID, V>,
}

impl<V> View for Cache<V> {
    type V = Map<EsiID, V>;

    closed spec fn view(&self) -> Map<EsiID, V> {
        self.entries@
    }
}

/// What a lookup of `id` finds: the cached value, or nothing (a miss, to be
/// fetched).
pub open spec fn cached<V>(entries: Map<EsiID, V>, id: EsiID) -> Option<V> {
    if entries.contains_key(id) {
        Some(entries[id])
    } else {
        None
    }
}

impl<V> Cache<V> {
    /// An empty cache.
    pub fn new() -> (cache: Self)
        ensures
            cache@ == Map::<EsiID, V>::empty(),
    {
        Cache { entries: HashMap::new() }
    }

    /// The value cached for `id`; `None` means it has to be fetched.
    pub fn lookup(&self, id: EsiID) -> (found: Option<&V>)
        ensures
            match found {
                Some(v) => cached(self@, id) == Some(*v),
                None => cached(self@, id) is None,
            },
    {
        self.entries.get(&id)
    }

    /// Stores what a fetch for `id` returned.
    pub fn store(&mut self, id: EsiID, value: V)
        ensures
            final(self)@ == old(self)@.insert(id, value),
    {
        self.entries.insert(id, value);
    }
}

/// Once a fetched value is stored, every later lookup of its id finds that
/// value, whatever else is stored meanwhile under other ids: a read-through
/// caller, which fetches only on a miss, fetches each id once.
pub proof fn lemma_stored_value_is_served<V>(
    entries: Map<EsiID, V>,
    id: EsiID,
    value: V,
    others: Seq<(EsiID, V)>,
)
    requires
        forall|i: int| 0 <= i < others.len() ==> (#[trigger] others[i]).0 != id,
    ensures
        cached(stores_after(entries.insert(id, value), others), id) == Some(value),
    decreases others.len(),
{
    if others.len() > 0 {
        let init = others.drop_last();
        assert forall|i: int| 0 <= i < init.len() implies (#[trigger] init[i]).0 != id by {
            assert(init[i] == others[i]);
        }
        lemma_stored_value_is_served(entries, id, value, init);
        assert(others[others.len() - 1].0 != id);
    }
}

/// The entries after storing each (id, value) of `stores` in order.
pub open spec fn stores_after<V>(entries: Map<EsiID, V>, stores: Seq<(EsiID, V)>) -> Map<
    EsiID,
    V,
>
    decreases stores.len(),
{
    if stores.len() == 0 {
        entries
    } else {
        stores_after(entries, stores.drop_last()).insert(stores.last().0, stores.last().1)
    }
}

} // verus!
