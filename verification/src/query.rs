//! Read-only queries over the entities that carry a component of a kind.

use crate::registry::{Entity, Registry};
use crate::store::Store;
use vstd::prelude::*;

verus! {

/// The ids among the first `n` entities that carry a component in `held`,
/// in registry order.
pub open spec fn carrying<C>(entities: Seq<Entity>, held: Map<u64, C>, n: nat) -> Seq<u64>
    decreases n,
{
    if n == 0 {
        Seq::<u64>::empty()
    } else if held.contains_key(entities[n - 1].id) {
        carrying(entities, held, (n - 1) as nat).push(entities[n - 1].id)
    } else {
        carrying(entities, held, (n - 1) as nat)
    }
}

/// The ids that are listed are those of the entities that carry a
/// component, and no others.
pub proof fn lemma_carrying<C>(entities: Seq<Entity>, held: Map<u64, C>, n: nat, id: u64)
    requires
        n <= entities.len(),
    ensures
        carrying(entities, held, n).contains(id) <==> held.contains_key(id) && exists|j: int|
            0 <= j < n && (#[trigger] entities[j]).id == id,
    decreases n,
{
    if n > 0 {
        lemma_carrying(entities, held, (n - 1) as nat, id);
        let prev = carrying(entities, held, (n - 1) as nat);
        let cur = carrying(entities, held, n);
        let last = entities[n - 1].id;
        if cur.contains(id) {
            let i = choose|i: int| 0 <= i < cur.len() && cur[i] == id;
            if held.contains_key(last) && i == cur.len() - 1 {
                assert(entities[n - 1].id == id);
            } else {
                assert(prev[i] == id);
                assert(prev.contains(id));
                let j = choose|j: int| 0 <= j < n - 1 && (#[trigger] entities[j]).id == id;
                assert(entities[j].id == id);
            }
        }
        if held.contains_key(id) && exists|j: int| 0 <= j < n && (#[trigger] entities[j]).id == id {
            let j = choose|j: int| 0 <= j < n && (#[trigger] entities[j]).id == id;
            if j == n - 1 {
                assert(cur[cur.len() - 1] == id);
            } else {
                assert(entities[j].id == id);
                assert(prev.contains(id));
                let i = choose|i: int| 0 <= i < prev.len() && prev[i] == id;
                assert(cur[i] == id);
            }
        }
    }
}

/// The ids of the live entities that carry a component of the kind of
/// `store`, in registry order.
pub fn carriers<C>(registry: &Registry, store: &Store<C>) -> (ids: Vec<u64>)
    ensures
        ids@ == carrying(registry@, store@, registry@.len()),
{
    let n: usize = registry.len();
    let mut ids: Vec<u64> = Vec::new();
    let mut i: usize = 0;
    while i < n
        invariant
            i <= n,
            n == registry@.len(),
            ids@ == carrying(registry@, store@, i as nat),
        decreases n - i,
    {
        let e: Entity = registry.entity(i);
        if store.contains(e.id) {
            ids.push(e.id);
        }
        i += 1;
    }
    ids
}

} // verus!
