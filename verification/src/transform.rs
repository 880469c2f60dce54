//! Which transforms make up the final model of an entity: those of the entity and of its
//! ancestors that have a Transform component, from the root down. Multiplying the models of
//! these transforms in this order gives the final model.

use crate::ecs::DEAD;
use crate::prefab::parent_or_dead;
use std::collections::{HashMap, HashSet};
use vstd::prelude::*;

verus! {

/// The entities with a transform among `e` and its ancestors, root first, following Parent
/// links for at most `fuel` steps; `None` when the fuel runs out before the dead entity.
pub open spec fn transform_chain(p: Map<u64, u64>, t: Set<u64>, e: u64, fuel: nat) -> Option<Seq<u64>>
    decreases fuel,
{
    if e == DEAD {
        Some(Seq::empty())
    } else if fuel == 0 {
        None
    } else {
        match transform_chain(p, t, parent_or_dead(p, e), (fuel - 1) as nat) {
            Some(c) => Some(
                if t.contains(e) {
                    c.push(e)
                } else {
                    c
                },
            ),
            None => None,
        }
    }
}

/// More fuel does not change a found chain.
pub proof fn lemma_transform_chain_mono(p: Map<u64, u64>, t: Set<u64>, e: u64, n: nat, m: nat)
    requires
        transform_chain(p, t, e, n) is Some,
        n <= m,
    ensures
        transform_chain(p, t, e, m) == transform_chain(p, t, e, n),
    decreases n,
{
    if e != DEAD {
        lemma_transform_chain_mono(p, t, parent_or_dead(p, e), (n - 1) as nat, (m - 1) as nat);
    }
}

/// The entities whose transforms make up the final model of `entity`: those with a
/// transform among the entity and its ancestors, root first. It is empty when none of them
/// has a transform, in which case the entity has no final model. The ancestors of the
/// entity must end at an entity without parent (Parent links form no cycle).
pub fn final_model_chain(entity: u64, parents: &HashMap<u64, u64>, transforms: &HashSet<u64>) -> (r:
    Vec<u64>)
    requires
        exists|n: nat| #[trigger] transform_chain(parents@, transforms@, entity, n) is Some,
    ensures
        forall|n: nat|
            #[trigger] transform_chain(parents@, transforms@, entity, n) is Some ==> transform_chain(
                parents@,
                transforms@,
                entity,
                n,
            ) == Some(r@),
{
    broadcast use vstd::std_specs::hash::group_hash_axioms;

    let ghost p = parents@;
    let ghost t = transforms@;
    let ghost n0 = choose|n: nat| #[trigger] transform_chain(p, t, entity, n) is Some;
    let mut chain: Vec<u64> = Vec::new();
    let mut cur = entity;
    let ghost mut fuel: nat = n0;
    while cur != DEAD
        invariant
            p == parents@,
            t == transforms@,
            transform_chain(p, t, cur, fuel) is Some,
            transform_chain(p, t, entity, n0) == Some(transform_chain(p, t, cur, fuel).unwrap() + chain@),
        decreases fuel,
    {
        let parent = match parents.get(&cur) {
            Some(q) => *q,
            None => DEAD,
        };
        let ghost c = transform_chain(p, t, parent, (fuel - 1) as nat).unwrap();
        if transforms.contains(&cur) {
            proof {
                assert(c.push(cur) + chain@ =~= c + seq![cur].add(chain@));
            }
            chain.insert(0, cur);
            assert(chain@ =~= seq![cur].add(chain@.subrange(1, chain@.len() as int)));
        }
        cur = parent;
        proof {
            fuel = (fuel - 1) as nat;
        }
    }
    proof {
        assert(Seq::<u64>::empty() + chain@ =~= chain@);
        assert forall|n: nat| #[trigger] transform_chain(p, t, entity, n) is Some implies transform_chain(
            p,
            t,
            entity,
            n,
        ) == Some(chain@) by {
            if n <= n0 {
                lemma_transform_chain_mono(p, t, entity, n, n0);
            } else {
                lemma_transform_chain_mono(p, t, entity, n0, n);
            }
        }
    }
    chain
}

} // verus!
