//! Where the decision variables of each entity and timestep stand.
//!
//! The variables of one timestep form a block, and the blocks follow each other
//! in timestep order. Inside a block the entities follow each other in list
//! order. A consumer or a producer has one variable, its utilisation. A storage
//! or a grid has three: the utilisation of its consuming side, the utilisation
//! of its producing side, and the flag that says which side is active.
use vstd::prelude::*;

use crate::Entity;

verus! {

/// The number of variables that the entity has in each timestep.
pub open spec fn width(e: Entity) -> nat {
    match e {
        Entity::Consumer(_) => 1,
        Entity::Producer(_) => 1,
        Entity::Storage(_) => 3,
        Entity::Grid(_) => 3,
    }
}

/// The number of variables that the first `n` entities have in each timestep.
pub open spec fn span(entities: Seq<Entity>, n: int) -> nat
    decreases n,
{
    if n <= 0 {
        0
    } else {
        span(entities, n - 1) + width(entities[n - 1])
    }
}

/// The number of variables of one timestep.
pub open spec fn stride(entities: Seq<Entity>) -> nat {
    span(entities, entities.len() as int)
}

/// The first variable of entity `i` at timestep `t`.
pub open spec fn slot(entities: Seq<Entity>, t: int, i: int) -> int {
    t * stride(entities) + span(entities, i)
}

/// The variables of an entity lie inside the block of its timestep.
pub proof fn lemma_span_within_stride(entities: Seq<Entity>, i: int)
    requires
        0 <= i < entities.len(),
    ensures
        span(entities, i) + width(entities[i]) <= stride(entities),
{
    lemma_span_monotone(entities, i + 1, entities.len() as int);
}

/// A longer prefix of the list has at least as many variables.
pub proof fn lemma_span_monotone(entities: Seq<Entity>, i: int, j: int)
    requires
        0 <= i <= j,
    ensures
        span(entities, i) <= span(entities, j),
    decreases j - i,
{
    if i < j {
        lemma_span_monotone(entities, i, j - 1);
    }
}

/// The variables of entity `i` at timestep `t` lie among the variables of the
/// first `horizon` timesteps.
pub proof fn lemma_slot_within(entities: Seq<Entity>, horizon: int, t: int, i: int)
    requires
        0 <= t < horizon,
        0 <= i < entities.len(),
    ensures
        0 <= slot(entities, t, i),
        slot(entities, t, i) + width(entities[i]) <= horizon * stride(entities),
{
    lemma_span_within_stride(entities, i);
    let s = stride(entities) as int;
    assert(0 <= t * s && t * s + s <= horizon * s) by (nonlinear_arith)
        requires
            0 <= t < horizon,
            0 <= s,
    ;
}

/// The number of variables that the entity has in each timestep.
pub fn entity_width(e: &Entity) -> (w: usize)
    ensures
        w == width(*e),
{
    match e {
        Entity::Consumer(_) => 1,
        Entity::Producer(_) => 1,
        Entity::Storage(_) => 3,
        Entity::Grid(_) => 3,
    }
}

/// The number of variables of one timestep, or `None` where that number is
/// more than a `usize` holds.
pub fn stride_of(entities: &Vec<Entity>) -> (total: Option<usize>)
    ensures
        match total {
            Some(s) => s == stride(entities@),
            None => stride(entities@) > usize::MAX,
        },
{
    let mut sum: usize = 0;
    let mut i: usize = 0;
    while i < entities.len()
        invariant
            i <= entities.len(),
            sum == span(entities@, i as int),
        decreases entities.len() - i,
    {
        let w: usize = entity_width(&entities[i]);
        if sum > usize::MAX - w {
            proof {
                lemma_span_monotone(entities@, i + 1, entities@.len() as int);
            }
            return None;
        }
        sum = sum + w;
        i += 1;
    }
    Some(sum)
}

} // verus!
