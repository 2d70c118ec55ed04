//! Turns the readings of a solution into the time series of each entity.
//!
//! Every series counts parts of `OUTPUT_SCALE` of the base unit: a
//! utilisation times a power is multiplied by the efficiency of a lossless
//! conversion where no efficiency applies, so that all series share one
//! scale.
use vstd::prelude::*;

use crate::builder::lossless;
use crate::layout::{entity_width, lemma_span_within_stride, span, stride, width};
use crate::{
    all_well_formed, Consumer, Entity, Grid, Producer, Storage, EFFICIENCY_SCALE, MAX_HORIZON,
    OUTPUT_SCALE,
};

verus! {

/// The power that a side runs at: the reading of its variable times its
/// nameplate power.
pub open spec fn drawn(a: Seq<u32>, var: int, power: int) -> int {
    a[var] as int * power * lossless()
}

/// What a consumer draws at timestep `t`.
pub open spec fn consumer_consumed(c: Consumer, a: Seq<u32>, offset: int, stride: int, t: int) -> int {
    drawn(a, t * stride + offset, c.power_cons_at(t))
}

/// What a producer produces at timestep `t`.
pub open spec fn producer_produced(p: Producer, a: Seq<u32>, offset: int, stride: int, t: int) -> int {
    drawn(a, t * stride + offset, p.power_prod_at(t))
}

/// What a grid takes from the node at timestep `t`.
pub open spec fn grid_consumed(g: Grid, a: Seq<u32>, offset: int, stride: int, t: int) -> int {
    drawn(a, t * stride + offset, g.power_cons_at(t))
}

/// What a grid feeds into the node at timestep `t`.
pub open spec fn grid_produced(g: Grid, a: Seq<u32>, offset: int, stride: int, t: int) -> int {
    drawn(a, t * stride + offset + 1, g.power_prod_at(t))
}

/// The power that a storage charges with at timestep `t`, before the loss of
/// charging.
pub open spec fn storage_consumed(s: Storage, a: Seq<u32>, offset: int, stride: int, t: int) -> int {
    drawn(a, t * stride + offset, s.power_cons_at(t))
}

/// The power that a storage delivers at timestep `t`, after the loss of
/// discharging.
pub open spec fn storage_produced(s: Storage, a: Seq<u32>, offset: int, stride: int, t: int) -> int {
    a[t * stride + offset + 1] as int * s.power_prod_at(t) * s.eff_prod_at(t)
}

/// What timestep `j` adds to the state of charge: the charge that arrives
/// after the loss of charging, less the discharge that leaves before the
/// loss of discharging.
pub open spec fn stored_step(s: Storage, a: Seq<u32>, offset: int, stride: int, j: int) -> int {
    a[j * stride + offset] as int * s.power_cons_at(j) * s.eff_cons_at(j) - drawn(
        a,
        j * stride + offset + 1,
        s.power_prod_at(j),
    )
}

/// The state of charge of a storage after the first `n` timesteps.
pub open spec fn stored_after(s: Storage, a: Seq<u32>, offset: int, stride: int, n: int) -> int
    decreases n,
{
    if n <= 0 {
        s.start_capacity as int * OUTPUT_SCALE as int
    } else {
        stored_after(s, a, offset, stride, n - 1) + stored_step(s, a, offset, stride, n - 1)
    }
}

/// The state of charge of a storage after timestep `t`.
pub open spec fn storage_stored(s: Storage, a: Seq<u32>, offset: int, stride: int, t: int) -> int {
    stored_after(s, a, offset, stride, t + 1)
}

/// `after` is `before` with its series filled in from the readings `a` over
/// `horizon` timesteps, where the variables of the entity stand at `offset`
/// in each block of `stride` variables. Nothing else of the entity differs.
pub open spec fn projects_to(
    before: Entity,
    after: Entity,
    a: Seq<u32>,
    horizon: int,
    offset: int,
    stride: int,
) -> bool {
    match before {
        Entity::Consumer(b) => {
            &&& after matches Entity::Consumer(c)
            &&& c == (Consumer { consumed: c.consumed, ..b })
            &&& c.consumed@.len() == horizon
            &&& forall|t: int|
                0 <= t < horizon ==> #[trigger] c.consumed@[t] == consumer_consumed(
                    b,
                    a,
                    offset,
                    stride,
                    t,
                )
        },
        Entity::Producer(b) => {
            &&& after matches Entity::Producer(p)
            &&& p == (Producer { produced: p.produced, ..b })
            &&& p.produced@.len() == horizon
            &&& forall|t: int|
                0 <= t < horizon ==> #[trigger] p.produced@[t] == producer_produced(
                    b,
                    a,
                    offset,
                    stride,
                    t,
                )
        },
        Entity::Storage(b) => {
            &&& after matches Entity::Storage(s)
            &&& s == (Storage { consumed: s.consumed, produced: s.produced, stored: s.stored, ..b })
            &&& s.consumed@.len() == horizon
            &&& s.produced@.len() == horizon
            &&& s.stored@.len() == horizon
            &&& forall|t: int|
                0 <= t < horizon ==> #[trigger] s.consumed@[t] == storage_consumed(
                    b,
                    a,
                    offset,
                    stride,
                    t,
                )
            &&& forall|t: int|
                0 <= t < horizon ==> #[trigger] s.produced@[t] == storage_produced(
                    b,
                    a,
                    offset,
                    stride,
                    t,
                )
            &&& forall|t: int|
                0 <= t < horizon ==> #[trigger] s.stored@[t] == storage_stored(
                    b,
                    a,
                    offset,
                    stride,
                    t,
                )
        },
        Entity::Grid(b) => {
            &&& after matches Entity::Grid(g)
            &&& g == (Grid { consumed: g.consumed, produced: g.produced, ..b })
            &&& g.consumed@.len() == horizon
            &&& g.produced@.len() == horizon
            &&& forall|t: int|
                0 <= t < horizon ==> #[trigger] g.consumed@[t] == grid_consumed(
                    b,
                    a,
                    offset,
                    stride,
                    t,
                )
            &&& forall|t: int|
                0 <= t < horizon ==> #[trigger] g.produced@[t] == grid_produced(
                    b,
                    a,
                    offset,
                    stride,
                    t,
                )
        },
    }
}

/// `after` is the list `before`, in the same order, with the series of each
/// entity filled in from the readings `a` over `horizon` timesteps.
pub open spec fn projection(before: Seq<Entity>, after: Seq<Entity>, a: Seq<u32>, horizon: int) -> bool {
    &&& after.len() == before.len()
    &&& forall|i: int|
        0 <= i < before.len() ==> projects_to(
            before[i],
            #[trigger] after[i],
            a,
            horizon,
            span(before, i) as int,
            stride(before) as int,
        )
}

/// The greatest size of a reading times a power times an efficiency: two to
/// the power 63, times ten thousand.
spec fn term_bound() -> int {
    92_233_720_368_547_758_080_000
}

/// The greatest size of a state of charge before the first timestep.
spec fn start_bound() -> int {
    21_474_836_480_000_000_000
}

/// The product of a reading, a power and a weight.
fn scaled(reading: u32, power: i32, weight: u16) -> (r: i128)
    ensures
        r == reading as int * power as int * weight as int,
        weight <= EFFICIENCY_SCALE ==> -term_bound() <= r <= term_bound(),
{
    let a: i128 = reading as i128;
    let p: i128 = power as i128;
    let w: i128 = weight as i128;
    assert(-0x8000_0000_0000_0000 <= a * p <= 0x8000_0000_0000_0000) by (nonlinear_arith)
        requires
            0 <= a <= 0xffff_ffff,
            -0x8000_0000 <= p <= 0x7fff_ffff,
    ;
    let ap: i128 = a * p;
    assert(-0x8000_0000_0000_0000 * 0x1_0000 <= ap * w <= 0x8000_0000_0000_0000 * 0x1_0000)
        by (nonlinear_arith)
        requires
            -0x8000_0000_0000_0000 <= ap <= 0x8000_0000_0000_0000,
            0 <= w <= 0xffff,
    ;
    assert(w <= 10_000 ==> -0x8000_0000_0000_0000 * 10_000 <= ap * w <= 0x8000_0000_0000_0000
        * 10_000) by (nonlinear_arith)
        requires
            -0x8000_0000_0000_0000 <= ap <= 0x8000_0000_0000_0000,
            0 <= w,
    ;
    ap * w
}

/// The variables of timestep `t` of an entity stand among the readings.
proof fn lemma_block_within(horizon: int, t: int, offset: int, stride: int, w: int, len: int)
    requires
        0 <= t < horizon,
        0 <= offset,
        0 <= w,
        offset + w <= stride,
        horizon * stride <= len,
    ensures
        0 <= t * stride,
        t * stride + offset + w <= len,
{
    assert(0 <= t * stride && t * stride + stride <= horizon * stride) by (nonlinear_arith)
        requires
            0 <= t < horizon,
            0 <= stride,
    ;
}

/// The series of the power that one side runs at: for each timestep the
/// reading of the variable at `slot` in its block, times the profile.
fn side_series(
    profile: &Vec<i32>,
    timesteps: usize,
    slot: usize,
    stride: usize,
    values: &Vec<u32>,
) -> (series: Vec<i128>)
    requires
        profile@.len() > 0,
        slot < stride,
        timesteps * stride <= values@.len(),
    ensures
        series@.len() == timesteps,
        forall|t: int|
            0 <= t < timesteps ==> #[trigger] series@[t] == drawn(
                values@,
                t * stride + slot,
                crate::wrapped(profile@, t) as int,
            ),
{
    let count: usize = values.len();
    let mut series: Vec<i128> = Vec::new();
    let mut t: usize = 0;
    while t < timesteps
        invariant
            t <= timesteps,
            count == values@.len(),
            profile@.len() > 0,
            slot < stride,
            timesteps * stride <= values@.len(),
            series@.len() == t,
            forall|k: int|
                0 <= k < t ==> #[trigger] series@[k] == drawn(
                    values@,
                    k * stride + slot,
                    crate::wrapped(profile@, k) as int,
                ),
        decreases timesteps - t,
    {
        proof {
            lemma_block_within(
                timesteps as int,
                t as int,
                slot as int,
                stride as int,
                1,
                values@.len() as int,
            );
        }
        let reading: u32 = values[t * stride + slot];
        series.push(scaled(reading, crate::lookup(profile, t), EFFICIENCY_SCALE));
        t += 1;
    }
    series
}

/// Fills in the series of a storage: what it charges with, what it
/// delivers, and its state of charge after each timestep.
fn fill_storage(s: &mut Storage, timesteps: usize, offset: usize, stride: usize, values: &Vec<u32>)
    requires
        old(s).well_formed(),
        timesteps <= MAX_HORIZON,
        offset + 3 <= stride,
        timesteps * stride <= values@.len(),
    ensures
        projects_to(
            Entity::Storage(*old(s)),
            Entity::Storage(*final(s)),
            values@,
            timesteps as int,
            offset as int,
            stride as int,
        ),
{
    let count: usize = values.len();
    let consumed = side_series(&s.power_cons, timesteps, offset, stride, values);
    let mut produced: Vec<i128> = Vec::new();
    let mut stored: Vec<i128> = Vec::new();
    let mut level: i128 = (s.start_capacity as i128) * OUTPUT_SCALE;
    let mut t: usize = 0;
    while t < timesteps
        invariant
            t <= timesteps <= MAX_HORIZON,
            count == values@.len(),
            s.well_formed(),
            *s == *old(s),
            offset + 3 <= stride,
            timesteps * stride <= values@.len(),
            produced@.len() == t,
            stored@.len() == t,
            level == stored_after(*s, values@, offset as int, stride as int, t as int),
            -(start_bound() + t * (2 * term_bound())) <= level <= start_bound() + t * (2
                * term_bound()),
            forall|k: int|
                0 <= k < t ==> #[trigger] produced@[k] == storage_produced(
                    *s,
                    values@,
                    offset as int,
                    stride as int,
                    k,
                ),
            forall|k: int|
                0 <= k < t ==> #[trigger] stored@[k] == storage_stored(
                    *s,
                    values@,
                    offset as int,
                    stride as int,
                    k,
                ),
        decreases timesteps - t,
    {
        proof {
            lemma_block_within(
                timesteps as int,
                t as int,
                offset as int,
                stride as int,
                3,
                values@.len() as int,
            );
            assert((t + 1) * (2 * term_bound()) <= 0x1_0000_0000 * (2 * term_bound()))
                by (nonlinear_arith)
                requires
                    t + 1 <= 0x1_0000_0000,
                    term_bound() >= 0,
            ;
            assert((t + 1) * (2 * term_bound()) == t * (2 * term_bound()) + 2 * term_bound())
                by (nonlinear_arith);
        }
        let charging: u32 = values[t * stride + offset];
        let discharging: u32 = values[t * stride + offset + 1];
        let power: i32 = s.get_power_prod(t);
        produced.push(scaled(discharging, power, s.get_eff_prod(t)));
        let arrives: i128 = scaled(charging, s.get_power_cons(t), s.get_eff_cons(t));
        let leaves: i128 = scaled(discharging, power, EFFICIENCY_SCALE);
        level = level + arrives - leaves;
        stored.push(level);
        t += 1;
    }
    s.consumed = consumed;
    s.produced = produced;
    s.stored = stored;
}

/// Fills in the series of each entity from the readings of a solution, one
/// reading for each variable of the program, and keeps the order of the
/// entities.
///
/// The readings of the flags are not used. A horizon has at least one
/// timestep and at most `MAX_HORIZON`.
pub fn project(entities: Vec<Entity>, timesteps: usize, values: &Vec<u32>) -> (out: Vec<Entity>)
    requires
        1 <= timesteps <= MAX_HORIZON,
        all_well_formed(entities@),
        values@.len() == timesteps * stride(entities@),
    ensures
        projection(entities@, out@, values@, timesteps as int),
{
    let ghost before = entities@;
    let count: usize = values.len();
    let mut entities = entities;
    let mut offset: usize = 0;
    let mut i: usize = 0;
    let per_step: usize = match crate::layout::stride_of(&entities) {
        Some(n) => n,
        None => {
            assert(false) by (nonlinear_arith)
                requires
                    timesteps * stride(before) <= usize::MAX,
                    stride(before) > usize::MAX,
                    timesteps >= 1,
            ;
            0
        },
    };
    while i < entities.len()
        invariant
            i <= entities.len(),
            timesteps <= MAX_HORIZON,
            entities@.len() == before.len(),
            all_well_formed(before),
            per_step == stride(before),
            values@.len() == timesteps * per_step,
            offset == span(before, i as int),
            forall|k: int| i <= k < before.len() ==> entities@[k] == before[k],
            forall|k: int|
                0 <= k < i ==> projects_to(
                    before[k],
                    #[trigger] entities@[k],
                    values@,
                    timesteps as int,
                    span(before, k) as int,
                    per_step as int,
                ),
        decreases entities.len() - i,
    {
        let w: usize = entity_width(&entities[i]);
        proof {
            lemma_span_within_stride(before, i as int);
        }
        match &mut entities[i] {
            Entity::Consumer(c) => {
                c.consumed = side_series(&c.power_cons, timesteps, offset, per_step, values);
            },
            Entity::Producer(p) => {
                p.produced = side_series(&p.power_prod, timesteps, offset, per_step, values);
            },
            Entity::Storage(s) => {
                fill_storage(s, timesteps, offset, per_step, values);
            },
            Entity::Grid(g) => {
                g.consumed = side_series(&g.power_cons, timesteps, offset, per_step, values);
                g.produced = side_series(&g.power_prod, timesteps, offset + 1, per_step, values);
            },
        }
        offset = offset + w;
        i += 1;
    }
    entities
}

} // verus!
