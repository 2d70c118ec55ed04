//! What holds of every schedule that satisfies the dispatch program.
//!
//! Each law speaks of the entities `before`, of readings `a` that hold the
//! utilisations of a schedule of their program, and of the entities `after`
//! whose series were filled in from `a`. The flags of `a` are free: the
//! series do not depend on them, and the solution of a solver is not asked
//! for them.
//!
//! The laws are exact. A solver works in floating point, and a reading is the
//! nearest millionth of what it returns: a schedule whose exact optimum is
//! not a whole number of millionths satisfies the program, and so the laws,
//! only up to that rounding.
use vstd::prelude::*;

use crate::builder::{
    closing_rows, compare, contribution, covered, during, excluded, lemma_model_variable_count,
    level, level_step, level_terms, lossless, model_spec, only, pinned,
};
use crate::layout::{lemma_slot_within, lemma_span_within_stride, span, stride, width};
use crate::model::{
    admits, constant_view, feasible, holds, term, term_value, terms_value, value, ModelView,
    Relation, TermView, VarKind,
};
use crate::projector::{
    consumer_consumed, drawn, grid_consumed, grid_produced, producer_produced, projection,
    storage_consumed, storage_produced, storage_stored, stored_after, stored_step,
};
use crate::structure::{
    lemma_feasible_row, lemma_holds_closing_row, lemma_holds_entity_row, lemma_variable_kind,
};
use crate::{Entity, Storage, OUTPUT_SCALE, UTILISATION_SCALE};

verus! {

/// A sum without terms is zero.
pub proof fn lemma_value_of_none(a: Seq<u32>)
    ensures
        terms_value(Seq::<TermView>::empty(), a) == 0real,
{
}

/// One more term adds what it contributes.
pub proof fn lemma_value_of_push(terms: Seq<TermView>, t: TermView, a: Seq<u32>)
    ensures
        terms_value(terms.push(t), a) == terms_value(terms, a) + term_value(t, a),
{
    assert(terms.push(t).drop_last() =~= terms);
}

/// The terms of two sums together are worth the two sums together.
pub proof fn lemma_value_of_concat(x: Seq<TermView>, y: Seq<TermView>, a: Seq<u32>)
    ensures
        terms_value(x + y, a) == terms_value(x, a) + terms_value(y, a),
    decreases y.len(),
{
    if y.len() == 0 {
        assert(x + y =~= x);
    } else {
        lemma_value_of_concat(x, y.drop_last(), a);
        assert((x + y).drop_last() =~= x + y.drop_last());
    }
}

/// A sum of one term is worth that term.
pub proof fn lemma_value_of_one(t: TermView, a: Seq<u32>)
    ensures
        terms_value(seq![t], a) == term_value(t, a),
{
    lemma_value_of_push(Seq::empty(), t, a);
    assert(seq![t] =~= Seq::<TermView>::empty().push(t));
}

/// A sum of two terms is worth the two terms together.
pub proof fn lemma_value_of_two(t: TermView, u: TermView, a: Seq<u32>)
    ensures
        terms_value(seq![t, u], a) == term_value(t, a) + term_value(u, a),
{
    lemma_value_of_one(t, a);
    lemma_value_of_push(seq![t], u, a);
    assert(seq![t, u] =~= seq![t].push(u));
}

/// A variable alone is worth its utilisation.
pub proof fn lemma_value_of_only(var: int, a: Seq<u32>)
    requires
        0 <= var < a.len(),
    ensures
        value(only(var), a) * (UTILISATION_SCALE as int as real) == a[var] as int as real,
{
    lemma_value_of_one(term(var, 1, 1, 1), a);
    let r = a[var] as int;
    assert(((1 * 1) as real) / (1 as real) * ((r as real) / (1000000 as real)) * (
    1000000 as real) == r as real) by (nonlinear_arith);
}

/// A utilisation that is pinned is full.
pub proof fn lemma_pinned_is_full(var: int, a: Seq<u32>)
    requires
        0 <= var < a.len(),
        holds(pinned(var), a),
    ensures
        a[var] == UTILISATION_SCALE,
{
    lemma_value_of_only(var, a);
    lemma_value_of_none(a);
    assert(value(constant_view(1), a) == 1real);
    assert(value(only(var), a) == 1real);
    assert((UTILISATION_SCALE as int as real) == 1000000real);
    assert(a[var] as int as real == 1000000real);
}

/// Of two sides that exclude each other through a flag, one is idle.
pub proof fn lemma_one_side_idle(consuming: int, producing: int, flag: int, a: Seq<u32>)
    requires
        0 <= consuming < a.len(),
        0 <= producing < a.len(),
        0 <= flag < a.len(),
        holds(covered(producing, flag), a),
        holds(excluded(consuming, flag), a),
        admits(VarKind::Binary, a[flag]),
    ensures
        a[consuming] == 0 || a[producing] == 0,
{
    lemma_value_of_only(consuming, a);
    lemma_value_of_only(producing, a);
    lemma_value_of_only(flag, a);
    let minus = term(flag, 1, -1, 1);
    lemma_value_of_one(minus, a);
    let f = a[flag] as int;
    assert(term_value(minus, a) * (1000000 as real) == -(f as real)) by {
        assert(((1 * -1) as real) / (1 as real) * ((f as real) / (1000000 as real)) * (
        1000000 as real) == -(f as real)) by (nonlinear_arith);
    }
    assert((UTILISATION_SCALE as int as real) == 1000000real);
    let c = value(only(consuming), a);
    let p = value(only(producing), a);
    let g = value(only(flag), a);
    let h = value(excluded(consuming, flag).rhs, a);
    assert(h == term_value(minus, a) + 1real);
    assert(h * 1000000real == 1000000real - (f as real));
    assert(p <= g);
    assert(c <= h);
    assert(p * 1000000real <= g * 1000000real);
    assert(c * 1000000real <= h * 1000000real);
}

/// A term scaled to output counts: a coefficient over a lossless
/// conversion.
pub proof fn lemma_term_over_lossless(var: int, factor: int, scale: int, a: Seq<u32>)
    requires
        0 <= var < a.len(),
    ensures
        term_value(term(var, factor, scale, lossless()), a) * (OUTPUT_SCALE as int as real) == (
        a[var] as int * factor * scale) as real,
{
    let r = a[var] as int;
    assert(((factor * scale) as real) / (10000 as real) * ((r as real) / (1000000 as real)) * (
    10000000000 as real) == (r * factor * scale) as real) by (nonlinear_arith);
}

/// A term scaled to output counts: a whole coefficient.
pub proof fn lemma_term_over_one(var: int, factor: int, scale: int, a: Seq<u32>)
    requires
        0 <= var < a.len(),
    ensures
        term_value(term(var, factor, scale, 1), a) * (OUTPUT_SCALE as int as real) == (a[var] as int
            * factor * scale * lossless()) as real,
{
    let r = a[var] as int;
    assert(((factor * scale) as real) / (1 as real) * ((r as real) / (1000000 as real)) * (
    10000000000 as real) == (r * factor * scale * 10000) as real) by (nonlinear_arith);
}

/// The state of charge that the program constrains is, in output counts,
/// the state of charge that is filled in.
pub proof fn lemma_level_is_stored(s: Storage, a: Seq<u32>, offset: int, stride: int, n: int)
    requires
        0 <= n,
        0 <= offset,
        offset + 2 <= stride,
        n * stride <= a.len(),
    ensures
        (terms_value(level_terms(s, offset, stride, n), a) + (s.start_capacity as int as real)) * (
        OUTPUT_SCALE as int as real) == stored_after(s, a, offset, stride, n) as real,
    decreases n,
{
    if n > 0 {
        let j = n - 1;
        assert(0 <= j * stride && j * stride + stride <= n * stride) by (nonlinear_arith)
            requires
                0 <= j,
                j + 1 == n,
                0 <= stride,
        ;
        lemma_level_is_stored(s, a, offset, stride, j);
        let charging = term(j * stride + offset, s.power_cons_at(j), s.eff_cons_at(j), lossless());
        let discharging = term(j * stride + offset + 1, s.power_prod_at(j), -1, 1);
        lemma_value_of_concat(level_terms(s, offset, stride, j), level_step(s, offset, stride, j), a);
        lemma_value_of_two(charging, discharging, a);
        lemma_term_over_lossless(j * stride + offset, s.power_cons_at(j), s.eff_cons_at(j), a);
        lemma_term_over_one(j * stride + offset + 1, s.power_prod_at(j), -1, a);
        let scale = OUTPUT_SCALE as int as real;
        let x = terms_value(level_terms(s, offset, stride, j), a);
        let y = term_value(charging, a);
        let z = term_value(discharging, a);
        let c = s.start_capacity as int as real;
        assert(terms_value(level_terms(s, offset, stride, n), a) == x + (y + z));
        assert((x + (y + z) + c) * scale == (x + c) * scale + y * scale + z * scale)
            by (nonlinear_arith);
        let r = a[j * stride + offset + 1] as int;
        let p = s.power_prod_at(j);
        assert(r * p * -1 * 10000 == -(r * p * 10000)) by (nonlinear_arith);
        assert(stored_step(s, a, offset, stride, j) == a[j * stride + offset] as int
            * s.power_cons_at(j) * s.eff_cons_at(j) + r * p * -1 * lossless());
    } else {
        lemma_value_of_none(a);
        let c = s.start_capacity as int;
        assert((0real + (c as real)) * (10000000000 as real) == (c * 10000000000) as real)
            by (nonlinear_arith);
    }
}

/// The readings hold the utilisations of a schedule: readings with the same
/// utilisations, whatever their flags, are feasible for the program.
pub open spec fn schedules(m: ModelView, a: Seq<u32>) -> bool {
    exists|b: Seq<u32>| same_utilisations(m, a, b) && feasible(m, b)
}

/// Feasible readings hold the utilisations of a schedule.
pub proof fn lemma_feasible_schedules(m: ModelView, a: Seq<u32>)
    requires
        feasible(m, a),
    ensures
        schedules(m, a),
{
    assert(same_utilisations(m, a, a));
}

/// Feasible readings from which the series could have been filled in as
/// well.
proof fn lemma_completed(before: Seq<Entity>, after: Seq<Entity>, a: Seq<u32>, horizon: int) -> (b:
    Seq<u32>)
    requires
        schedules(model_spec(before, horizon), a),
        projection(before, after, a, horizon),
    ensures
        feasible(model_spec(before, horizon), b),
        projection(before, after, b, horizon),
{
    let b = choose|b: Seq<u32>|
        same_utilisations(model_spec(before, horizon), a, b) && feasible(
            model_spec(before, horizon),
            b,
        );
    law_flags_unread(before, after, a, b, horizon);
    b
}

/// The variables of entity `i` at timestep `t` have readings, and the
/// blocks up to timestep `t` lie among the readings.
proof fn lemma_readings_cover(before: Seq<Entity>, a: Seq<u32>, horizon: int, i: int, t: int)
    requires
        feasible(model_spec(before, horizon), a),
        0 <= i < before.len(),
        0 <= t < horizon,
    ensures
        0 <= t * stride(before) + span(before, i),
        t * stride(before) + span(before, i) + width(before[i]) <= a.len(),
        span(before, i) + width(before[i]) <= stride(before),
        (t + 1) * stride(before) <= a.len(),
        a.len() == horizon * stride(before),
{
    lemma_model_variable_count(before, horizon);
    lemma_slot_within(before, horizon, t, i);
    lemma_span_within_stride(before, i);
    let s = stride(before) as int;
    assert((t + 1) * s <= horizon * s) by (nonlinear_arith)
        requires
            0 <= t < horizon,
            0 <= s,
    ;
}

/// Demand met: a consumer draws its demanded power at every timestep.
pub proof fn law_demand_met(
    before: Seq<Entity>,
    after: Seq<Entity>,
    a: Seq<u32>,
    horizon: int,
    i: int,
    t: int,
)
    requires
        schedules(model_spec(before, horizon), a),
        projection(before, after, a, horizon),
        0 <= i < before.len(),
        0 <= t < horizon,
        before[i] is Consumer,
    ensures
        after[i] is Consumer,
        after[i]->Consumer_0.consumed@[t] == after[i]->Consumer_0.power_cons_at(t) * OUTPUT_SCALE,
{
    let a = lemma_completed(before, after, a, horizon);
    let base = t * stride(before) + span(before, i);
    let parts = contribution(before[i], horizon, t, span(before, i) as int, stride(before) as int);
    lemma_readings_cover(before, a, horizon, i, t);
    assert(parts.rows[0] == pinned(base));
    lemma_holds_entity_row(before, horizon, t, i, pinned(base));
    lemma_feasible_row(before, horizon, a, pinned(base));
    lemma_pinned_is_full(base, a);
    let power = before[i]->Consumer_0.power_cons_at(t);
    assert(1000000 * power * 10000 == power * 10000000000) by (nonlinear_arith);
}

/// A producer that may not be curtailed produces its nameplate power at
/// every timestep.
pub proof fn law_nameplate_output(
    before: Seq<Entity>,
    after: Seq<Entity>,
    a: Seq<u32>,
    horizon: int,
    i: int,
    t: int,
)
    requires
        schedules(model_spec(before, horizon), a),
        projection(before, after, a, horizon),
        0 <= i < before.len(),
        0 <= t < horizon,
        before[i] is Producer,
        !before[i]->Producer_0.can_be_disabled,
    ensures
        after[i] is Producer,
        after[i]->Producer_0.produced@[t] == after[i]->Producer_0.power_prod_at(t) * OUTPUT_SCALE,
{
    let a = lemma_completed(before, after, a, horizon);
    let base = t * stride(before) + span(before, i);
    let parts = contribution(before[i], horizon, t, span(before, i) as int, stride(before) as int);
    lemma_readings_cover(before, a, horizon, i, t);
    assert(parts.rows[0] == pinned(base));
    lemma_holds_entity_row(before, horizon, t, i, pinned(base));
    lemma_feasible_row(before, horizon, a, pinned(base));
    lemma_pinned_is_full(base, a);
    let power = before[i]->Producer_0.power_prod_at(t);
    assert(1000000 * power * 10000 == power * 10000000000) by (nonlinear_arith);
}

/// The state of charge of a storage stays between empty and full at every
/// timestep.
pub proof fn law_charge_within_capacity(
    before: Seq<Entity>,
    after: Seq<Entity>,
    a: Seq<u32>,
    horizon: int,
    i: int,
    t: int,
)
    requires
        schedules(model_spec(before, horizon), a),
        projection(before, after, a, horizon),
        0 <= i < before.len(),
        0 <= t < horizon,
        before[i] is Storage,
    ensures
        after[i] is Storage,
        0 <= after[i]->Storage_0.stored@[t] <= after[i]->Storage_0.storage_capacity * OUTPUT_SCALE,
{
    let a = lemma_completed(before, after, a, horizon);
    let s = before[i]->Storage_0;
    let offset = span(before, i) as int;
    let block = stride(before) as int;
    let parts = contribution(before[i], horizon, t, offset, block);
    let soc = level(s, offset, block, t);
    let floor = compare(soc, Relation::AtLeast, constant_view(0));
    let ceiling = compare(soc, Relation::AtMost, constant_view(s.storage_capacity as int));
    lemma_readings_cover(before, a, horizon, i, t);
    assert(parts.rows[parts.rows.len() - 2] == floor);
    assert(parts.rows[parts.rows.len() - 1] == ceiling);
    lemma_holds_entity_row(before, horizon, t, i, floor);
    lemma_holds_entity_row(before, horizon, t, i, ceiling);
    lemma_feasible_row(before, horizon, a, floor);
    lemma_feasible_row(before, horizon, a, ceiling);
    lemma_level_is_stored(s, a, offset, block, t + 1);
    lemma_value_of_none(a);
    let scale = OUTPUT_SCALE as int as real;
    let v = value(soc, a);
    let cap = s.storage_capacity as int;
    assert(scale == 10000000000real);
    assert(v >= 0real);
    assert(v <= cap as real);
    assert(v * 10000000000real >= 0real);
    assert(v * 10000000000real <= (cap as real) * 10000000000real);
    assert((cap as real) * 10000000000real == (cap * 10000000000) as real) by (nonlinear_arith);
}

/// A storage whose final state of charge is set ends the horizon with it.
pub proof fn law_final_charge(
    before: Seq<Entity>,
    after: Seq<Entity>,
    a: Seq<u32>,
    horizon: int,
    i: int,
)
    requires
        schedules(model_spec(before, horizon), a),
        projection(before, after, a, horizon),
        0 <= i < before.len(),
        0 < horizon,
        before[i] is Storage,
        before[i]->Storage_0.end_capacity is Some,
    ensures
        after[i] is Storage,
        after[i]->Storage_0.stored@[horizon - 1] == after[i]->Storage_0.end_capacity->Some_0
            * OUTPUT_SCALE,
{
    let a = lemma_completed(before, after, a, horizon);
    let t = horizon - 1;
    let s = before[i]->Storage_0;
    let offset = span(before, i) as int;
    let block = stride(before) as int;
    let parts = contribution(before[i], horizon, t, offset, block);
    let soc = level(s, offset, block, t);
    let end = s.end_capacity->Some_0 as int;
    let ends = compare(soc, Relation::Equal, constant_view(end));
    lemma_readings_cover(before, a, horizon, i, t);
    assert(parts.rows[2] == ends);
    lemma_holds_entity_row(before, horizon, t, i, ends);
    lemma_feasible_row(before, horizon, a, ends);
    lemma_level_is_stored(s, a, offset, block, t + 1);
    lemma_value_of_none(a);
    let v = value(soc, a);
    assert(OUTPUT_SCALE as int as real == 10000000000real);
    assert(v == end as real);
    assert((end as real) * 10000000000real == (end * 10000000000) as real) by (nonlinear_arith);
}

/// At every timestep one of the two sides of a storage or of a grid is
/// idle.
pub proof fn lemma_sides_exclude(before: Seq<Entity>, a: Seq<u32>, horizon: int, i: int, t: int)
    requires
        feasible(model_spec(before, horizon), a),
        0 <= i < before.len(),
        0 <= t < horizon,
        before[i] is Storage || before[i] is Grid,
    ensures
        a[t * stride(before) + span(before, i)] == 0 || a[t * stride(before) + span(before, i) + 1]
            == 0,
{
    let base = t * stride(before) + span(before, i);
    let parts = contribution(before[i], horizon, t, span(before, i) as int, stride(before) as int);
    lemma_readings_cover(before, a, horizon, i, t);
    assert(parts.rows[0] == covered(base + 1, base + 2));
    assert(parts.rows[1] == excluded(base, base + 2));
    lemma_holds_entity_row(before, horizon, t, i, covered(base + 1, base + 2));
    lemma_holds_entity_row(before, horizon, t, i, excluded(base, base + 2));
    lemma_feasible_row(before, horizon, a, covered(base + 1, base + 2));
    lemma_feasible_row(before, horizon, a, excluded(base, base + 2));
    lemma_variable_kind(before, horizon, t, i, 2);
    assert(model_spec(before, horizon).vars[base + 2] == VarKind::Binary);
    lemma_one_side_idle(base, base + 1, base + 2, a);
}

/// A storage never charges and discharges in the same timestep.
pub proof fn law_storage_one_way(
    before: Seq<Entity>,
    after: Seq<Entity>,
    a: Seq<u32>,
    horizon: int,
    i: int,
    t: int,
)
    requires
        schedules(model_spec(before, horizon), a),
        projection(before, after, a, horizon),
        0 <= i < before.len(),
        0 <= t < horizon,
        before[i] is Storage,
    ensures
        after[i] is Storage,
        after[i]->Storage_0.consumed@[t] * after[i]->Storage_0.produced@[t] == 0,
{
    let a = lemma_completed(before, after, a, horizon);
    lemma_sides_exclude(before, a, horizon, i, t);
    let s = before[i]->Storage_0;
    let base = t * stride(before) + span(before, i);
    let c = a[base] as int;
    let p = a[base + 1] as int;
    let x = s.power_cons_at(t);
    let y = s.power_prod_at(t);
    let e = s.eff_prod_at(t);
    assert((c * x * 10000) * (p * y * e) == 0) by (nonlinear_arith)
        requires
            c == 0 || p == 0,
    ;
}

/// A grid never takes from the node and feeds it in the same timestep.
pub proof fn law_grid_one_way(
    before: Seq<Entity>,
    after: Seq<Entity>,
    a: Seq<u32>,
    horizon: int,
    i: int,
    t: int,
)
    requires
        schedules(model_spec(before, horizon), a),
        projection(before, after, a, horizon),
        0 <= i < before.len(),
        0 <= t < horizon,
        before[i] is Grid,
    ensures
        after[i] is Grid,
        after[i]->Grid_0.consumed@[t] * after[i]->Grid_0.produced@[t] == 0,
{
    let a = lemma_completed(before, after, a, horizon);
    lemma_sides_exclude(before, a, horizon, i, t);
    let g = before[i]->Grid_0;
    let base = t * stride(before) + span(before, i);
    let c = a[base] as int;
    let p = a[base + 1] as int;
    let x = g.power_cons_at(t);
    let y = g.power_prod_at(t);
    assert((c * x * 10000) * (p * y * 10000) == 0) by (nonlinear_arith)
        requires
            c == 0 || p == 0,
    ;
}

/// The share of its input that a conversion with this efficiency gives out.
pub open spec fn efficiency(eff: int) -> real {
    (eff as real) / (lossless() as real)
}

/// What an entity, with its series filled in, injects into the node at
/// timestep `t`: what a source produces after its loss, less what a sink
/// draws before its loss. A storage delivers after its loss already.
pub open spec fn injection(e: Entity, t: int) -> real {
    match e {
        Entity::Consumer(c) => -((c.consumed@[t] as int as real) / efficiency(c.eff_cons_at(t))),
        Entity::Producer(p) => (p.produced@[t] as int as real) * efficiency(p.eff_prod_at(t)),
        Entity::Storage(s) => (s.produced@[t] as int as real) - (s.consumed@[t] as int as real)
            / efficiency(s.eff_cons_at(t)),
        Entity::Grid(g) => (g.produced@[t] as int as real) - (g.consumed@[t] as int as real),
    }
}

/// What the first `n` entities inject into the node at timestep `t`.
pub open spec fn balance(entities: Seq<Entity>, t: int, n: int) -> real
    decreases n,
{
    if n <= 0 {
        0real
    } else {
        balance(entities, t, n - 1) + injection(entities[n - 1], t)
    }
}

/// No sink loses all that it draws at timestep `t`: the efficiency of each
/// consumer, and of the charging side of each storage, is above zero.
pub open spec fn sinks_keep_some(entities: Seq<Entity>, t: int) -> bool {
    forall|i: int|
        0 <= i < entities.len() ==> match #[trigger] entities[i] {
            Entity::Consumer(c) => c.eff_cons_at(t) != 0,
            Entity::Storage(s) => s.eff_cons_at(t) != 0,
            _ => true,
        }
}

/// A term scaled to output counts: what a sink draws, before its loss.
pub proof fn lemma_term_over_efficiency(var: int, power: int, eff: int, a: Seq<u32>)
    requires
        0 <= var < a.len(),
        eff != 0,
    ensures
        term_value(term(var, power, -lossless(), eff), a) * (OUTPUT_SCALE as int as real) == -((
        drawn(a, var, power) as real) / efficiency(eff)),
{
    let r = a[var] as int;
    let n = (r * power * 10000) as real;
    let e = eff as real;
    assert(((power * -10000) as real) / e * ((r as real) / (1000000 as real)) * (
    10000000000 as real) == -(n * 10000real / e)) by (nonlinear_arith)
        requires
            e != 0real,
            n == (r * power * 10000) as real,
    ;
    assert(n / (e / 10000real) == n * 10000real / e) by (nonlinear_arith)
        requires
            e != 0real,
    ;
}

/// What an entity contributes to the balance of the node is, in output
/// counts, what it injects according to its series.
pub proof fn lemma_node_part_is_injection(
    before: Entity,
    after: Entity,
    a: Seq<u32>,
    horizon: int,
    t: int,
    offset: int,
    block: int,
)
    requires
        crate::projector::projects_to(before, after, a, horizon, offset, block),
        0 <= t < horizon,
        0 <= t * block + offset,
        t * block + offset + width(before) <= a.len(),
        match before {
            Entity::Consumer(c) => c.eff_cons_at(t) != 0,
            Entity::Storage(s) => s.eff_cons_at(t) != 0,
            _ => true,
        },
    ensures
        terms_value(contribution(before, horizon, t, offset, block).node, a) * (
        OUTPUT_SCALE as int as real) == injection(after, t),
{
    let base = t * block + offset;
    let scale = OUTPUT_SCALE as int as real;
    match before {
        Entity::Consumer(c) => {
            lemma_value_of_one(term(base, c.power_cons_at(t), -lossless(), c.eff_cons_at(t)), a);
            lemma_term_over_efficiency(base, c.power_cons_at(t), c.eff_cons_at(t), a);
        },
        Entity::Producer(p) => {
            lemma_value_of_one(term(base, p.power_prod_at(t), p.eff_prod_at(t), lossless()), a);
            lemma_term_over_lossless(base, p.power_prod_at(t), p.eff_prod_at(t), a);
            let r = a[base] as int;
            let x = p.power_prod_at(t);
            let e = p.eff_prod_at(t);
            assert(((r * x * 10000) as real) * ((e as real) / (10000 as real)) == (r * x * e) as real)
                by (nonlinear_arith);
        },
        Entity::Storage(s) => {
            let given = term(base + 1, s.power_prod_at(t), s.eff_prod_at(t), lossless());
            let taken = term(base, s.power_cons_at(t), -lossless(), s.eff_cons_at(t));
            lemma_value_of_two(given, taken, a);
            lemma_term_over_lossless(base + 1, s.power_prod_at(t), s.eff_prod_at(t), a);
            lemma_term_over_efficiency(base, s.power_cons_at(t), s.eff_cons_at(t), a);
            let x = term_value(given, a);
            let y = term_value(taken, a);
            assert((x + y) * scale == x * scale + y * scale) by (nonlinear_arith);
        },
        Entity::Grid(g) => {
            let given = term(base + 1, g.power_prod_at(t), 1, 1);
            let taken = term(base, g.power_cons_at(t), -1, 1);
            lemma_value_of_two(given, taken, a);
            lemma_term_over_one(base + 1, g.power_prod_at(t), 1, a);
            lemma_term_over_one(base, g.power_cons_at(t), -1, a);
            let x = term_value(given, a);
            let y = term_value(taken, a);
            assert((x + y) * scale == x * scale + y * scale) by (nonlinear_arith);
            let r = a[base] as int;
            let q = a[base + 1] as int;
            let pc = g.power_cons_at(t);
            let pp = g.power_prod_at(t);
            assert(r * pc * -1 * 10000 == -(r * pc * 10000)) by (nonlinear_arith);
            assert(q * pp * 1 * 10000 == q * pp * 10000) by (nonlinear_arith);
        },
    }
}

/// The balance that the program keeps for the first `n` entities is, in
/// output counts, what they inject according to their series.
pub proof fn lemma_node_sum_is_balance(
    before: Seq<Entity>,
    after: Seq<Entity>,
    a: Seq<u32>,
    horizon: int,
    t: int,
    n: int,
)
    requires
        feasible(model_spec(before, horizon), a),
        projection(before, after, a, horizon),
        sinks_keep_some(before, t),
        0 <= t < horizon,
        0 <= n <= before.len(),
    ensures
        during(before, horizon, t, n).1.node.constant == 0,
        terms_value(during(before, horizon, t, n).1.node.terms, a) * (OUTPUT_SCALE as int as real)
            == balance(after, t, n),
    decreases n,
{
    let scale = OUTPUT_SCALE as int as real;
    if n > 0 {
        let i = n - 1;
        lemma_node_sum_is_balance(before, after, a, horizon, t, i);
        lemma_readings_cover(before, a, horizon, i, t);
        let parts = contribution(
            before[i],
            horizon,
            t,
            span(before, i) as int,
            stride(before) as int,
        );
        lemma_node_part_is_injection(
            before[i],
            after[i],
            a,
            horizon,
            t,
            span(before, i) as int,
            stride(before) as int,
        );
        let earlier = during(before, horizon, t, i).1.node.terms;
        lemma_value_of_concat(earlier, parts.node, a);
        let x = terms_value(earlier, a);
        let y = terms_value(parts.node, a);
        assert((x + y) * scale == x * scale + y * scale) by (nonlinear_arith);
    } else {
        lemma_value_of_none(a);
    }
}

/// Power balance: at every timestep what the entities inject into the node
/// adds up to zero, provided that no sink loses all that it draws.
pub proof fn law_power_balance(
    before: Seq<Entity>,
    after: Seq<Entity>,
    a: Seq<u32>,
    horizon: int,
    t: int,
)
    requires
        schedules(model_spec(before, horizon), a),
        projection(before, after, a, horizon),
        sinks_keep_some(before, t),
        0 <= t < horizon,
    ensures
        balance(after, t, after.len() as int) == 0real,
{
    let a = lemma_completed(before, after, a, horizon);
    let n = before.len() as int;
    let step = during(before, horizon, t, n).1;
    let row = compare(step.node, Relation::Equal, constant_view(0));
    lemma_node_sum_is_balance(before, after, a, horizon, t, n);
    assert(closing_rows(step)[0] == row);
    lemma_holds_closing_row(before, horizon, t, row);
    lemma_feasible_row(before, horizon, a, row);
    lemma_value_of_none(a);
    let v = terms_value(step.node.terms, a);
    assert(value(step.node, a) == v + 0real);
    assert(v == 0real);
}

/// The state of charge that the series of a storage give after `n`
/// timesteps: the start, and for each timestep what is drawn, after the loss
/// of charging, less what leaves the store for what is delivered.
pub open spec fn charged(s: Storage, n: int) -> real
    decreases n,
{
    if n <= 0 {
        (s.start_capacity as int * OUTPUT_SCALE as int) as real
    } else {
        charged(s, n - 1) + (s.consumed@[n - 1] as int as real) * efficiency(s.eff_cons_at(n - 1))
            - (s.produced@[n - 1] as int as real) / efficiency(s.eff_prod_at(n - 1))
    }
}

/// What is drawn, after the loss of charging, and what leaves the store for
/// what is delivered.
proof fn lemma_step_from_series(r: int, x: int, e: int, q: int, y: int, d: int)
    requires
        d != 0,
    ensures
        ((r * x * 10000) as real) * ((e as real) / (10000 as real)) == (r * x * e) as real,
        ((q * y * d) as real) / ((d as real) / (10000 as real)) == (q * y * 10000) as real,
{
    assert(((r * x * 10000) as real) * ((e as real) / (10000 as real)) == (r * x * e) as real)
        by (nonlinear_arith);
    let n = (q * y) as real;
    let dd = d as real;
    assert((q * y * d) as real == n * dd) by (nonlinear_arith)
        requires
            n == (q * y) as real,
            dd == d as real,
    ;
    assert((q * y * 10000) as real == n * 10000real) by (nonlinear_arith)
        requires
            n == (q * y) as real,
    ;
    assert((n * dd) / (dd / 10000real) == n * 10000real) by (nonlinear_arith)
        requires
            dd != 0real,
    ;
}

/// The state of charge follows the series: the state of charge that is
/// filled in for a timestep is the one that the series of what was drawn and
/// delivered give, provided that the storage delivers some of what leaves
/// the store.
pub proof fn law_charge_follows_series(
    before: Seq<Entity>,
    after: Seq<Entity>,
    a: Seq<u32>,
    horizon: int,
    i: int,
    n: int,
)
    requires
        projection(before, after, a, horizon),
        0 <= i < before.len(),
        0 <= n <= horizon,
        before[i] is Storage,
        forall|j: int| 0 <= j < n ==> #[trigger] before[i]->Storage_0.eff_prod_at(j) != 0,
    ensures
        after[i] is Storage,
        charged(after[i]->Storage_0, n) == stored_after(
            before[i]->Storage_0,
            a,
            span(before, i) as int,
            stride(before) as int,
            n,
        ) as real,
        n > 0 ==> after[i]->Storage_0.stored@[n - 1] as int as real == charged(
            after[i]->Storage_0,
            n,
        ),
    decreases n,
{
    if n > 0 {
        let j = n - 1;
        law_charge_follows_series(before, after, a, horizon, i, j);
        let s = before[i]->Storage_0;
        let filled = after[i]->Storage_0;
        let offset = span(before, i) as int;
        let block = stride(before) as int;
        assert(filled.consumed@[j] == storage_consumed(s, a, offset, block, j));
        assert(filled.produced@[j] == storage_produced(s, a, offset, block, j));
        assert(filled.stored@[j] == storage_stored(s, a, offset, block, j));
        assert(s.eff_prod_at(j) != 0);
        lemma_step_from_series(
            a[j * block + offset] as int,
            s.power_cons_at(j),
            s.eff_cons_at(j),
            a[j * block + offset + 1] as int,
            s.power_prod_at(j),
            s.eff_prod_at(j),
        );
    }
}

/// The two lists of readings give every utilisation of the program the same
/// reading; the readings of the flags may differ.
pub open spec fn same_utilisations(m: ModelView, a: Seq<u32>, b: Seq<u32>) -> bool {
    &&& a.len() == m.vars.len()
    &&& b.len() == m.vars.len()
    &&& forall|k: int|
        0 <= k < m.vars.len() && m.vars[k] == VarKind::Fraction ==> #[trigger] a[k] == b[k]
}

/// The two sides of entity `i` have the same readings at timestep `t` in two
/// lists that give every utilisation the same reading.
proof fn lemma_same_sides(
    before: Seq<Entity>,
    a: Seq<u32>,
    b: Seq<u32>,
    horizon: int,
    i: int,
    t: int,
)
    requires
        same_utilisations(model_spec(before, horizon), a, b),
        0 <= i < before.len(),
        0 <= t < horizon,
    ensures
        a[t * stride(before) + span(before, i)] == b[t * stride(before) + span(before, i)],
        before[i] is Storage || before[i] is Grid ==> a[t * stride(before) + span(before, i) + 1]
            == b[t * stride(before) + span(before, i) + 1],
{
    lemma_variable_kind(before, horizon, t, i, 0);
    if before[i] is Storage || before[i] is Grid {
        lemma_variable_kind(before, horizon, t, i, 1);
    }
}

/// The state of charge of a storage is the same under two lists of readings
/// that give every utilisation the same reading.
proof fn lemma_same_stored(
    before: Seq<Entity>,
    a: Seq<u32>,
    b: Seq<u32>,
    horizon: int,
    i: int,
    n: int,
)
    requires
        same_utilisations(model_spec(before, horizon), a, b),
        0 <= i < before.len(),
        0 <= n <= horizon,
        before[i] is Storage,
    ensures
        stored_after(before[i]->Storage_0, a, span(before, i) as int, stride(before) as int, n)
            == stored_after(
            before[i]->Storage_0,
            b,
            span(before, i) as int,
            stride(before) as int,
            n,
        ),
    decreases n,
{
    if n > 0 {
        lemma_same_stored(before, a, b, horizon, i, n - 1);
        lemma_same_sides(before, a, b, horizon, i, n - 1);
    }
}

/// The series do not depend on the readings of the flags: entities whose
/// series were filled in from one list of readings are also what any list
/// with the same utilisations gives.
pub proof fn law_flags_unread(
    before: Seq<Entity>,
    after: Seq<Entity>,
    a: Seq<u32>,
    b: Seq<u32>,
    horizon: int,
)
    requires
        projection(before, after, a, horizon),
        same_utilisations(model_spec(before, horizon), a, b),
    ensures
        projection(before, after, b, horizon),
{
    assert forall|i: int| 0 <= i < before.len() implies crate::projector::projects_to(
        before[i],
        #[trigger] after[i],
        b,
        horizon,
        span(before, i) as int,
        stride(before) as int,
    ) by {
        let offset = span(before, i) as int;
        let block = stride(before) as int;
        match (before[i], after[i]) {
            (Entity::Consumer(x), Entity::Consumer(y)) => {
                assert forall|t: int| 0 <= t < horizon implies #[trigger] y.consumed@[t]
                    == consumer_consumed(x, b, offset, block, t) by {
                    lemma_same_sides(before, a, b, horizon, i, t);
                }
            },
            (Entity::Producer(x), Entity::Producer(y)) => {
                assert forall|t: int| 0 <= t < horizon implies #[trigger] y.produced@[t]
                    == producer_produced(x, b, offset, block, t) by {
                    lemma_same_sides(before, a, b, horizon, i, t);
                }
            },
            (Entity::Storage(x), Entity::Storage(y)) => {
                assert forall|t: int| 0 <= t < horizon implies #[trigger] y.consumed@[t]
                    == storage_consumed(x, b, offset, block, t) by {
                    lemma_same_sides(before, a, b, horizon, i, t);
                }
                assert forall|t: int| 0 <= t < horizon implies #[trigger] y.produced@[t]
                    == storage_produced(x, b, offset, block, t) by {
                    lemma_same_sides(before, a, b, horizon, i, t);
                }
                assert forall|t: int| 0 <= t < horizon implies #[trigger] y.stored@[t]
                    == storage_stored(x, b, offset, block, t) by {
                    lemma_same_stored(before, a, b, horizon, i, t + 1);
                }
            },
            (Entity::Grid(x), Entity::Grid(y)) => {
                assert forall|t: int| 0 <= t < horizon implies #[trigger] y.consumed@[t]
                    == grid_consumed(x, b, offset, block, t) by {
                    lemma_same_sides(before, a, b, horizon, i, t);
                }
                assert forall|t: int| 0 <= t < horizon implies #[trigger] y.produced@[t]
                    == grid_produced(x, b, offset, block, t) by {
                    lemma_same_sides(before, a, b, horizon, i, t);
                }
            },
            _ => {},
        }
    }
}

/// The series are a function of the readings: entities whose series were
/// filled in twice from the same readings hold the same series.
pub proof fn law_same_readings_same_series(
    before: Seq<Entity>,
    first: Seq<Entity>,
    second: Seq<Entity>,
    a: Seq<u32>,
    horizon: int,
    i: int,
)
    requires
        projection(before, first, a, horizon),
        projection(before, second, a, horizon),
        0 <= i < before.len(),
    ensures
        match (first[i], second[i]) {
            (Entity::Consumer(x), Entity::Consumer(y)) => x.consumed@ == y.consumed@,
            (Entity::Producer(x), Entity::Producer(y)) => x.produced@ == y.produced@,
            (Entity::Storage(x), Entity::Storage(y)) => {
                &&& x.consumed@ == y.consumed@
                &&& x.produced@ == y.produced@
                &&& x.stored@ == y.stored@
            },
            (Entity::Grid(x), Entity::Grid(y)) => {
                &&& x.consumed@ == y.consumed@
                &&& x.produced@ == y.produced@
            },
            _ => false,
        },
{
    match (first[i], second[i]) {
        (Entity::Consumer(x), Entity::Consumer(y)) => {
            assert(x.consumed@ =~= y.consumed@);
        },
        (Entity::Producer(x), Entity::Producer(y)) => {
            assert(x.produced@ =~= y.produced@);
        },
        (Entity::Storage(x), Entity::Storage(y)) => {
            assert(x.consumed@ =~= y.consumed@);
            assert(x.produced@ =~= y.produced@);
            assert(x.stored@ =~= y.stored@);
        },
        (Entity::Grid(x), Entity::Grid(y)) => {
            assert(x.consumed@ =~= y.consumed@);
            assert(x.produced@ =~= y.produced@);
        },
        _ => {},
    }
}

} // verus!
