//! What the dispatch program holds: which constraints and which kinds of
//! variables stand in it, and on which inputs every term of it names one of
//! its variables and has a coefficient.
use vstd::prelude::*;

use crate::builder::{
    closing_rows, contribution, during, lemma_variable_count, level_terms, model_spec, Parts,
    StepView,
};
use crate::layout::{span, stride, width};
use crate::model::{feasible, holds, usable, ConstraintView, ModelView, TermView};
use crate::{Entity, Storage};

verus! {

/// The state `(t, n)` of the fold is reached no later than `(t2, n2)`.
pub open spec fn no_later(t: int, n: int, t2: int, n2: int) -> bool {
    t < t2 || (t == t2 && n <= n2)
}

/// A constraint that the program holds at one state of the fold is held at
/// every later state.
pub proof fn lemma_rows_kept(
    entities: Seq<Entity>,
    horizon: int,
    t: int,
    n: int,
    t2: int,
    n2: int,
    c: ConstraintView,
)
    requires
        0 <= t,
        0 <= n <= entities.len(),
        0 <= n2 <= entities.len(),
        no_later(t, n, t2, n2),
        during(entities, horizon, t, n).0.constraints.contains(c),
    ensures
        during(entities, horizon, t2, n2).0.constraints.contains(c),
    decreases t2, n2,
{
    if t == t2 && n == n2 {
    } else if n2 > 0 {
        lemma_rows_kept(entities, horizon, t, n, t2, n2 - 1, c);
        let earlier = during(entities, horizon, t2, n2 - 1).0.constraints;
        let k = choose|k: int| 0 <= k < earlier.len() && earlier[k] == c;
        assert(during(entities, horizon, t2, n2).0.constraints[k] == c);
    } else {
        lemma_rows_kept(entities, horizon, t, n, t2 - 1, entities.len() as int, c);
        let earlier = during(entities, horizon, t2 - 1, entities.len() as int).0.constraints;
        let k = choose|k: int| 0 <= k < earlier.len() && earlier[k] == c;
        assert(during(entities, horizon, t2, 0).0.constraints[k] == c);
    }
}

/// The program holds every constraint that an entity contributes in a
/// timestep of the horizon.
pub proof fn lemma_holds_entity_row(
    entities: Seq<Entity>,
    horizon: int,
    t: int,
    i: int,
    c: ConstraintView,
)
    requires
        0 <= t < horizon,
        0 <= i < entities.len(),
        contribution(
            entities[i],
            horizon,
            t,
            span(entities, i) as int,
            stride(entities) as int,
        ).rows.contains(c),
    ensures
        model_spec(entities, horizon).constraints.contains(c),
{
    let parts = contribution(
        entities[i],
        horizon,
        t,
        span(entities, i) as int,
        stride(entities) as int,
    );
    let k = choose|k: int| 0 <= k < parts.rows.len() && parts.rows[k] == c;
    let before = during(entities, horizon, t, i).0.constraints;
    assert(during(entities, horizon, t, i + 1).0.constraints[before.len() + k] == c);
    lemma_rows_kept(entities, horizon, t, i + 1, horizon, 0, c);
}

/// The program holds the constraints that close each timestep of the
/// horizon.
pub proof fn lemma_holds_closing_row(entities: Seq<Entity>, horizon: int, t: int, c: ConstraintView)
    requires
        0 <= t < horizon,
        closing_rows(during(entities, horizon, t, entities.len() as int).1).contains(c),
    ensures
        model_spec(entities, horizon).constraints.contains(c),
{
    let closing = closing_rows(during(entities, horizon, t, entities.len() as int).1);
    let k = choose|k: int| 0 <= k < closing.len() && closing[k] == c;
    let before = during(entities, horizon, t, entities.len() as int).0.constraints;
    assert(during(entities, horizon, t + 1, 0).0.constraints[before.len() + k] == c);
    lemma_rows_kept(entities, horizon, t + 1, 0, horizon, 0, c);
}

/// Readings that are feasible for a program satisfy each constraint that the
/// program holds.
pub proof fn lemma_feasible_row(entities: Seq<Entity>, horizon: int, a: Seq<u32>, c: ConstraintView)
    requires
        feasible(model_spec(entities, horizon), a),
        model_spec(entities, horizon).constraints.contains(c),
    ensures
        holds(c, a),
{
}

/// A variable that the program has at one state of the fold is the same at
/// every later state.
pub proof fn lemma_vars_kept(
    entities: Seq<Entity>,
    horizon: int,
    t: int,
    n: int,
    t2: int,
    n2: int,
    k: int,
)
    requires
        0 <= t,
        0 <= n <= entities.len(),
        0 <= n2 <= entities.len(),
        no_later(t, n, t2, n2),
        0 <= k < during(entities, horizon, t, n).0.vars.len(),
    ensures
        k < during(entities, horizon, t2, n2).0.vars.len(),
        during(entities, horizon, t2, n2).0.vars[k] == during(entities, horizon, t, n).0.vars[k],
    decreases t2, n2,
{
    if t == t2 && n == n2 {
    } else if n2 > 0 {
        lemma_vars_kept(entities, horizon, t, n, t2, n2 - 1, k);
    } else {
        lemma_vars_kept(entities, horizon, t, n, t2 - 1, entities.len() as int, k);
    }
}

/// The variables of entity `i` at timestep `t` of the horizon are those that
/// the entity contributes, at the place that the layout gives them.
pub proof fn lemma_variable_kind(entities: Seq<Entity>, horizon: int, t: int, i: int, k: int)
    requires
        0 <= t < horizon,
        0 <= i < entities.len(),
        0 <= k < width(entities[i]),
    ensures
        0 <= t * stride(entities) + span(entities, i) + k < model_spec(entities, horizon).vars.len(),
        model_spec(entities, horizon).vars[t * stride(entities) + span(entities, i) + k]
            == contribution(
            entities[i],
            horizon,
            t,
            span(entities, i) as int,
            stride(entities) as int,
        ).vars[k],
{
    let s = stride(entities) as int;
    let place = t * s + span(entities, i) + k;
    lemma_variable_count(entities, horizon, t, i);
    lemma_variable_count(entities, horizon, t, i + 1);
    assert(0 <= t * s) by (nonlinear_arith)
        requires
            0 <= t,
            0 <= s,
    ;
    assert(during(entities, horizon, t, i + 1).0.vars[place] == contribution(
        entities[i],
        horizon,
        t,
        span(entities, i) as int,
        s,
    ).vars[k]);
    lemma_vars_kept(entities, horizon, t, i + 1, horizon, 0, place);
}

/// No conversion of the entity loses everything at timestep `t`: each of its
/// efficiencies is above zero. The program divides by each of them.
pub open spec fn converts(e: Entity, t: int) -> bool {
    match e {
        Entity::Consumer(c) => c.eff_cons_at(t) != 0,
        Entity::Producer(p) => p.eff_prod_at(t) != 0,
        Entity::Storage(s) => s.eff_cons_at(t) != 0 && s.eff_prod_at(t) != 0,
        Entity::Grid(_) => true,
    }
}

/// No conversion of any entity loses everything in the horizon.
pub open spec fn all_convert(entities: Seq<Entity>, horizon: int) -> bool {
    forall|i: int, t: int|
        0 <= i < entities.len() && 0 <= t < horizon ==> #[trigger] converts(entities[i], t)
}

/// Every term of the sequence is usable with `count` variables.
pub open spec fn terms_usable(terms: Seq<TermView>, count: int) -> bool {
    forall|k: int| 0 <= k < terms.len() ==> usable(#[trigger] terms[k], count)
}

/// Every term of every constraint is usable with `count` variables.
pub open spec fn rows_usable(rows: Seq<ConstraintView>, count: int) -> bool {
    forall|j: int|
        0 <= j < rows.len() ==> {
            &&& terms_usable((#[trigger] rows[j]).lhs.terms, count)
            &&& terms_usable(rows[j].rhs.terms, count)
        }
}

/// Every term that the parts hold is usable with `count` variables.
pub open spec fn parts_usable(parts: Parts, count: int) -> bool {
    &&& rows_usable(parts.rows, count)
    &&& terms_usable(parts.cost, count)
    &&& terms_usable(parts.node, count)
    &&& terms_usable(parts.sinks, count)
    &&& terms_usable(parts.sources, count)
    &&& terms_usable(parts.locked_sinks, count)
    &&& terms_usable(parts.locked_sources, count)
}

/// Every term of the program and of the sums of the running timestep is
/// usable with `count` variables.
pub open spec fn state_usable(state: (ModelView, StepView), count: int) -> bool {
    &&& rows_usable(state.0.constraints, count)
    &&& terms_usable(state.0.objective.terms, count)
    &&& terms_usable(state.1.node.terms, count)
    &&& terms_usable(state.1.sinks.terms, count)
    &&& terms_usable(state.1.sources.terms, count)
    &&& terms_usable(state.1.locked_sinks.terms, count)
    &&& terms_usable(state.1.locked_sources.terms, count)
}

/// The state of charge after `n` timesteps speaks of variables of the first
/// `n` blocks only, and divides by no efficiency.
pub proof fn lemma_level_terms_usable(s: Storage, offset: int, block: int, n: int)
    requires
        0 <= n,
        0 <= offset,
        offset + 2 <= block,
    ensures
        terms_usable(level_terms(s, offset, block, n), n * block),
    decreases n,
{
    if n > 0 {
        lemma_level_terms_usable(s, offset, block, n - 1);
        assert(0 <= (n - 1) * block && (n - 1) * block + block == n * block) by (nonlinear_arith)
            requires
                0 < n,
                0 <= block,
        ;
    }
}

/// What an entity contributes at timestep `t` speaks of variables of the
/// first `t + 1` blocks only, and divides by efficiencies above zero where
/// no conversion of the entity loses everything.
pub proof fn lemma_contribution_usable(e: Entity, horizon: int, t: int, offset: int, block: int)
    requires
        0 <= t,
        0 <= offset,
        offset + width(e) <= block,
        converts(e, t),
    ensures
        parts_usable(contribution(e, horizon, t, offset, block), (t + 1) * block),
{
    assert(0 <= t * block && t * block + block == (t + 1) * block) by (nonlinear_arith)
        requires
            0 <= t,
            0 <= block,
    ;
    match e {
        Entity::Storage(s) => {
            lemma_level_terms_usable(s, offset, block, t + 1);
        },
        _ => {},
    }
}

/// Parts that are usable with a number of variables are usable with any
/// greater number.
pub proof fn lemma_parts_usable_with_more(parts: Parts, count: int, more: int)
    requires
        parts_usable(parts, count),
        count <= more,
    ensures
        parts_usable(parts, more),
{
}

/// At every state of the fold inside the horizon, the program and the sums of
/// the running timestep are usable with the variables of the horizon.
pub proof fn lemma_state_usable(entities: Seq<Entity>, horizon: int, t: int, n: int)
    requires
        0 <= t,
        0 <= n <= entities.len(),
        t < horizon || (t == horizon && n == 0),
        all_convert(entities, horizon),
    ensures
        state_usable(during(entities, horizon, t, n), horizon * stride(entities)),
    decreases t, n,
{
    let block = stride(entities) as int;
    let count = horizon * block;
    if n > 0 {
        let i = n - 1;
        lemma_state_usable(entities, horizon, t, i);
        crate::layout::lemma_span_within_stride(entities, i);
        let parts = contribution(entities[i], horizon, t, span(entities, i) as int, block);
        assert(converts(entities[i], t));
        lemma_contribution_usable(entities[i], horizon, t, span(entities, i) as int, block);
        assert((t + 1) * block <= horizon * block) by (nonlinear_arith)
            requires
                t < horizon,
                0 <= block,
        ;
        lemma_parts_usable_with_more(parts, (t + 1) * block, count);
    } else if t > 0 {
        lemma_state_usable(entities, horizon, t - 1, entities.len() as int);
    }
}

/// The sums of timestep `t` keep the terms that entity `i` gave them.
pub proof fn lemma_sums_keep(entities: Seq<Entity>, horizon: int, t: int, i: int, n: int)
    requires
        0 <= i < n <= entities.len(),
    ensures
        ({
            let parts = contribution(
                entities[i],
                horizon,
                t,
                span(entities, i) as int,
                stride(entities) as int,
            );
            let sums = during(entities, horizon, t, n).1;
            &&& forall|k: int|
                0 <= k < parts.sinks.len() ==> sums.sinks.terms.contains(#[trigger] parts.sinks[k])
            &&& forall|k: int|
                0 <= k < parts.sources.len() ==> sums.sources.terms.contains(
                    #[trigger] parts.sources[k],
                )
        }),
    decreases n,
{
    let parts = contribution(
        entities[i],
        horizon,
        t,
        span(entities, i) as int,
        stride(entities) as int,
    );
    let earlier = during(entities, horizon, t, n - 1).1;
    let sums = during(entities, horizon, t, n).1;
    if n == i + 1 {
        assert forall|k: int| 0 <= k < parts.sinks.len() implies sums.sinks.terms.contains(
            #[trigger] parts.sinks[k],
        ) by {
            assert(sums.sinks.terms[earlier.sinks.terms.len() + k] == parts.sinks[k]);
        }
        assert forall|k: int| 0 <= k < parts.sources.len() implies sums.sources.terms.contains(
            #[trigger] parts.sources[k],
        ) by {
            assert(sums.sources.terms[earlier.sources.terms.len() + k] == parts.sources[k]);
        }
    } else {
        lemma_sums_keep(entities, horizon, t, i, n - 1);
        assert forall|k: int| 0 <= k < parts.sinks.len() implies sums.sinks.terms.contains(
            #[trigger] parts.sinks[k],
        ) by {
            let at = choose|at: int|
                0 <= at < earlier.sinks.terms.len() && earlier.sinks.terms[at] == parts.sinks[k];
            assert(sums.sinks.terms[at] == parts.sinks[k]);
        }
        assert forall|k: int| 0 <= k < parts.sources.len() implies sums.sources.terms.contains(
            #[trigger] parts.sources[k],
        ) by {
            let at = choose|at: int|
                0 <= at < earlier.sources.terms.len() && earlier.sources.terms[at]
                    == parts.sources[k];
            assert(sums.sources.terms[at] == parts.sources[k]);
        }
    }
}

/// The dispatch program is well formed exactly where no conversion of any
/// entity loses everything in the horizon: every term names one of the
/// variables, and the divisors are the efficiencies.
pub proof fn lemma_model_well_formed(entities: Seq<Entity>, horizon: int)
    requires
        0 <= horizon,
    ensures
        model_spec(entities, horizon).well_formed() <==> all_convert(entities, horizon),
{
    crate::builder::lemma_model_variable_count(entities, horizon);
    if all_convert(entities, horizon) {
        lemma_state_usable(entities, horizon, horizon, 0);
    } else {
        let (i, t) = choose|i: int, t: int|
            0 <= i < entities.len() && 0 <= t < horizon && !#[trigger] converts(entities[i], t);
        lemma_total_loss_is_malformed(entities, horizon, i, t);
    }
}

/// A conversion that loses everything leaves the program with a term that
/// divides by zero.
pub proof fn lemma_total_loss_is_malformed(entities: Seq<Entity>, horizon: int, i: int, t: int)
    requires
        0 <= i < entities.len(),
        0 <= t < horizon,
        !converts(entities[i], t),
    ensures
        !model_spec(entities, horizon).well_formed(),
{
    let n = entities.len() as int;
    let parts = contribution(
        entities[i],
        horizon,
        t,
        span(entities, i) as int,
        stride(entities) as int,
    );
    let sums = during(entities, horizon, t, n).1;
    let model = model_spec(entities, horizon);
    let count = model.vars.len() as int;
    lemma_sums_keep(entities, horizon, t, i, n);
    let drawn_for_nothing = match entities[i] {
        Entity::Consumer(c) => true,
        Entity::Storage(s) => s.eff_cons_at(t) == 0,
        _ => false,
    };
    if drawn_for_nothing {
        let row = closing_rows(sums)[2];
        lemma_holds_closing_row(entities, horizon, t, row);
        let j = choose|j: int| 0 <= j < model.constraints.len() && model.constraints[j] == row;
        assert(sums.sinks.terms.contains(parts.sinks[0]));
        let k = choose|k: int| 0 <= k < sums.sinks.terms.len() && sums.sinks.terms[k] == parts.sinks[0];
        assert(!usable(model.constraints[j].lhs.terms[k], count));
    } else {
        let row = closing_rows(sums)[1];
        lemma_holds_closing_row(entities, horizon, t, row);
        let j = choose|j: int| 0 <= j < model.constraints.len() && model.constraints[j] == row;
        assert(sums.sources.terms.contains(parts.sources[0]));
        let k = choose|k: int|
            0 <= k < sums.sources.terms.len() && sums.sources.terms[k] == parts.sources[0];
        assert(!usable(model.constraints[j].lhs.terms[k], count));
    }
}

} // verus!
