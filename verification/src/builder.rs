//! Builds the dispatch program of a list of entities over a horizon.
//!
//! The program is the fold, over the timesteps and inside each timestep over
//! the entities in list order, of what each entity contributes: its
//! variables, its own constraints, its terms of the objective, and its terms
//! of the sums that the timestep closes with (the balance of the node and the
//! two couplings between storages and grids).
use vstd::prelude::*;

use crate::layout::{entity_width, span, stride, stride_of, width, lemma_span_within_stride};
use crate::model::{
    constant_view, sum_view, term, Affine, AffineView, Constraint, ConstraintView, Model,
    ModelView, Relation, Term, TermView, VarKind,
};
use crate::{
    all_well_formed, Consumer, Entity, Grid, Producer, Storage, EFFICIENCY_SCALE, MAX_HORIZON,
};

verus! {

/// What one entity contributes to the program in one timestep.
pub struct Parts {
    /// Its decision variables.
    pub vars: Seq<VarKind>,
    /// The constraints that speak of this entity alone.
    pub rows: Seq<ConstraintView>,
    /// Its terms of the objective.
    pub cost: Seq<TermView>,
    /// Its net injection into the node.
    pub node: Seq<TermView>,
    /// What it draws, where it is a consumer or a charging storage.
    pub sinks: Seq<TermView>,
    /// What it gives, where it is a producer or a discharging storage.
    pub sources: Seq<TermView>,
    /// What it draws, where it is a storage that may not charge from a grid.
    pub locked_sinks: Seq<TermView>,
    /// What it gives, where it is a storage that may not discharge into a
    /// grid.
    pub locked_sources: Seq<TermView>,
}

/// The sums that a timestep closes with, as far as the entities visited have
/// filled them.
pub struct StepView {
    pub node: AffineView,
    pub sinks: AffineView,
    pub sources: AffineView,
    pub locked_sinks: AffineView,
    pub locked_sources: AffineView,
}

/// The sums that a timestep closes with.
#[derive(Debug)]
pub struct Step {
    pub node: Affine,
    pub sinks: Affine,
    pub sources: Affine,
    pub locked_sinks: Affine,
    pub locked_sources: Affine,
}

impl View for Step {
    type V = StepView;

    open spec fn view(&self) -> StepView {
        StepView {
            node: self.node@,
            sinks: self.sinks@,
            sources: self.sources@,
            locked_sinks: self.locked_sinks@,
            locked_sources: self.locked_sources@,
        }
    }
}

/// The efficiency of a lossless conversion.
pub open spec fn lossless() -> int {
    EFFICIENCY_SCALE as int
}

/// The variable alone, with coefficient one.
pub open spec fn only(var: int) -> AffineView {
    sum_view(seq![term(var, 1, 1, 1)])
}

/// The constraint `lhs relation rhs`.
pub open spec fn compare(lhs: AffineView, relation: Relation, rhs: AffineView) -> ConstraintView {
    ConstraintView { lhs, relation, rhs }
}

/// The utilisation `var` is full: a demand that must be met, or a producer
/// that may not be curtailed.
pub open spec fn pinned(var: int) -> ConstraintView {
    compare(only(var), Relation::Equal, constant_view(1))
}

/// The producing side `var` is idle unless the flag is set.
pub open spec fn covered(var: int, flag: int) -> ConstraintView {
    compare(only(var), Relation::AtMost, only(flag))
}

/// The consuming side `var` is idle where the flag is set.
pub open spec fn excluded(var: int, flag: int) -> ConstraintView {
    compare(
        only(var),
        Relation::AtMost,
        AffineView { terms: seq![term(flag, 1, -1, 1)], constant: 1 },
    )
}

/// What timestep `j` adds to the state of charge of a storage whose
/// variables stand at `offset` in each block of `stride` variables: the
/// charge that arrives, less the discharge that leaves.
pub open spec fn level_step(s: Storage, offset: int, stride: int, j: int) -> Seq<TermView> {
    seq![
        term(j * stride + offset, s.power_cons_at(j), s.eff_cons_at(j), lossless()),
        term(j * stride + offset + 1, s.power_prod_at(j), -1, 1),
    ]
}

/// What the first `n` timesteps add to the state of charge of a storage.
pub open spec fn level_terms(s: Storage, offset: int, stride: int, n: int) -> Seq<TermView>
    decreases n,
{
    if n <= 0 {
        Seq::empty()
    } else {
        level_terms(s, offset, stride, n - 1) + level_step(s, offset, stride, n - 1)
    }
}

/// The state of charge of a storage after timestep `t`.
pub open spec fn level(s: Storage, offset: int, stride: int, t: int) -> AffineView {
    AffineView { terms: level_terms(s, offset, stride, t + 1), constant: s.start_capacity as int }
}

/// What a consumer whose variable is `base` contributes at timestep `t`.
pub open spec fn consumer_parts(c: Consumer, t: int, base: int) -> Parts {
    Parts {
        vars: seq![VarKind::Fraction],
        rows: seq![pinned(base)],
        cost: seq![term(base, c.cost_cons_at(t), c.power_cons_at(t), 1)],
        node: seq![term(base, c.power_cons_at(t), -lossless(), c.eff_cons_at(t))],
        sinks: seq![term(base, c.power_cons_at(t), lossless(), c.eff_cons_at(t))],
        sources: Seq::empty(),
        locked_sinks: Seq::empty(),
        locked_sources: Seq::empty(),
    }
}

/// What a producer whose variable is `base` contributes at timestep `t`.
pub open spec fn producer_parts(p: Producer, t: int, base: int) -> Parts {
    Parts {
        vars: seq![VarKind::Fraction],
        rows: if p.can_be_disabled {
            Seq::empty()
        } else {
            seq![pinned(base)]
        },
        cost: seq![term(base, p.cost_prod_at(t), p.power_prod_at(t), 1)],
        node: seq![term(base, p.power_prod_at(t), p.eff_prod_at(t), lossless())],
        sinks: Seq::empty(),
        sources: seq![term(base, p.power_prod_at(t), lossless(), p.eff_prod_at(t))],
        locked_sinks: Seq::empty(),
        locked_sources: Seq::empty(),
    }
}

/// The constraints of a storage at timestep `t` of `horizon`: its two sides
/// exclude each other, its state of charge ends where it must, and stays
/// between empty and full.
pub open spec fn storage_rows(s: Storage, horizon: int, t: int, offset: int, stride: int) -> Seq<
    ConstraintView,
> {
    let base = t * stride + offset;
    let soc = level(s, offset, stride, t);
    let ends = if s.end_capacity is Some && t == horizon - 1 {
        seq![compare(soc, Relation::Equal, constant_view(s.end_capacity->Some_0 as int))]
    } else {
        Seq::empty()
    };
    seq![covered(base + 1, base + 2), excluded(base, base + 2)] + ends + seq![
        compare(soc, Relation::AtLeast, constant_view(0)),
        compare(soc, Relation::AtMost, constant_view(s.storage_capacity as int)),
    ]
}

/// What a storage contributes at timestep `t` of `horizon`. Its variables
/// stand at `offset` in each block of `stride` variables: the charging side,
/// the discharging side, the flag.
pub open spec fn storage_parts(s: Storage, horizon: int, t: int, offset: int, stride: int) -> Parts {
    let base = t * stride + offset;
    let drawn = term(base, s.power_cons_at(t), lossless(), s.eff_cons_at(t));
    let given = term(base + 1, s.power_prod_at(t), lossless(), s.eff_prod_at(t));
    Parts {
        vars: seq![VarKind::Fraction, VarKind::Fraction, VarKind::Binary],
        rows: storage_rows(s, horizon, t, offset, stride),
        cost: seq![
            term(base, s.cost_cons_at(t), s.power_cons_at(t), 1),
            term(base + 1, s.cost_prod_at(t), s.power_prod_at(t), 1),
        ],
        node: seq![
            term(base + 1, s.power_prod_at(t), s.eff_prod_at(t), lossless()),
            term(base, s.power_cons_at(t), -lossless(), s.eff_cons_at(t)),
        ],
        sinks: seq![drawn],
        sources: seq![given],
        locked_sinks: if s.grid_to_storage_allowed {
            Seq::empty()
        } else {
            seq![drawn]
        },
        locked_sources: if s.storage_to_grid_allowed {
            Seq::empty()
        } else {
            seq![given]
        },
    }
}

/// What a grid whose variables start at `base` contributes at timestep `t`:
/// the side that takes from the node, the side that feeds it, the flag.
pub open spec fn grid_parts(g: Grid, t: int, base: int) -> Parts {
    Parts {
        vars: seq![VarKind::Fraction, VarKind::Fraction, VarKind::Binary],
        rows: seq![covered(base + 1, base + 2), excluded(base, base + 2)],
        cost: seq![
            term(base, g.cost_cons_at(t), g.power_cons_at(t), 1),
            term(base + 1, g.cost_prod_at(t), g.power_prod_at(t), 1),
        ],
        node: seq![
            term(base + 1, g.power_prod_at(t), 1, 1),
            term(base, g.power_cons_at(t), -1, 1),
        ],
        sinks: Seq::empty(),
        sources: Seq::empty(),
        locked_sinks: Seq::empty(),
        locked_sources: Seq::empty(),
    }
}

/// What an entity contributes at timestep `t` of `horizon`, where its
/// variables stand at `offset` in each block of `stride` variables.
pub open spec fn contribution(e: Entity, horizon: int, t: int, offset: int, stride: int) -> Parts {
    match e {
        Entity::Consumer(c) => consumer_parts(c, t, t * stride + offset),
        Entity::Producer(p) => producer_parts(p, t, t * stride + offset),
        Entity::Storage(s) => storage_parts(s, horizon, t, offset, stride),
        Entity::Grid(g) => grid_parts(g, t, t * stride + offset),
    }
}

/// The expression with the terms of `e` followed by `more`.
pub open spec fn with_terms(e: AffineView, more: Seq<TermView>) -> AffineView {
    AffineView { terms: e.terms + more, ..e }
}

/// The program and the sums of the running timestep after one more entity.
pub open spec fn absorb(state: (ModelView, StepView), parts: Parts) -> (ModelView, StepView) {
    let (m, s) = state;
    (
        ModelView {
            vars: m.vars + parts.vars,
            constraints: m.constraints + parts.rows,
            objective: with_terms(m.objective, parts.cost),
        },
        StepView {
            node: with_terms(s.node, parts.node),
            sinks: with_terms(s.sinks, parts.sinks),
            sources: with_terms(s.sources, parts.sources),
            locked_sinks: with_terms(s.locked_sinks, parts.locked_sinks),
            locked_sources: with_terms(s.locked_sources, parts.locked_sources),
        },
    )
}

/// The constraints that close a timestep: the node is balanced, the sources
/// cover the storages that may not charge from a grid, and the sinks cover
/// the storages that may not discharge into one.
pub open spec fn closing_rows(s: StepView) -> Seq<ConstraintView> {
    seq![
        compare(s.node, Relation::Equal, constant_view(0)),
        compare(s.sources, Relation::AtLeast, s.locked_sinks),
        compare(s.sinks, Relation::AtLeast, s.locked_sources),
    ]
}

/// The program after a timestep has been closed.
pub open spec fn close(state: (ModelView, StepView)) -> ModelView {
    ModelView { constraints: state.0.constraints + closing_rows(state.1), ..state.0 }
}

/// The program without variables and constraints whose objective is zero.
pub open spec fn empty_model() -> ModelView {
    ModelView { vars: Seq::empty(), constraints: Seq::empty(), objective: constant_view(0) }
}

/// The sums of a timestep before any entity was visited.
pub open spec fn fresh_step() -> StepView {
    StepView {
        node: constant_view(0),
        sinks: constant_view(0),
        sources: constant_view(0),
        locked_sinks: constant_view(0),
        locked_sources: constant_view(0),
    }
}

/// The program and the sums of timestep `t` after the timesteps before `t`
/// have been closed and the first `n` entities have been visited in timestep
/// `t`.
pub open spec fn during(entities: Seq<Entity>, horizon: int, t: int, n: int) -> (
    ModelView,
    StepView,
)
    decreases t, n,
{
    if n > 0 {
        absorb(
            during(entities, horizon, t, n - 1),
            contribution(
                entities[n - 1],
                horizon,
                t,
                span(entities, n - 1) as int,
                stride(entities) as int,
            ),
        )
    } else if t > 0 {
        (close(during(entities, horizon, t - 1, entities.len() as int)), fresh_step())
    } else {
        (empty_model(), fresh_step())
    }
}

/// The dispatch program of the entities over `horizon` timesteps.
pub open spec fn model_spec(entities: Seq<Entity>, horizon: int) -> ModelView {
    during(entities, horizon, horizon, 0).0
}

/// A program can be built: the horizon has a timestep and no more than
/// `MAX_HORIZON`, every entity is well formed, and a `usize` can count the
/// variables.
pub open spec fn buildable(entities: Seq<Entity>, horizon: int) -> bool {
    &&& 0 < horizon <= MAX_HORIZON
    &&& all_well_formed(entities)
    &&& horizon * stride(entities) <= usize::MAX
}

/// Why no program was built.
#[derive(Debug, PartialEq, Eq)]
pub enum BuildError {
    /// The horizon has no timestep.
    NoTimesteps,
    /// The entity at this position has an empty profile or an efficiency out
    /// of range; no entity before it has.
    InvalidEntity(usize),
    /// The horizon has more than `MAX_HORIZON` timesteps, or the program
    /// would have more variables than a `usize` counts.
    TooLarge,
}

/// The reason `e` is the one for which no program is built from the entities
/// over `horizon` timesteps: the first that applies, in the order of the
/// variants.
pub open spec fn refused(entities: Seq<Entity>, horizon: int, e: BuildError) -> bool {
    match e {
        BuildError::NoTimesteps => horizon <= 0,
        BuildError::InvalidEntity(i) => {
            &&& horizon > 0
            &&& i < entities.len()
            &&& !entities[i as int].well_formed()
            &&& forall|k: int| 0 <= k < i ==> (#[trigger] entities[k]).well_formed()
        },
        BuildError::TooLarge => {
            &&& horizon > 0
            &&& all_well_formed(entities)
            &&& (horizon > MAX_HORIZON || horizon * stride(entities) > usize::MAX)
        },
    }
}

/// The number of variables that an entity contributes is its width.
pub proof fn lemma_contribution_width(e: Entity, horizon: int, t: int, offset: int, stride: int)
    ensures
        contribution(e, horizon, t, offset, stride).vars.len() == width(e),
{
}

/// After `t` timesteps and `n` more entities the program has the variables
/// of `t` blocks and of the first `n` entities of the next.
pub proof fn lemma_variable_count(entities: Seq<Entity>, horizon: int, t: int, n: int)
    requires
        0 <= t,
        0 <= n <= entities.len(),
    ensures
        during(entities, horizon, t, n).0.vars.len() == t * stride(entities) + span(entities, n),
    decreases t, n,
{
    let s = stride(entities) as int;
    if n > 0 {
        lemma_variable_count(entities, horizon, t, n - 1);
        let parts = contribution(entities[n - 1], horizon, t, span(entities, n - 1) as int, s);
        lemma_contribution_width(entities[n - 1], horizon, t, span(entities, n - 1) as int, s);
        assert(during(entities, horizon, t, n).0.vars == during(entities, horizon, t, n - 1).0.vars
            + parts.vars);
    } else if t > 0 {
        lemma_variable_count(entities, horizon, t - 1, entities.len() as int);
        assert(during(entities, horizon, t, 0).0.vars == during(
            entities,
            horizon,
            t - 1,
            entities.len() as int,
        ).0.vars);
        assert((t - 1) * s + s == t * s) by (nonlinear_arith);
    } else {
        assert(during(entities, horizon, 0, 0).0.vars.len() == 0);
        assert(0 * s == 0);
    }
}

/// The program over `horizon` timesteps has one block of variables for each
/// timestep.
pub proof fn lemma_model_variable_count(entities: Seq<Entity>, horizon: int)
    requires
        0 <= horizon,
    ensures
        model_spec(entities, horizon).vars.len() == horizon * stride(entities),
{
    lemma_variable_count(entities, horizon, horizon, 0);
}

/// A program and sums that have grown by the parts are what absorbing the
/// parts gives.
proof fn lemma_absorbed(m0: ModelView, s0: StepView, m1: ModelView, s1: StepView, parts: Parts)
    requires
        m1.vars =~= m0.vars + parts.vars,
        m1.constraints =~= m0.constraints + parts.rows,
        m1.objective.constant == m0.objective.constant,
        m1.objective.terms =~= m0.objective.terms + parts.cost,
        s1.node.constant == s0.node.constant,
        s1.node.terms =~= s0.node.terms + parts.node,
        s1.sinks.constant == s0.sinks.constant,
        s1.sinks.terms =~= s0.sinks.terms + parts.sinks,
        s1.sources.constant == s0.sources.constant,
        s1.sources.terms =~= s0.sources.terms + parts.sources,
        s1.locked_sinks.constant == s0.locked_sinks.constant,
        s1.locked_sinks.terms =~= s0.locked_sinks.terms + parts.locked_sinks,
        s1.locked_sources.constant == s0.locked_sources.constant,
        s1.locked_sources.terms =~= s0.locked_sources.terms + parts.locked_sources,
    ensures
        (m1, s1) == absorb((m0, s0), parts),
{
}

impl Step {
    /// The sums of a timestep before any entity was visited.
    pub fn new() -> (step: Self)
        ensures
            step@ == fresh_step(),
    {
        Step {
            node: Affine::constant(0),
            sinks: Affine::constant(0),
            sources: Affine::constant(0),
            locked_sinks: Affine::constant(0),
            locked_sources: Affine::constant(0),
        }
    }
}

/// The variable alone, with coefficient one.
fn alone(var: usize) -> (e: Affine)
    ensures
        e@ == only(var as int),
{
    let mut e = Affine::constant(0);
    e.push(Term { var, factor: 1, scale: 1, divisor: 1 });
    assert(e@.terms =~= seq![term(var as int, 1, 1, 1)]);
    e
}

/// The constraint `lhs relation rhs`.
fn row(lhs: Affine, relation: Relation, rhs: Affine) -> (c: Constraint)
    ensures
        c@ == compare(lhs@, relation, rhs@),
{
    Constraint { lhs, relation, rhs }
}

/// The producing side `var` is idle unless the flag is set.
fn cover(var: usize, flag: usize) -> (c: Constraint)
    ensures
        c@ == covered(var as int, flag as int),
{
    row(alone(var), Relation::AtMost, alone(flag))
}

/// The consuming side `var` is idle where the flag is set.
fn exclude(var: usize, flag: usize) -> (c: Constraint)
    ensures
        c@ == excluded(var as int, flag as int),
{
    let mut rhs = Affine::constant(1);
    rhs.push(Term { var: flag, factor: 1, scale: -1, divisor: 1 });
    assert(rhs@.terms =~= seq![term(flag as int, 1, -1, 1)]);
    row(alone(var), Relation::AtMost, rhs)
}

/// The state of charge of a storage after timestep `t`, where its variables
/// stand at `offset` in each block of `stride` variables.
pub fn level_of(storage: &Storage, t: usize, offset: usize, stride: usize) -> (e: Affine)
    requires
        storage.well_formed(),
        t < usize::MAX,
        t * stride + offset + 1 <= usize::MAX,
    ensures
        e@ == level(*storage, offset as int, stride as int, t as int),
{
    let mut e = Affine::constant(storage.start_capacity);
    let mut j: usize = 0;
    while j <= t
        invariant
            j <= t + 1,
            t < usize::MAX,
            storage.well_formed(),
            t * stride + offset + 1 <= usize::MAX,
            e@.constant == storage.start_capacity,
            e@.terms == level_terms(*storage, offset as int, stride as int, j as int),
        decreases t + 1 - j,
    {
        assert(j * stride <= t * stride) by (nonlinear_arith)
            requires
                j <= t,
        ;
        let charging: usize = j * stride + offset;
        e.push(
            Term {
                var: charging,
                factor: storage.get_power_cons(j),
                scale: storage.get_eff_cons(j) as i32,
                divisor: EFFICIENCY_SCALE as i32,
            },
        );
        e.push(
            Term { var: charging + 1, factor: storage.get_power_prod(j), scale: -1, divisor: 1 },
        );
        assert(e@.terms =~= level_terms(*storage, offset as int, stride as int, j as int)
            + level_step(*storage, offset as int, stride as int, j as int));
        j += 1;
    }
    e
}

/// Adds what a consumer contributes at timestep `t`.
fn visit_consumer(c: &Consumer, t: usize, base: usize, model: &mut Model, step: &mut Step)
    requires
        c.well_formed(),
    ensures
        (final(model)@, final(step)@) == absorb(
            (old(model)@, old(step)@),
            consumer_parts(*c, t as int, base as int),
        ),
{
    let power: i32 = c.get_power_cons(t);
    let eff: i32 = c.get_eff_cons(t) as i32;
    model.declare(VarKind::Fraction);
    model.constrain(row(alone(base), Relation::Equal, Affine::constant(1)));
    model.charge(Term { var: base, factor: c.get_cost_cons(t), scale: power, divisor: 1 });
    step.node.push(
        Term { var: base, factor: power, scale: -(EFFICIENCY_SCALE as i32), divisor: eff },
    );
    step.sinks.push(Term { var: base, factor: power, scale: EFFICIENCY_SCALE as i32, divisor: eff });
    proof {
        lemma_absorbed(
            old(model)@,
            old(step)@,
            model@,
            step@,
            consumer_parts(*c, t as int, base as int),
        );
    }
}

/// Adds what a producer contributes at timestep `t`.
fn visit_producer(p: &Producer, t: usize, base: usize, model: &mut Model, step: &mut Step)
    requires
        p.well_formed(),
    ensures
        (final(model)@, final(step)@) == absorb(
            (old(model)@, old(step)@),
            producer_parts(*p, t as int, base as int),
        ),
{
    let power: i32 = p.get_power_prod(t);
    let eff: i32 = p.get_eff_prod(t) as i32;
    model.declare(VarKind::Fraction);
    if !p.can_be_disabled {
        model.constrain(row(alone(base), Relation::Equal, Affine::constant(1)));
    }
    model.charge(Term { var: base, factor: p.get_cost_prod(t), scale: power, divisor: 1 });
    step.node.push(Term { var: base, factor: power, scale: eff, divisor: EFFICIENCY_SCALE as i32 });
    step.sources.push(
        Term { var: base, factor: power, scale: EFFICIENCY_SCALE as i32, divisor: eff },
    );
    proof {
        lemma_absorbed(
            old(model)@,
            old(step)@,
            model@,
            step@,
            producer_parts(*p, t as int, base as int),
        );
    }
}

/// Adds what a storage contributes at timestep `t` of `horizon`.
fn visit_storage(
    s: &Storage,
    horizon: usize,
    t: usize,
    offset: usize,
    stride: usize,
    model: &mut Model,
    step: &mut Step,
)
    requires
        s.well_formed(),
        t < horizon,
        t * stride + offset + 3 <= usize::MAX,
    ensures
        (final(model)@, final(step)@) == absorb(
            (old(model)@, old(step)@),
            storage_parts(*s, horizon as int, t as int, offset as int, stride as int),
        ),
{
    let base: usize = t * stride + offset;
    let drawn = Term {
        var: base,
        factor: s.get_power_cons(t),
        scale: EFFICIENCY_SCALE as i32,
        divisor: s.get_eff_cons(t) as i32,
    };
    let given = Term {
        var: base + 1,
        factor: s.get_power_prod(t),
        scale: EFFICIENCY_SCALE as i32,
        divisor: s.get_eff_prod(t) as i32,
    };
    model.declare(VarKind::Fraction);
    model.declare(VarKind::Fraction);
    model.declare(VarKind::Binary);
    model.constrain(cover(base + 1, base + 2));
    model.constrain(exclude(base, base + 2));
    step.sinks.push(drawn);
    step.sources.push(given);
    if !s.storage_to_grid_allowed {
        step.locked_sources.push(given);
    }
    if !s.grid_to_storage_allowed {
        step.locked_sinks.push(drawn);
    }
    match s.end_capacity {
        Some(end) => {
            if t == horizon - 1 {
                model.constrain(
                    row(level_of(s, t, offset, stride), Relation::Equal, Affine::constant(end)),
                );
            }
        },
        None => {},
    }
    model.constrain(row(level_of(s, t, offset, stride), Relation::AtLeast, Affine::constant(0)));
    model.constrain(
        row(
            level_of(s, t, offset, stride),
            Relation::AtMost,
            Affine::constant(s.storage_capacity),
        ),
    );
    step.node.push(
        Term {
            var: base + 1,
            factor: s.get_power_prod(t),
            scale: s.get_eff_prod(t) as i32,
            divisor: EFFICIENCY_SCALE as i32,
        },
    );
    step.node.push(
        Term {
            var: base,
            factor: s.get_power_cons(t),
            scale: -(EFFICIENCY_SCALE as i32),
            divisor: s.get_eff_cons(t) as i32,
        },
    );
    model.charge(
        Term { var: base, factor: s.get_cost_cons(t), scale: s.get_power_cons(t), divisor: 1 },
    );
    model.charge(
        Term { var: base + 1, factor: s.get_cost_prod(t), scale: s.get_power_prod(t), divisor: 1 },
    );
    proof {
        lemma_absorbed(
            old(model)@,
            old(step)@,
            model@,
            step@,
            storage_parts(*s, horizon as int, t as int, offset as int, stride as int),
        );
    }
}

/// Adds what a grid contributes at timestep `t`.
fn visit_grid(g: &Grid, t: usize, base: usize, model: &mut Model, step: &mut Step)
    requires
        g.well_formed(),
        base + 3 <= usize::MAX,
    ensures
        (final(model)@, final(step)@) == absorb(
            (old(model)@, old(step)@),
            grid_parts(*g, t as int, base as int),
        ),
{
    model.declare(VarKind::Fraction);
    model.declare(VarKind::Fraction);
    model.declare(VarKind::Binary);
    model.constrain(cover(base + 1, base + 2));
    model.constrain(exclude(base, base + 2));
    step.node.push(Term { var: base + 1, factor: g.get_power_prod(t), scale: 1, divisor: 1 });
    step.node.push(Term { var: base, factor: g.get_power_cons(t), scale: -1, divisor: 1 });
    model.charge(
        Term { var: base, factor: g.get_cost_cons(t), scale: g.get_power_cons(t), divisor: 1 },
    );
    model.charge(
        Term { var: base + 1, factor: g.get_cost_prod(t), scale: g.get_power_prod(t), divisor: 1 },
    );
    proof {
        lemma_absorbed(
            old(model)@,
            old(step)@,
            model@,
            step@,
            grid_parts(*g, t as int, base as int),
        );
    }
}

/// Adds what an entity contributes at timestep `t` of `horizon`: its
/// variables, its constraints, and its terms of the objective and of the sums
/// of the timestep.
fn visit(
    e: &Entity,
    horizon: usize,
    t: usize,
    offset: usize,
    stride: usize,
    model: &mut Model,
    step: &mut Step,
)
    requires
        e.well_formed(),
        t < horizon,
        t * stride + offset + width(*e) <= usize::MAX,
    ensures
        (final(model)@, final(step)@) == absorb(
            (old(model)@, old(step)@),
            contribution(*e, horizon as int, t as int, offset as int, stride as int),
        ),
{
    match e {
        Entity::Consumer(c) => visit_consumer(c, t, t * stride + offset, model, step),
        Entity::Producer(p) => visit_producer(p, t, t * stride + offset, model, step),
        Entity::Storage(s) => visit_storage(s, horizon, t, offset, stride, model, step),
        Entity::Grid(g) => visit_grid(g, t, t * stride + offset, model, step),
    }
}

/// Closes a timestep: adds the balance of the node and the two couplings
/// between storages and grids.
fn close_step(model: &mut Model, step: Step)
    ensures
        final(model)@ == close((old(model)@, step@)),
{
    let Step { node, sinks, sources, locked_sinks, locked_sources } = step;
    model.constrain(row(node, Relation::Equal, Affine::constant(0)));
    model.constrain(row(sources, Relation::AtLeast, locked_sinks));
    model.constrain(row(sinks, Relation::AtLeast, locked_sources));
    assert(model@.constraints =~= old(model)@.constraints + closing_rows(step@));
}

/// The position of the first entity that is not well formed, if there is one.
pub fn first_invalid(entities: &Vec<Entity>) -> (found: Option<usize>)
    ensures
        match found {
            Some(i) => {
                &&& i < entities@.len()
                &&& !entities@[i as int].well_formed()
                &&& forall|k: int| 0 <= k < i ==> (#[trigger] entities@[k]).well_formed()
            },
            None => all_well_formed(entities@),
        },
{
    let mut i: usize = 0;
    while i < entities.len()
        invariant
            i <= entities.len(),
            forall|k: int| 0 <= k < i ==> (#[trigger] entities@[k]).well_formed(),
        decreases entities.len() - i,
    {
        if !entities[i].is_well_formed() {
            return Some(i);
        }
        i += 1;
    }
    None
}

/// Builds the dispatch program of the entities over `timesteps` timesteps.
///
/// The variables of a timestep follow those of the timestep before, and
/// inside a timestep the variables of an entity follow those of the entity
/// before it in the list.
pub fn build_model(entities: &Vec<Entity>, timesteps: usize) -> (built: Result<Model, BuildError>)
    ensures
        match built {
            Ok(model) => {
                &&& buildable(entities@, timesteps as int)
                &&& model@ == model_spec(entities@, timesteps as int)
            },
            Err(e) => refused(entities@, timesteps as int, e),
        },
{
    if timesteps == 0 {
        return Err(BuildError::NoTimesteps);
    }
    match first_invalid(entities) {
        Some(i) => {
            return Err(BuildError::InvalidEntity(i));
        },
        None => {},
    }
    if timesteps > MAX_HORIZON {
        return Err(BuildError::TooLarge);
    }
    let block: usize = match stride_of(entities) {
        Some(block) => block,
        None => {
            assert(timesteps * stride(entities@) > usize::MAX) by (nonlinear_arith)
                requires
                    timesteps >= 1,
                    stride(entities@) > usize::MAX,
            ;
            return Err(BuildError::TooLarge);
        },
    };
    if timesteps.checked_mul(block).is_none() {
        return Err(BuildError::TooLarge);
    }
    let mut model = Model::new();
    let mut t: usize = 0;
    while t < timesteps
        invariant
            t <= timesteps,
            all_well_formed(entities@),
            block == stride(entities@),
            timesteps * block <= usize::MAX,
            model@ == during(entities@, timesteps as int, t as int, 0).0,
        decreases timesteps - t,
    {
        let mut step = Step::new();
        let mut offset: usize = 0;
        let mut i: usize = 0;
        while i < entities.len()
            invariant
                i <= entities.len(),
                t < timesteps,
                all_well_formed(entities@),
                block == stride(entities@),
                timesteps * block <= usize::MAX,
                offset == span(entities@, i as int),
                (model@, step@) == during(entities@, timesteps as int, t as int, i as int),
            decreases entities.len() - i,
        {
            let w: usize = entity_width(&entities[i]);
            proof {
                lemma_span_within_stride(entities@, i as int);
                assert(t * block + block <= timesteps * block) by (nonlinear_arith)
                    requires
                        t < timesteps,
                ;
            }
            visit(&entities[i], timesteps, t, offset, block, &mut model, &mut step);
            offset = offset + w;
            i += 1;
        }
        close_step(&mut model, step);
        t += 1;
    }
    Ok(model)
}

} // verus!
