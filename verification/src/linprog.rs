//! The dispatch of a list of entities over a horizon: build the program,
//! have it solved, and fill in the series of each entity.
use vstd::prelude::*;

use crate::backend::{run, SolverFailure};
use crate::builder::{
    build_model, buildable, lemma_model_variable_count, model_spec, refused, BuildError,
};
use crate::layout::stride;
use crate::model::VarKind;
use crate::projector::{project, projection};
use crate::reading::{readings, readings_of};
use crate::structure::{all_convert, lemma_model_well_formed};
use crate::{all_well_formed, Entity, MAX_HORIZON};

verus! {

/// Why a dispatch has no result.
#[derive(Debug, PartialEq, Eq)]
pub enum SolveError {
    /// No program could be built from the input.
    Model(BuildError),
    /// The solver found no solution.
    Solver(SolverFailure),
    /// The solver gave a variable a value that is no utilisation: not a
    /// number, or a number whose nearest count is below zero or above full
    /// utilisation.
    Numerical,
}

/// What may come back for the program of the entities over `horizon`
/// timesteps. Where a conversion of an entity loses everything, the program
/// divides by zero and is refused as malformed. Otherwise the solver decides:
/// a failure of its own, or one value for each variable, with zero for each
/// flag.
pub open spec fn answers(
    entities: Seq<Entity>,
    horizon: int,
    outcome: Result<Vec<u64>, SolverFailure>,
) -> bool {
    match outcome {
        Ok(bits) => {
            &&& all_convert(entities, horizon)
            &&& bits@.len() == horizon * stride(entities)
            &&& forall|i: int|
                0 <= i < bits@.len() && model_spec(entities, horizon).vars[i] == VarKind::Binary
                    ==> #[trigger] bits@[i] == 0
        },
        Err(failure) => failure is Malformed <==> !all_convert(entities, horizon),
    }
}

/// `result` is what the dispatch of the entities over `horizon` timesteps
/// comes to where the solver hands back `outcome`: the failure of the
/// solver; or that a value is no utilisation; or the entities, in their
/// order, with their series filled in from the readings of the values.
pub open spec fn concluded(
    entities: Seq<Entity>,
    horizon: int,
    outcome: Result<Vec<u64>, SolverFailure>,
    result: Result<Vec<Entity>, SolveError>,
) -> bool {
    match outcome {
        Err(failure) => result matches Err(SolveError::Solver(f)) && f == failure,
        Ok(bits) => match readings_of(bits@) {
            None => result matches Err(SolveError::Numerical),
            Some(a) => result matches Ok(out) && projection(entities, out@, a, horizon),
        },
    }
}

/// Turns what the solver handed back into the result of the dispatch.
pub fn conclude(
    entities: Vec<Entity>,
    timesteps: usize,
    outcome: Result<Vec<u64>, SolverFailure>,
) -> (result: Result<Vec<Entity>, SolveError>)
    requires
        1 <= timesteps <= MAX_HORIZON,
        all_well_formed(entities@),
        outcome matches Ok(bits) ==> bits@.len() == timesteps * stride(entities@),
    ensures
        concluded(entities@, timesteps as int, outcome, result),
{
    match outcome {
        Err(failure) => Err(SolveError::Solver(failure)),
        Ok(bits) => match readings(&bits) {
            None => Err(SolveError::Numerical),
            Some(values) => Ok(project(entities, timesteps, &values)),
        },
    }
}

/// Computes a schedule of least cost for the entities over `timesteps`
/// timesteps and fills in the series of each entity.
///
/// An input from which no program can be built is refused with the reason.
/// For any other input the program of [`model_spec`] goes to the solver, and
/// the result is what [`concluded`] makes of the solver's answer.
pub fn solve(entities: Vec<Entity>, timesteps: usize) -> (result: Result<Vec<Entity>, SolveError>)
    ensures
        match result {
            Err(SolveError::Model(e)) => refused(entities@, timesteps as int, e),
            _ => {
                &&& buildable(entities@, timesteps as int)
                &&& exists|outcome: Result<Vec<u64>, SolverFailure>|
                    answers(entities@, timesteps as int, outcome) && concluded(
                        entities@,
                        timesteps as int,
                        outcome,
                        result,
                    )
            },
        },
{
    let model = match build_model(&entities, timesteps) {
        Ok(model) => model,
        Err(e) => {
            return Err(SolveError::Model(e));
        },
    };
    let outcome = run(&model);
    proof {
        lemma_model_variable_count(entities@, timesteps as int);
        lemma_model_well_formed(entities@, timesteps as int);
    }
    let ghost handed = outcome;
    let result = conclude(entities, timesteps, outcome);
    assert(answers(entities@, timesteps as int, handed) && concluded(
        entities@,
        timesteps as int,
        handed,
        result,
    ));
    result
}

} // verus!
