use optimization::backend::{run, SolverFailure};
use optimization::builder::{build_model, BuildError};
use optimization::linprog::{conclude, solve, SolveError};
use optimization::{Consumer, Entity, Grid, Producer, Storage, EFFICIENCY_SCALE, OUTPUT_SCALE};

fn grid(cost_cons: i32, cost_prod: i32, power: i32) -> Entity {
    Entity::Grid(Grid::new(
        vec![cost_cons],
        vec![power],
        vec![cost_prod],
        vec![power],
        "grid".to_string(),
    ))
}

fn consumer(power: Vec<i32>, eff: u16) -> Entity {
    Entity::Consumer(Consumer::new(vec![0], vec![eff], power, "consumer".to_string()))
}

fn units(values: &[i128]) -> Vec<i128> {
    values.iter().map(|v| v * OUTPUT_SCALE).collect()
}

/// A town: a grid, a lossy consumer, a storage that must end full, and a
/// cheap producer that may not be curtailed.
fn town() -> Vec<Entity> {
    vec![
        grid(-1, 5, 8),
        consumer(vec![3, 6], 7_500),
        Entity::Storage(
            Storage::new(
                vec![0],
                vec![5_000],
                vec![4],
                vec![0],
                vec![8_000],
                vec![5],
                10,
                4,
                true,
                true,
                "storage".to_string(),
            )
            .with_end_capacity(6),
        ),
        Entity::Producer(Producer::new(
            vec![1],
            vec![5_000],
            vec![2],
            false,
            "producer".to_string(),
        )),
    ]
}

/// What an entity injects into the node at a timestep, times its consuming
/// efficiency so that the sum stays an integer; all consuming efficiencies of
/// the town are powers of two times 1250, and 7500 * 5000 is a common
/// multiple.
fn injection_times(e: &Entity, t: usize, common: i128) -> i128 {
    match e {
        Entity::Consumer(c) => {
            -c.consumed[t] * 10_000 * (common / c.get_eff_cons(t) as i128)
        }
        Entity::Producer(p) => p.produced[t] * p.get_eff_prod(t) as i128 / 10_000 * common,
        Entity::Storage(s) => {
            s.produced[t] * common - s.consumed[t] * 10_000 * (common / s.get_eff_cons(t) as i128)
        }
        Entity::Grid(g) => (g.produced[t] - g.consumed[t]) * common,
    }
}

#[test]
fn solve_refuses_a_horizon_without_timesteps() {
    let result = solve(vec![grid(0, 0, 1)], 0);
    assert_eq!(result.err(), Some(SolveError::Model(BuildError::NoTimesteps)));
}

#[test]
fn solve_refuses_an_empty_profile() {
    let empty = Entity::Consumer(Consumer::new(vec![0], vec![], vec![1], "c".to_string()));
    let result = solve(vec![grid(0, 0, 1), empty], 4);
    assert_eq!(result.err(), Some(SolveError::Model(BuildError::InvalidEntity(1))));
}

#[test]
fn solve_refuses_an_efficiency_out_of_range() {
    let mut producer = Producer::new(vec![0], vec![1], vec![1], true, "p".to_string());
    producer.eff_prod = vec![10_001];
    let result = solve(vec![Entity::Producer(producer), grid(0, 0, 1)], 4);
    assert_eq!(result.err(), Some(SolveError::Model(BuildError::InvalidEntity(0))));
}

#[test]
fn solve_refuses_more_variables_than_can_be_counted() {
    let result = solve(vec![grid(0, 0, 1)], usize::MAX);
    assert_eq!(result.err(), Some(SolveError::Model(BuildError::TooLarge)));
}

#[test]
fn solve_reports_a_demand_that_nothing_can_serve() {
    let result = solve(vec![consumer(vec![1], EFFICIENCY_SCALE)], 2);
    assert_eq!(result.err(), Some(SolveError::Solver(SolverFailure::Infeasible)));
}

#[test]
fn solve_reports_a_grid_that_is_too_small() {
    let result = solve(vec![grid(0, 0, 1), consumer(vec![0, 2], EFFICIENCY_SCALE)], 2);
    assert_eq!(result.err(), Some(SolveError::Solver(SolverFailure::Infeasible)));
}

#[test]
fn solve_refuses_a_conversion_that_loses_everything() {
    let malformed = Some(SolveError::Solver(SolverFailure::Malformed));
    let result = solve(vec![grid(0, 0, 1), consumer(vec![1], 0)], 2);
    assert_eq!(result.err(), malformed);
    let idle = Entity::Producer(Producer::new(vec![0], vec![0], vec![1], true, "p".to_string()));
    assert_eq!(solve(vec![grid(0, 0, 1), idle], 2).err(), malformed);
    let leaky = |eff_cons: u16, eff_prod: Vec<u16>| {
        Entity::Storage(Storage::new(
            vec![0],
            vec![eff_cons],
            vec![1],
            vec![0],
            eff_prod,
            vec![1],
            10,
            5,
            true,
            true,
            "s".to_string(),
        ))
    };
    assert_eq!(solve(vec![grid(0, 0, 1), leaky(0, vec![1])], 2).err(), malformed);
    assert_eq!(solve(vec![grid(0, 0, 1), leaky(1, vec![1, 1, 0])], 3).err(), malformed);
    // The efficiency that is zero is not read in a horizon of two timesteps.
    assert!(solve(vec![grid(0, 0, 1), leaky(1, vec![1, 1, 0])], 2).is_ok());
}

#[test]
fn solve_of_no_entities_returns_no_entities() {
    assert_eq!(solve(vec![], 3).unwrap().len(), 0);
}

#[test]
fn conclude_hands_on_the_failure_of_the_solver() {
    let result = conclude(vec![grid(0, 0, 1)], 1, Err(SolverFailure::Unbounded));
    assert_eq!(result.err(), Some(SolveError::Solver(SolverFailure::Unbounded)));
    let result = conclude(vec![], 1, Err(SolverFailure::Other("stalled".to_string())));
    assert_eq!(
        result.err(),
        Some(SolveError::Solver(SolverFailure::Other("stalled".to_string())))
    );
}

#[test]
fn conclude_refuses_a_value_that_is_no_utilisation() {
    let bits = vec![0.5f64.to_bits(), f64::NAN.to_bits(), 0];
    let result = conclude(vec![grid(0, 0, 1)], 1, Ok(bits));
    assert_eq!(result.err(), Some(SolveError::Numerical));
    let bits = vec![0.5f64.to_bits(), 1.5f64.to_bits(), 0];
    let result = conclude(vec![grid(0, 0, 1)], 1, Ok(bits));
    assert_eq!(result.err(), Some(SolveError::Numerical));
}

#[test]
fn conclude_fills_in_the_series_from_the_values() {
    let bits = vec![0.25f64.to_bits(), 0.5f64.to_bits(), 0, 1.0f64.to_bits(), 0, 0];
    let out = conclude(vec![grid(0, 0, 8)], 2, Ok(bits)).unwrap();
    let Entity::Grid(g) = &out[0] else { panic!("Expected Grid") };
    assert_eq!(g.consumed, units(&[2, 8]));
    assert_eq!(g.produced, units(&[4, 0]));
}

#[test]
fn run_of_a_built_program_leaves_the_flags_unread() {
    let entities = vec![grid(0, 0, 1), consumer(vec![1], EFFICIENCY_SCALE)];
    let model = build_model(&entities, 2).unwrap();
    let bits = run(&model).unwrap();
    assert_eq!(bits.len(), 8);
    assert_eq!(bits[2], 0);
    assert_eq!(bits[6], 0);
    let values: Vec<f64> = bits.iter().map(|b| f64::from_bits(*b)).collect();
    assert!((values[1] - 1.0).abs() < 1e-6);
    assert!((values[3] - 1.0).abs() < 1e-6);
}

#[test]
fn a_lossy_consumer_draws_more_from_the_grid() {
    // Three units at three quarters efficiency take four from a grid of eight.
    let out = solve(vec![grid(0, 1, 8), consumer(vec![3], 7_500)], 2).unwrap();
    let Entity::Grid(g) = &out[0] else { panic!("Expected Grid") };
    let Entity::Consumer(c) = &out[1] else { panic!("Expected Consumer") };
    assert_eq!(c.consumed, units(&[3, 3]));
    assert_eq!(g.produced, units(&[4, 4]));
    assert_eq!(g.consumed, units(&[0, 0]));
}

#[test]
fn a_producer_that_may_not_be_curtailed_runs_at_nameplate() {
    // The producer gives one unit after its loss; the grid takes it.
    let producer =
        Entity::Producer(Producer::new(vec![9], vec![5_000], vec![2], false, "p".to_string()));
    let out = solve(vec![grid(0, 0, 8), producer], 3).unwrap();
    let Entity::Grid(g) = &out[0] else { panic!("Expected Grid") };
    let Entity::Producer(p) = &out[1] else { panic!("Expected Producer") };
    assert_eq!(p.produced, units(&[2, 2, 2]));
    assert_eq!(g.consumed, units(&[1, 1, 1]));
}

#[test]
fn a_storage_ends_with_the_state_of_charge_that_is_set() {
    // Two timesteps to get from 4 to 6 at one unit per timestep.
    let storage = Storage::new(
        vec![0],
        vec![5_000],
        vec![2],
        vec![0],
        vec![EFFICIENCY_SCALE],
        vec![2],
        10,
        4,
        true,
        true,
        "storage".to_string(),
    )
    .with_end_capacity(6);
    let out = solve(vec![grid(0, 1, 8), Entity::Storage(storage)], 2).unwrap();
    let Entity::Storage(s) = &out[1] else { panic!("Expected Storage") };
    let Entity::Grid(g) = &out[0] else { panic!("Expected Grid") };
    assert_eq!(s.stored, units(&[5, 6]));
    assert_eq!(s.consumed, units(&[2, 2]));
    assert_eq!(s.produced, units(&[0, 0]));
    assert_eq!(g.produced, units(&[4, 4]));
}

#[test]
fn the_town_keeps_every_invariant() {
    let timesteps = 4;
    let out = solve(town(), timesteps).unwrap();
    assert_eq!(out.len(), 4);
    let Entity::Grid(g) = &out[0] else { panic!("Expected Grid") };
    let Entity::Consumer(c) = &out[1] else { panic!("Expected Consumer") };
    let Entity::Storage(s) = &out[2] else { panic!("Expected Storage") };
    let Entity::Producer(p) = &out[3] else { panic!("Expected Producer") };
    for series in [&g.consumed, &g.produced, &c.consumed, &s.consumed, &s.produced, &s.stored, &p.produced] {
        assert_eq!(series.len(), timesteps);
    }
    // Demand met, and nameplate output.
    assert_eq!(c.consumed, units(&[3, 6, 3, 6]));
    assert_eq!(p.produced, units(&[2, 2, 2, 2]));
    for t in 0..timesteps {
        // The state of charge stays between empty and full.
        assert!(0 <= s.stored[t] && s.stored[t] <= 10 * OUTPUT_SCALE);
        // One side of the storage and of the grid is idle.
        assert_eq!(s.consumed[t] * s.produced[t], 0);
        assert_eq!(g.consumed[t] * g.produced[t], 0);
        // The node is balanced.
        let common = 7_500 * 5_000;
        let sum: i128 = out.iter().map(|e| injection_times(e, t, common)).sum();
        assert_eq!(sum, 0, "timestep {}", t);
    }
    // The final state of charge.
    assert_eq!(s.stored[timesteps - 1], 6 * OUTPUT_SCALE);
}

#[test]
fn the_same_input_gives_the_same_series() {
    let first = solve(town(), 4).unwrap();
    let second = solve(town(), 4).unwrap();
    for (a, b) in first.iter().zip(second.iter()) {
        match (a, b) {
            (Entity::Grid(x), Entity::Grid(y)) => {
                assert_eq!(x.consumed, y.consumed);
                assert_eq!(x.produced, y.produced);
            }
            (Entity::Consumer(x), Entity::Consumer(y)) => assert_eq!(x.consumed, y.consumed),
            (Entity::Producer(x), Entity::Producer(y)) => assert_eq!(x.produced, y.produced),
            (Entity::Storage(x), Entity::Storage(y)) => {
                assert_eq!(x.consumed, y.consumed);
                assert_eq!(x.produced, y.produced);
                assert_eq!(x.stored, y.stored);
            }
            _ => panic!("the order of the entities changed"),
        }
    }
}

#[test]
fn the_order_and_the_inputs_of_the_entities_are_kept() {
    let out = solve(town(), 4).unwrap();
    let Entity::Grid(g) = &out[0] else { panic!("Expected Grid") };
    let Entity::Consumer(c) = &out[1] else { panic!("Expected Consumer") };
    let Entity::Storage(s) = &out[2] else { panic!("Expected Storage") };
    let Entity::Producer(p) = &out[3] else { panic!("Expected Producer") };
    assert_eq!((g.name.as_str(), g.cost_cons.clone(), g.power_prod.clone()), ("grid", vec![-1], vec![8]));
    assert_eq!((c.name.as_str(), c.power_cons.clone(), c.eff_cons.clone()), ("consumer", vec![3, 6], vec![7_500]));
    assert_eq!((s.name.as_str(), s.end_capacity, s.start_capacity), ("storage", Some(6), 4));
    assert_eq!((p.name.as_str(), p.can_be_disabled, p.eff_prod.clone()), ("producer", false, vec![5_000]));
}

#[test]
fn profile_wrapping() {
    let out = solve(vec![grid(0, 0, 1), consumer(vec![0, 1], EFFICIENCY_SCALE)], 4).unwrap();
    let Entity::Consumer(c) = &out[1] else { panic!("Expected Consumer") };
    assert_eq!(c.consumed, units(&[0, 1, 0, 1]));
}
