//! Multi-period energy dispatch.
//!
//! A list of energy entities (consumers, producers, storages, grid connections)
//! and a horizon of `T` timesteps are turned into a mixed-integer linear
//! program whose solutions are economically optimal schedules, and a solution
//! is turned back into per-entity time series.
//!
//! # Units
//!
//! All quantities are exact integers.
//!
//! * Power, cost and stored energy are counted in a base unit that the caller
//!   chooses.
//! * An efficiency is counted in parts of [`EFFICIENCY_SCALE`]: the value
//!   `EFFICIENCY_SCALE` is a lossless conversion.
//! * A utilisation (the value of a decision variable) is counted in parts of
//!   [`UTILISATION_SCALE`]: the value `UTILISATION_SCALE` is full nameplate
//!   power.
//! * Every output series counts parts of [`OUTPUT_SCALE`] of the base unit, so
//!   that products of a utilisation, a power and an efficiency need no rounding.
//!
//! The solver works in floating point. What it returns for a utilisation is
//! read as the nearest part of `UTILISATION_SCALE`; everything that the
//! library computes from the readings is exact.
//!
//! # Modules
//!
//! * [`layout`]: where the variables of each entity and timestep stand.
//! * [`model`]: linear programs with exact coefficients, and their meaning.
//! * [`builder`]: the dispatch program of a list of entities.
//! * [`structure`]: what the dispatch program holds.
//! * [`backend`]: the solver.
//! * [`reading`]: from the numbers of the solver to utilisations.
//! * [`projector`]: from utilisations to the series of each entity.
//! * [`linprog`]: the dispatch as a whole.
//! * [`laws`]: what holds of every schedule that satisfies the program.
use vstd::prelude::*;

pub mod backend;
pub mod builder;
pub mod laws;
pub mod layout;
pub mod linprog;
pub mod model;
pub mod projector;
pub mod reading;
pub mod structure;

verus! {

/// The efficiency value that stands for a lossless conversion.
pub const EFFICIENCY_SCALE: u16 = 10_000;

/// The utilisation value that stands for full nameplate power.
pub const UTILISATION_SCALE: u32 = 1_000_000;

/// The number of output counts that make one base unit:
/// `UTILISATION_SCALE * EFFICIENCY_SCALE`.
pub const OUTPUT_SCALE: i128 = 10_000_000_000;

/// The greatest number of timesteps of a horizon. With no more timesteps
/// than this, a state of charge can be counted whatever the readings are.
pub const MAX_HORIZON: usize = 0xffff_ffff;

/// The value that a cyclic profile has at timestep `t`.
pub open spec fn wrapped<T>(profile: Seq<T>, t: int) -> T {
    profile[t % (profile.len() as int)]
}

/// Every efficiency of the profile lies between zero and a lossless
/// conversion.
pub open spec fn efficiencies_in_range(eff: Seq<u16>) -> bool {
    forall|i: int| 0 <= i < eff.len() ==> #[trigger] eff[i] <= EFFICIENCY_SCALE
}

/// Reads a cyclic profile at a timestep: the profile repeats after its last
/// entry.
pub fn lookup<T: Copy>(profile: &Vec<T>, timestep: usize) -> (value: T)
    requires
        profile.len() > 0,
    ensures
        value == wrapped(profile@, timestep as int),
{
    let index: usize = timestep % profile.len();
    profile[index]
}

/// Tells whether every efficiency of the profile is at most a lossless
/// conversion.
pub fn check_eff_vec(eff: &Vec<u16>) -> (ok: bool)
    ensures
        ok == efficiencies_in_range(eff@),
{
    let mut i: usize = 0;
    while i < eff.len()
        invariant
            i <= eff.len(),
            forall|k: int| 0 <= k < i ==> #[trigger] eff@[k] <= EFFICIENCY_SCALE,
        decreases eff.len() - i,
    {
        if eff[i] > EFFICIENCY_SCALE {
            return false;
        }
        i += 1;
    }
    true
}

/// A sink with a fixed demand profile that must be served exactly.
#[derive(Debug)]
pub struct Consumer {
    /// Demanded power per timestep.
    pub power_cons: Vec<i32>,
    /// Consumption efficiency per timestep.
    pub eff_cons: Vec<u16>,
    /// Cost per unit of demanded power per timestep.
    pub cost_cons: Vec<i32>,
    /// The name that tells the entity from the others.
    pub name: String,
    /// Power drawn per timestep, filled in from a solution.
    pub consumed: Vec<i128>,
    /// The kind of the entity, as a word.
    pub entity_type: String,
}

/// A source that runs at nameplate power unless it may be curtailed.
#[derive(Debug)]
pub struct Producer {
    /// The kind of the entity, as a word.
    pub entity_type: String,
    /// Whether the output may be scaled down from nameplate power.
    pub can_be_disabled: bool,
    /// Nameplate power per timestep.
    pub power_prod: Vec<i32>,
    /// Production efficiency per timestep.
    pub eff_prod: Vec<u16>,
    /// Cost per unit of produced power per timestep.
    pub cost_prod: Vec<i32>,
    /// The name that tells the entity from the others.
    pub name: String,
    /// Power produced per timestep, filled in from a solution.
    pub produced: Vec<i128>,
}

/// A store of energy with a discharging and a charging side.
#[derive(Debug)]
pub struct Storage {
    /// Discharging power per timestep.
    pub power_prod: Vec<i32>,
    /// Discharging efficiency per timestep.
    pub eff_prod: Vec<u16>,
    /// Cost per unit of discharged power per timestep.
    pub cost_prod: Vec<i32>,
    /// Charging power per timestep.
    pub power_cons: Vec<i32>,
    /// Charging efficiency per timestep.
    pub eff_cons: Vec<u16>,
    /// Cost per unit of charging power per timestep.
    pub cost_cons: Vec<i32>,
    /// Upper bound of the state of charge.
    pub storage_capacity: i32,
    /// State of charge before the first timestep.
    pub start_capacity: i32,
    /// State of charge that the last timestep must end with, if any.
    pub end_capacity: Option<i32>,
    /// Whether the storage may discharge into a grid.
    pub storage_to_grid_allowed: bool,
    /// Whether the storage may charge from a grid.
    pub grid_to_storage_allowed: bool,
    /// The name that tells the entity from the others.
    pub name: String,
    /// Delivered power per timestep, filled in from a solution.
    pub produced: Vec<i128>,
    /// Charging power per timestep, filled in from a solution.
    pub consumed: Vec<i128>,
    /// State of charge after each timestep, filled in from a solution.
    pub stored: Vec<i128>,
    /// The kind of the entity, as a word.
    pub entity_type: String,
}

/// A lossless connection that both takes power from the node and feeds power
/// into it.
#[derive(Debug)]
pub struct Grid {
    /// The name that tells the entity from the others.
    pub name: String,
    /// Power that the grid can feed into the node per timestep.
    pub power_prod: Vec<i32>,
    /// Cost per unit of power fed into the node per timestep.
    pub cost_prod: Vec<i32>,
    /// Power that the grid can take from the node per timestep.
    pub power_cons: Vec<i32>,
    /// Cost per unit of power taken from the node per timestep; a negative
    /// cost is a revenue.
    pub cost_cons: Vec<i32>,
    /// Power fed into the node per timestep, filled in from a solution.
    pub produced: Vec<i128>,
    /// Power taken from the node per timestep, filled in from a solution.
    pub consumed: Vec<i128>,
    /// The kind of the entity, as a word.
    pub entity_type: String,
}

/// One participant of the dispatch.
#[derive(Debug)]
pub enum Entity {
    Consumer(Consumer),
    Producer(Producer),
    Storage(Storage),
    Grid(Grid),
}

impl Consumer {
    /// The profiles can be read at every timestep and hold valid
    /// efficiencies.
    pub open spec fn well_formed(&self) -> bool {
        &&& self.power_cons@.len() > 0
        &&& self.eff_cons@.len() > 0
        &&& self.cost_cons@.len() > 0
        &&& efficiencies_in_range(self.eff_cons@)
    }

    /// The power that the consuming side runs at at timestep `t`.
    pub open spec fn power_cons_at(&self, t: int) -> int {
        wrapped(self.power_cons@, t) as int
    }

    /// The efficiency of the consuming side at timestep `t`.
    pub open spec fn eff_cons_at(&self, t: int) -> int {
        wrapped(self.eff_cons@, t) as int
    }

    /// The cost of a unit of consumed power at timestep `t`.
    pub open spec fn cost_cons_at(&self, t: int) -> int {
        wrapped(self.cost_cons@, t) as int
    }

    /// A consumer with these profiles, whose series is still empty.
    pub fn new(
        cost_cons: Vec<i32>,
        eff_cons: Vec<u16>,
        power_cons: Vec<i32>,
        name: String,
    ) -> (consumer: Self)
        requires
            efficiencies_in_range(eff_cons@),
        ensures
            consumer.power_cons == power_cons,
            consumer.eff_cons == eff_cons,
            consumer.cost_cons == cost_cons,
            consumer.name == name,
            consumer.consumed@.len() == 0,
            consumer.entity_type@ == "Consumer"@,
    {
        broadcast use vstd::string::group_string_axioms;

        Consumer {
            power_cons,
            eff_cons,
            name,
            cost_cons,
            consumed: Vec::new(),
            entity_type: "Consumer".to_string(),
        }
    }

    /// The power that the consuming side runs at at a timestep; the profile repeats after its last entry.
    pub fn get_power_cons(&self, timestep: usize) -> (power: i32)
        requires
            self.power_cons@.len() > 0,
        ensures
            power == self.power_cons_at(timestep as int),
    {
        lookup(&self.power_cons, timestep)
    }

    /// The efficiency of the consuming side at a timestep; the profile repeats after its last entry.
    pub fn get_eff_cons(&self, timestep: usize) -> (eff: u16)
        requires
            self.eff_cons@.len() > 0,
        ensures
            eff == self.eff_cons_at(timestep as int),
    {
        lookup(&self.eff_cons, timestep)
    }

    /// The cost of a unit of consumed power at a timestep; the profile repeats after its last entry.
    pub fn get_cost_cons(&self, timestep: usize) -> (cost: i32)
        requires
            self.cost_cons@.len() > 0,
        ensures
            cost == self.cost_cons_at(timestep as int),
    {
        lookup(&self.cost_cons, timestep)
    }
}

impl Producer {
    /// The profiles can be read at every timestep and hold valid
    /// efficiencies.
    pub open spec fn well_formed(&self) -> bool {
        &&& self.power_prod@.len() > 0
        &&& self.eff_prod@.len() > 0
        &&& self.cost_prod@.len() > 0
        &&& efficiencies_in_range(self.eff_prod@)
    }

    /// The power that the producing side runs at at timestep `t`.
    pub open spec fn power_prod_at(&self, t: int) -> int {
        wrapped(self.power_prod@, t) as int
    }

    /// The efficiency of the producing side at timestep `t`.
    pub open spec fn eff_prod_at(&self, t: int) -> int {
        wrapped(self.eff_prod@, t) as int
    }

    /// The cost of a unit of produced power at timestep `t`.
    pub open spec fn cost_prod_at(&self, t: int) -> int {
        wrapped(self.cost_prod@, t) as int
    }

    /// A producer with these profiles, whose series is still empty.
    pub fn new(
        cost_prod: Vec<i32>,
        eff_prod: Vec<u16>,
        power_prod: Vec<i32>,
        can_be_disabled: bool,
        name: String,
    ) -> (producer: Self)
        requires
            efficiencies_in_range(eff_prod@),
        ensures
            producer.power_prod == power_prod,
            producer.eff_prod == eff_prod,
            producer.cost_prod == cost_prod,
            producer.can_be_disabled == can_be_disabled,
            producer.name == name,
            producer.produced@.len() == 0,
            producer.entity_type@ == "Producer"@,
    {
        broadcast use vstd::string::group_string_axioms;

        Producer {
            power_prod,
            eff_prod,
            cost_prod,
            name,
            can_be_disabled,
            produced: Vec::new(),
            entity_type: "Producer".to_string(),
        }
    }

    /// The power that the producing side runs at at a timestep; the profile repeats after its last entry.
    pub fn get_power_prod(&self, timestep: usize) -> (power: i32)
        requires
            self.power_prod@.len() > 0,
        ensures
            power == self.power_prod_at(timestep as int),
    {
        lookup(&self.power_prod, timestep)
    }

    /// The efficiency of the producing side at a timestep; the profile repeats after its last entry.
    pub fn get_eff_prod(&self, timestep: usize) -> (eff: u16)
        requires
            self.eff_prod@.len() > 0,
        ensures
            eff == self.eff_prod_at(timestep as int),
    {
        lookup(&self.eff_prod, timestep)
    }

    /// The cost of a unit of produced power at a timestep; the profile repeats after its last entry.
    pub fn get_cost_prod(&self, timestep: usize) -> (cost: i32)
        requires
            self.cost_prod@.len() > 0,
        ensures
            cost == self.cost_prod_at(timestep as int),
    {
        lookup(&self.cost_prod, timestep)
    }
}

impl Storage {
    /// The profiles can be read at every timestep and hold valid
    /// efficiencies.
    pub open spec fn well_formed(&self) -> bool {
        &&& self.power_prod@.len() > 0
        &&& self.eff_prod@.len() > 0
        &&& self.cost_prod@.len() > 0
        &&& self.power_cons@.len() > 0
        &&& self.eff_cons@.len() > 0
        &&& self.cost_cons@.len() > 0
        &&& efficiencies_in_range(self.eff_prod@)
        &&& efficiencies_in_range(self.eff_cons@)
    }

    /// The power that the producing side runs at at timestep `t`.
    pub open spec fn power_prod_at(&self, t: int) -> int {
        wrapped(self.power_prod@, t) as int
    }

    /// The efficiency of the producing side at timestep `t`.
    pub open spec fn eff_prod_at(&self, t: int) -> int {
        wrapped(self.eff_prod@, t) as int
    }

    /// The cost of a unit of produced power at timestep `t`.
    pub open spec fn cost_prod_at(&self, t: int) -> int {
        wrapped(self.cost_prod@, t) as int
    }

    /// The power that the consuming side runs at at timestep `t`.
    pub open spec fn power_cons_at(&self, t: int) -> int {
        wrapped(self.power_cons@, t) as int
    }

    /// The efficiency of the consuming side at timestep `t`.
    pub open spec fn eff_cons_at(&self, t: int) -> int {
        wrapped(self.eff_cons@, t) as int
    }

    /// The cost of a unit of consumed power at timestep `t`.
    pub open spec fn cost_cons_at(&self, t: int) -> int {
        wrapped(self.cost_cons@, t) as int
    }

    /// A storage with these profiles whose final state of charge is free and
    /// whose series are still empty.
    pub fn new(
        cost_cons: Vec<i32>,
        eff_cons: Vec<u16>,
        power_cons: Vec<i32>,
        cost_prod: Vec<i32>,
        eff_prod: Vec<u16>,
        power_prod: Vec<i32>,
        storage_capacity: i32,
        start_capacity: i32,
        storage_to_grid_allowed: bool,
        grid_to_storage_allowed: bool,
        name: String,
    ) -> (storage: Self)
        requires
            efficiencies_in_range(eff_prod@),
            efficiencies_in_range(eff_cons@),
        ensures
            storage.cost_cons == cost_cons,
            storage.eff_cons == eff_cons,
            storage.power_cons == power_cons,
            storage.cost_prod == cost_prod,
            storage.eff_prod == eff_prod,
            storage.power_prod == power_prod,
            storage.storage_capacity == storage_capacity,
            storage.start_capacity == start_capacity,
            storage.end_capacity == None::<i32>,
            storage.storage_to_grid_allowed == storage_to_grid_allowed,
            storage.grid_to_storage_allowed == grid_to_storage_allowed,
            storage.name == name,
            storage.produced@.len() == 0,
            storage.consumed@.len() == 0,
            storage.stored@.len() == 0,
            storage.entity_type@ == "Storage"@,
    {
        broadcast use vstd::string::group_string_axioms;

        Storage {
            cost_cons,
            eff_cons,
            power_cons,
            cost_prod,
            eff_prod,
            power_prod,
            storage_capacity,
            start_capacity,
            end_capacity: None,
            storage_to_grid_allowed,
            grid_to_storage_allowed,
            name,
            produced: Vec::new(),
            consumed: Vec::new(),
            stored: Vec::new(),
            entity_type: "Storage".to_string(),
        }
    }

    /// The same storage with its final state of charge pinned to
    /// `end_capacity`.
    pub fn with_end_capacity(self, end_capacity: i32) -> (storage: Self)
        ensures
            storage == (Storage { end_capacity: Some(end_capacity), ..self }),
    {
        let mut storage = self;
        storage.end_capacity = Some(end_capacity);
        storage
    }

    /// The power that the producing side runs at at a timestep; the profile repeats after its last entry.
    pub fn get_power_prod(&self, timestep: usize) -> (power: i32)
        requires
            self.power_prod@.len() > 0,
        ensures
            power == self.power_prod_at(timestep as int),
    {
        lookup(&self.power_prod, timestep)
    }

    /// The efficiency of the producing side at a timestep; the profile repeats after its last entry.
    pub fn get_eff_prod(&self, timestep: usize) -> (eff: u16)
        requires
            self.eff_prod@.len() > 0,
        ensures
            eff == self.eff_prod_at(timestep as int),
    {
        lookup(&self.eff_prod, timestep)
    }

    /// The cost of a unit of produced power at a timestep; the profile repeats after its last entry.
    pub fn get_cost_prod(&self, timestep: usize) -> (cost: i32)
        requires
            self.cost_prod@.len() > 0,
        ensures
            cost == self.cost_prod_at(timestep as int),
    {
        lookup(&self.cost_prod, timestep)
    }

    /// The power that the consuming side runs at at a timestep; the profile repeats after its last entry.
    pub fn get_power_cons(&self, timestep: usize) -> (power: i32)
        requires
            self.power_cons@.len() > 0,
        ensures
            power == self.power_cons_at(timestep as int),
    {
        lookup(&self.power_cons, timestep)
    }

    /// The efficiency of the consuming side at a timestep; the profile repeats after its last entry.
    pub fn get_eff_cons(&self, timestep: usize) -> (eff: u16)
        requires
            self.eff_cons@.len() > 0,
        ensures
            eff == self.eff_cons_at(timestep as int),
    {
        lookup(&self.eff_cons, timestep)
    }

    /// The cost of a unit of consumed power at a timestep; the profile repeats after its last entry.
    pub fn get_cost_cons(&self, timestep: usize) -> (cost: i32)
        requires
            self.cost_cons@.len() > 0,
        ensures
            cost == self.cost_cons_at(timestep as int),
    {
        lookup(&self.cost_cons, timestep)
    }
}

impl Grid {
    /// The profiles can be read at every timestep.
    pub open spec fn well_formed(&self) -> bool {
        &&& self.power_prod@.len() > 0
        &&& self.cost_prod@.len() > 0
        &&& self.power_cons@.len() > 0
        &&& self.cost_cons@.len() > 0
    }

    /// The power that the producing side runs at at timestep `t`.
    pub open spec fn power_prod_at(&self, t: int) -> int {
        wrapped(self.power_prod@, t) as int
    }

    /// The cost of a unit of produced power at timestep `t`.
    pub open spec fn cost_prod_at(&self, t: int) -> int {
        wrapped(self.cost_prod@, t) as int
    }

    /// The power that the consuming side runs at at timestep `t`.
    pub open spec fn power_cons_at(&self, t: int) -> int {
        wrapped(self.power_cons@, t) as int
    }

    /// The cost of a unit of consumed power at timestep `t`.
    pub open spec fn cost_cons_at(&self, t: int) -> int {
        wrapped(self.cost_cons@, t) as int
    }

    /// A grid with these profiles, whose series are still empty.
    pub fn new(
        cost_cons: Vec<i32>,
        power_cons: Vec<i32>,
        cost_prod: Vec<i32>,
        power_prod: Vec<i32>,
        name: String,
    ) -> (grid: Self)
        ensures
            grid.cost_cons == cost_cons,
            grid.power_cons == power_cons,
            grid.cost_prod == cost_prod,
            grid.power_prod == power_prod,
            grid.name == name,
            grid.produced@.len() == 0,
            grid.consumed@.len() == 0,
            grid.entity_type@ == "Grid"@,
    {
        broadcast use vstd::string::group_string_axioms;

        Grid {
            name,
            cost_prod,
            power_prod,
            cost_cons,
            power_cons,
            produced: Vec::new(),
            consumed: Vec::new(),
            entity_type: "Grid".to_string(),
        }
    }

    /// The cost of a unit of produced power at a timestep; the profile repeats after its last entry.
    pub fn get_cost_prod(&self, timestep: usize) -> (cost: i32)
        requires
            self.cost_prod@.len() > 0,
        ensures
            cost == self.cost_prod_at(timestep as int),
    {
        lookup(&self.cost_prod, timestep)
    }

    /// The cost of a unit of consumed power at a timestep; the profile repeats after its last entry.
    pub fn get_cost_cons(&self, timestep: usize) -> (cost: i32)
        requires
            self.cost_cons@.len() > 0,
        ensures
            cost == self.cost_cons_at(timestep as int),
    {
        lookup(&self.cost_cons, timestep)
    }

    /// The power that the producing side runs at at a timestep; the profile repeats after its last entry.
    pub fn get_power_prod(&self, timestep: usize) -> (power: i32)
        requires
            self.power_prod@.len() > 0,
        ensures
            power == self.power_prod_at(timestep as int),
    {
        lookup(&self.power_prod, timestep)
    }

    /// The power that the consuming side runs at at a timestep; the profile repeats after its last entry.
    pub fn get_power_cons(&self, timestep: usize) -> (power: i32)
        requires
            self.power_cons@.len() > 0,
        ensures
            power == self.power_cons_at(timestep as int),
    {
        lookup(&self.power_cons, timestep)
    }
}

impl Entity {
    /// The entity's profiles can be read at every timestep and hold valid
    /// efficiencies.
    pub open spec fn well_formed(&self) -> bool {
        match self {
            Entity::Consumer(consumer) => consumer.well_formed(),
            Entity::Producer(producer) => producer.well_formed(),
            Entity::Storage(storage) => storage.well_formed(),
            Entity::Grid(grid) => grid.well_formed(),
        }
    }

    /// Tells whether a model can be built from the entity: no profile is
    /// empty and every efficiency is in range.
    pub fn is_well_formed(&self) -> (ok: bool)
        ensures
            ok == self.well_formed(),
    {
        match self {
            Entity::Consumer(consumer) => {
                consumer.power_cons.len() > 0 && consumer.eff_cons.len() > 0
                    && consumer.cost_cons.len() > 0 && check_eff_vec(&consumer.eff_cons)
            },
            Entity::Producer(producer) => {
                producer.power_prod.len() > 0 && producer.eff_prod.len() > 0
                    && producer.cost_prod.len() > 0 && check_eff_vec(&producer.eff_prod)
            },
            Entity::Storage(storage) => {
                storage.power_prod.len() > 0 && storage.eff_prod.len() > 0
                    && storage.cost_prod.len() > 0 && storage.power_cons.len() > 0
                    && storage.eff_cons.len() > 0 && storage.cost_cons.len() > 0
                    && check_eff_vec(&storage.eff_prod) && check_eff_vec(&storage.eff_cons)
            },
            Entity::Grid(grid) => {
                grid.power_prod.len() > 0 && grid.cost_prod.len() > 0 && grid.power_cons.len() > 0
                    && grid.cost_cons.len() > 0
            },
        }
    }
}

/// Every entity of the list is well formed.
pub open spec fn all_well_formed(entities: Seq<Entity>) -> bool {
    forall|i: int| 0 <= i < entities.len() ==> (#[trigger] entities[i]).well_formed()
}

} // verus!
