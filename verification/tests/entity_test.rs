use optimization::layout::{entity_width, stride_of};
use optimization::{
    check_eff_vec, lookup, Consumer, Entity, Grid, Producer, Storage, EFFICIENCY_SCALE,
    OUTPUT_SCALE, UTILISATION_SCALE,
};

fn storage() -> Storage {
    Storage::new(
        vec![1, 2],
        vec![9_000, 8_000, 7_000],
        vec![3],
        vec![4, 5],
        vec![EFFICIENCY_SCALE],
        vec![6, 7, 8, 9],
        50,
        10,
        true,
        false,
        "battery".to_string(),
    )
}

#[test]
fn scales_multiply_to_the_output_scale() {
    assert_eq!(OUTPUT_SCALE, UTILISATION_SCALE as i128 * EFFICIENCY_SCALE as i128);
    assert_eq!(UTILISATION_SCALE, 1_000_000);
    assert_eq!(EFFICIENCY_SCALE, 10_000);
}

#[test]
fn lookup_wraps_around_the_profile() {
    let profile = vec![10, 20, 30];
    let read: Vec<i32> = (0..7).map(|t| lookup(&profile, t)).collect();
    assert_eq!(read, vec![10, 20, 30, 10, 20, 30, 10]);
}

#[test]
fn lookup_of_a_single_entry_is_constant() {
    let profile = vec![42u16];
    assert_eq!(lookup(&profile, 0), 42);
    assert_eq!(lookup(&profile, 1_000_003), 42);
    assert_eq!(lookup(&profile, usize::MAX), 42);
}

#[test]
fn check_eff_vec_accepts_zero_to_lossless() {
    assert!(check_eff_vec(&vec![]));
    assert!(check_eff_vec(&vec![0, 1, 5_000, EFFICIENCY_SCALE]));
}

#[test]
fn check_eff_vec_refuses_more_than_lossless() {
    assert!(!check_eff_vec(&vec![EFFICIENCY_SCALE + 1]));
    assert!(!check_eff_vec(&vec![1, 2, u16::MAX, 3]));
}

#[test]
fn consumer_new_keeps_its_profiles() {
    let consumer = Consumer::new(vec![1, 2], vec![9_000], vec![3, 4, 5], "load".to_string());
    assert_eq!(consumer.cost_cons, vec![1, 2]);
    assert_eq!(consumer.eff_cons, vec![9_000]);
    assert_eq!(consumer.power_cons, vec![3, 4, 5]);
    assert_eq!(consumer.name, "load");
    assert_eq!(consumer.entity_type, "Consumer");
    assert!(consumer.consumed.is_empty());
}

#[test]
fn consumer_getters_wrap() {
    let consumer = Consumer::new(vec![1, 2], vec![9_000], vec![3, 4, 5], "load".to_string());
    assert_eq!(consumer.get_cost_cons(3), 2);
    assert_eq!(consumer.get_eff_cons(17), 9_000);
    assert_eq!(consumer.get_power_cons(4), 4);
    assert_eq!(consumer.get_power_cons(5), 5);
    assert_eq!(consumer.get_power_cons(6), 3);
}

#[test]
fn producer_new_keeps_its_profiles() {
    let producer =
        Producer::new(vec![1], vec![2, 3], vec![4, 5, 6], false, "plant".to_string());
    assert_eq!(producer.cost_prod, vec![1]);
    assert_eq!(producer.eff_prod, vec![2, 3]);
    assert_eq!(producer.power_prod, vec![4, 5, 6]);
    assert_eq!(producer.can_be_disabled, false);
    assert_eq!(producer.name, "plant");
    assert_eq!(producer.entity_type, "Producer");
    assert!(producer.produced.is_empty());
}

#[test]
fn producer_getters_wrap() {
    let producer = Producer::new(vec![1], vec![2, 3], vec![4, 5, 6], true, "plant".to_string());
    assert_eq!(producer.get_cost_prod(9), 1);
    assert_eq!(producer.get_eff_prod(3), 3);
    assert_eq!(producer.get_power_prod(7), 5);
}

#[test]
fn storage_new_keeps_its_inputs() {
    let s = storage();
    assert_eq!(s.cost_cons, vec![1, 2]);
    assert_eq!(s.eff_cons, vec![9_000, 8_000, 7_000]);
    assert_eq!(s.power_cons, vec![3]);
    assert_eq!(s.cost_prod, vec![4, 5]);
    assert_eq!(s.eff_prod, vec![EFFICIENCY_SCALE]);
    assert_eq!(s.power_prod, vec![6, 7, 8, 9]);
    assert_eq!(s.storage_capacity, 50);
    assert_eq!(s.start_capacity, 10);
    assert_eq!(s.end_capacity, None);
    assert_eq!(s.storage_to_grid_allowed, true);
    assert_eq!(s.grid_to_storage_allowed, false);
    assert_eq!(s.name, "battery");
    assert_eq!(s.entity_type, "Storage");
    assert!(s.produced.is_empty() && s.consumed.is_empty() && s.stored.is_empty());
}

#[test]
fn storage_with_end_capacity_changes_nothing_else() {
    let s = storage().with_end_capacity(25);
    assert_eq!(s.end_capacity, Some(25));
    assert_eq!(s.start_capacity, 10);
    assert_eq!(s.storage_capacity, 50);
    assert_eq!(s.power_prod, vec![6, 7, 8, 9]);
    assert_eq!(s.name, "battery");
}

#[test]
fn storage_getters_wrap() {
    let s = storage();
    assert_eq!(s.get_cost_cons(5), 2);
    assert_eq!(s.get_eff_cons(5), 7_000);
    assert_eq!(s.get_power_cons(5), 3);
    assert_eq!(s.get_cost_prod(5), 5);
    assert_eq!(s.get_eff_prod(5), EFFICIENCY_SCALE);
    assert_eq!(s.get_power_prod(5), 7);
}

#[test]
fn grid_new_keeps_its_profiles() {
    let grid = Grid::new(vec![-1], vec![2, 3], vec![4], vec![5, 6, 7], "mains".to_string());
    assert_eq!(grid.cost_cons, vec![-1]);
    assert_eq!(grid.power_cons, vec![2, 3]);
    assert_eq!(grid.cost_prod, vec![4]);
    assert_eq!(grid.power_prod, vec![5, 6, 7]);
    assert_eq!(grid.name, "mains");
    assert_eq!(grid.entity_type, "Grid");
    assert!(grid.produced.is_empty() && grid.consumed.is_empty());
}

#[test]
fn grid_getters_wrap() {
    let grid = Grid::new(vec![-1], vec![2, 3], vec![4], vec![5, 6, 7], "mains".to_string());
    assert_eq!(grid.get_cost_cons(2), -1);
    assert_eq!(grid.get_power_cons(3), 3);
    assert_eq!(grid.get_cost_prod(8), 4);
    assert_eq!(grid.get_power_prod(4), 6);
}

#[test]
fn well_formed_entities_are_recognised() {
    assert!(Entity::Storage(storage()).is_well_formed());
    assert!(Entity::Grid(Grid::new(vec![0], vec![1], vec![0], vec![1], "g".to_string()))
        .is_well_formed());
    assert!(Entity::Consumer(Consumer::new(vec![0], vec![0], vec![1], "c".to_string()))
        .is_well_formed());
}

#[test]
fn an_empty_profile_is_not_well_formed() {
    let consumer = Consumer::new(vec![0], vec![EFFICIENCY_SCALE], vec![], "c".to_string());
    assert!(!Entity::Consumer(consumer).is_well_formed());
    let grid = Grid::new(vec![0], vec![1], vec![], vec![1], "g".to_string());
    assert!(!Entity::Grid(grid).is_well_formed());
    let producer = Producer::new(vec![0], vec![], vec![1], true, "p".to_string());
    assert!(!Entity::Producer(producer).is_well_formed());
}

#[test]
fn an_efficiency_out_of_range_is_not_well_formed() {
    let mut s = storage();
    s.eff_prod = vec![EFFICIENCY_SCALE, EFFICIENCY_SCALE + 1];
    assert!(!Entity::Storage(s).is_well_formed());
    let mut consumer = Consumer::new(vec![0], vec![1], vec![1], "c".to_string());
    consumer.eff_cons = vec![20_000];
    assert!(!Entity::Consumer(consumer).is_well_formed());
}

#[test]
fn widths_follow_the_kind_of_entity() {
    let consumer = Entity::Consumer(Consumer::new(vec![0], vec![1], vec![1], "c".to_string()));
    let producer =
        Entity::Producer(Producer::new(vec![0], vec![1], vec![1], true, "p".to_string()));
    let grid = Entity::Grid(Grid::new(vec![0], vec![1], vec![0], vec![1], "g".to_string()));
    assert_eq!(entity_width(&consumer), 1);
    assert_eq!(entity_width(&producer), 1);
    assert_eq!(entity_width(&Entity::Storage(storage())), 3);
    assert_eq!(entity_width(&grid), 3);
}

#[test]
fn stride_adds_the_widths() {
    let entities = vec![
        Entity::Consumer(Consumer::new(vec![0], vec![1], vec![1], "c".to_string())),
        Entity::Storage(storage()),
        Entity::Grid(Grid::new(vec![0], vec![1], vec![0], vec![1], "g".to_string())),
        Entity::Producer(Producer::new(vec![0], vec![1], vec![1], true, "p".to_string())),
    ];
    assert_eq!(stride_of(&entities), Some(8));
    assert_eq!(stride_of(&vec![]), Some(0));
}
