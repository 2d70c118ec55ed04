use optimization::{
    linprog::solve, Consumer, Entity, Grid, Producer, Storage, EFFICIENCY_SCALE, OUTPUT_SCALE,
};

/// The count that an output series holds for `units` base units.
fn units(values: [i128; 4]) -> Vec<i128> {
    values.iter().map(|v| v * OUTPUT_SCALE).collect()
}

#[test]
fn not_connected_grid() {
    let mut entities: Vec<Entity> = vec![];
    let timesteps = 4;

    entities.push(Entity::Grid(Grid::new(
        vec![0],
        vec![1],
        vec![0],
        vec![1],
        "grid".to_string(),
    )));

    let result = solve(entities, timesteps);
    assert_eq!(result.is_ok(), true);

    let grid = match result.unwrap().pop().unwrap() {
        Entity::Grid(grid) => grid,
        _ => panic!("Expected Grid"),
    };

    assert_eq!(grid.consumed, units([0, 0, 0, 0]));
    assert_eq!(grid.produced, units([0, 0, 0, 0]));
}

#[test]
fn grid_and_consumer() {
    let mut entities: Vec<Entity> = vec![];
    let timesteps = 4;

    entities.push(Entity::Grid(Grid::new(
        vec![0],
        vec![1],
        vec![0],
        vec![1],
        "grid".to_string(),
    )));
    entities.push(Entity::Consumer(Consumer::new(
        vec![0],
        vec![EFFICIENCY_SCALE],
        vec![0, 1],
        "consumer".to_string(),
    )));

    let result = solve(entities, timesteps);
    assert_eq!(result.is_ok(), true);

    let mut unwrapped_result = result.unwrap();

    let consumer = match unwrapped_result.pop().unwrap() {
        Entity::Consumer(consumer) => consumer,
        _ => panic!("Expected Consumer"),
    };

    let grid = match unwrapped_result.pop().unwrap() {
        Entity::Grid(grid) => grid,
        _ => panic!("Expected Grid"),
    };

    assert_eq!(consumer.consumed, units([0, 1, 0, 1]));
    assert_eq!(grid.consumed, units([0, 0, 0, 0]));
    assert_eq!(grid.produced, units([0, 1, 0, 1]));
}

#[test]
fn consumer_and_storage() {
    let mut entities: Vec<Entity> = vec![];
    let timesteps = 4;

    entities.push(Entity::Storage(Storage::new(
        vec![0],
        vec![EFFICIENCY_SCALE],
        vec![1],
        vec![0],
        vec![EFFICIENCY_SCALE],
        vec![1],
        20,
        20,
        false,
        false,
        "storage".to_string(),
    )));
    entities.push(Entity::Consumer(Consumer::new(
        vec![0],
        vec![EFFICIENCY_SCALE],
        vec![0, 1],
        "consumer".to_string(),
    )));

    let result = solve(entities, timesteps);
    assert_eq!(result.is_ok(), true);

    let mut unwrapped_result = result.unwrap();

    let consumer = match unwrapped_result.pop().unwrap() {
        Entity::Consumer(consumer) => consumer,
        _ => panic!("Expected Consumer"),
    };

    let storage = match unwrapped_result.pop().unwrap() {
        Entity::Storage(storage) => storage,
        _ => panic!("Expected Storage"),
    };

    assert_eq!(consumer.consumed, units([0, 1, 0, 1]));
    assert_eq!(storage.produced, units([0, 1, 0, 1]));

    assert_eq!(storage.stored, units([20, 19, 19, 18]));
}

#[test]
fn consumer_and_producer() {
    let mut entities: Vec<Entity> = vec![];
    let timesteps = 4;

    entities.push(Entity::Producer(Producer::new(
        vec![0],
        vec![EFFICIENCY_SCALE],
        vec![0, 1],
        true,
        "producer".to_string(),
    )));
    entities.push(Entity::Consumer(Consumer::new(
        vec![0],
        vec![EFFICIENCY_SCALE],
        vec![0, 1],
        "consumer".to_string(),
    )));

    let result = solve(entities, timesteps);
    assert_eq!(result.is_ok(), true);

    let mut unwrapped_result = result.unwrap();

    let consumer = match unwrapped_result.pop().unwrap() {
        Entity::Consumer(consumer) => consumer,
        _ => panic!("Expected Consumer"),
    };

    let producer = match unwrapped_result.pop().unwrap() {
        Entity::Producer(producer) => producer,
        _ => panic!("Expected Producer"),
    };

    assert_eq!(consumer.consumed, units([0, 1, 0, 1]));
    assert_eq!(producer.produced, units([0, 1, 0, 1]));
}

#[test]
fn storage_to_grid_allowed() {
    let mut entities: Vec<Entity> = vec![];
    let timesteps = 4;

    entities.push(Entity::Grid(Grid::new(
        vec![-1],
        vec![1],
        vec![0],
        vec![1],
        "grid".to_string(),
    )));
    entities.push(Entity::Storage(Storage::new(
        vec![0],
        vec![EFFICIENCY_SCALE],
        vec![1],
        vec![0],
        vec![EFFICIENCY_SCALE],
        vec![1],
        20,
        20,
        true,
        false,
        "storage".to_string(),
    )));

    let result = solve(entities, timesteps);
    assert_eq!(result.is_ok(), true);

    let mut unwrapped_result = result.unwrap();

    let storage = match unwrapped_result.pop().unwrap() {
        Entity::Storage(storage) => storage,
        _ => panic!("Expected Storage"),
    };

    let grid = match unwrapped_result.pop().unwrap() {
        Entity::Grid(grid) => grid,
        _ => panic!("Expected Grid"),
    };

    println!("storage: {:?}", storage.stored);

    assert_eq!(storage.produced, units([1, 1, 1, 1]));
    assert_eq!(grid.consumed, units([1, 1, 1, 1]));
}

#[test]
fn storage_to_grid_not_allowed() {
    let mut entities: Vec<Entity> = vec![];
    let timesteps = 4;

    entities.push(Entity::Grid(Grid::new(
        vec![-1],
        vec![1],
        vec![0],
        vec![1],
        "grid".to_string(),
    )));
    entities.push(Entity::Storage(Storage::new(
        vec![0],
        vec![EFFICIENCY_SCALE],
        vec![1],
        vec![0],
        vec![EFFICIENCY_SCALE],
        vec![1],
        20,
        20,
        false,
        false,
        "storage".to_string(),
    )));

    let result = solve(entities, timesteps);
    assert_eq!(result.is_ok(), true);

    let mut unwrapped_result = result.unwrap();

    let storage = match unwrapped_result.pop().unwrap() {
        Entity::Storage(storage) => storage,
        _ => panic!("Expected Storage"),
    };

    let grid = match unwrapped_result.pop().unwrap() {
        Entity::Grid(grid) => grid,
        _ => panic!("Expected Grid"),
    };

    println!("storage: {:?}", storage.stored);

    assert_eq!(storage.produced, units([0, 0, 0, 0]));
    assert_eq!(grid.consumed, units([0, 0, 0, 0]));
}
