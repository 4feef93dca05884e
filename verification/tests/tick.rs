use asteroid_field::address::{MapAddress, Translation};
use asteroid_field::arena::{spawn_setup, tick, Asteroid};
use asteroid_field::queue::AsteroidData;
use asteroid_field::spawner::{
    MapSpawnerBundle, PreviousSpawnUpdate, SpawnArea, UNSCANNED_COORDINATE,
};

fn frame_at_origin() -> MapSpawnerBundle {
    MapSpawnerBundle::new(Translation { x: 0, y: 0, z: 0 }, SpawnArea { radius: 2, scale: 5 })
}

fn in_box(value: (i64, i64, i64), low: (i64, i64, i64), high: (i64, i64, i64)) -> bool {
    value.0 > low.0
        && value.0 < high.0
        && value.1 > low.1
        && value.1 < high.1
        && value.2 > low.2
        && value.2 < high.2
}

fn corner(cell: MapAddress, scale: i64) -> Translation {
    Translation { x: cell.x as i64 * scale, y: cell.y as i64 * scale, z: cell.z as i64 * scale }
}

#[test]
fn new_frame_remembers_the_far_cell() {
    assert_eq!(UNSCANNED_COORDINATE, 1024);
    assert_eq!(
        PreviousSpawnUpdate::unscanned(),
        PreviousSpawnUpdate(MapAddress { x: 1024, y: 1024, z: 1024 })
    );
    let area = SpawnArea { radius: 10, scale: 5 };
    let frame = MapSpawnerBundle::new(Translation { x: 1, y: 2, z: 3 }, area);
    assert_eq!(frame.translation, Translation { x: 1, y: 2, z: 3 });
    assert_eq!(frame.spawn_area, SpawnArea { radius: 10, scale: 5 });
    assert_eq!(frame.previous_spawn_update, PreviousSpawnUpdate::unscanned());
    assert!(frame.is_scannable());
}

#[test]
fn tick_does_nothing_while_the_game_is_not_played() {
    let (table, mut queue) = spawn_setup();
    let waiting = AsteroidData { address: MapAddress { x: 1, y: 1, z: 1 }, size: 900, scale: 5 };
    queue.enqueue(waiting);
    let mut frames = vec![frame_at_origin()];
    let lost = Asteroid { entity: 1, translation: Translation { x: 9000, y: 0, z: 0 } };
    let mut asteroids = vec![lost];
    let changes = tick(false, &table, &mut frames, &mut queue, &mut asteroids);
    assert!(changes.spawned.is_empty());
    assert!(changes.removed.is_empty());
    assert_eq!(queue.len(), 1);
    assert_eq!(queue.dequeue(), Some(waiting));
    assert_eq!(asteroids.len(), 1);
    assert_eq!(frames[0].previous_spawn_update, PreviousSpawnUpdate::unscanned());
}

#[test]
fn tick_scans_drains_and_sweeps() {
    let (table, mut queue) = spawn_setup();
    let waiting = AsteroidData { address: MapAddress { x: 7, y: 7, z: 7 }, size: 900, scale: 3 };
    queue.enqueue(waiting);
    let mut frames = vec![frame_at_origin()];
    let near = Asteroid { entity: 1, translation: Translation { x: 5, y: -5, z: 0 } };
    let far = Asteroid { entity: 2, translation: Translation { x: 10, y: 0, z: 0 } };
    let mut asteroids = vec![far, near];
    let changes = tick(true, &table, &mut frames, &mut queue, &mut asteroids);

    let mut expected = vec![Translation { x: 21, y: 21, z: 21 }];
    for n in 0..64 {
        let cell = MapAddress { x: -2 + n % 4, y: -2 + (n % 16) / 4, z: -2 + n / 16 };
        if table.evaluate_noise(&cell).exceeds_cutoff() {
            expected.push(corner(cell, 5));
        }
    }
    assert!(expected.len() > 1);
    assert_eq!(changes.spawned, expected);
    assert!(queue.is_empty());
    assert_eq!(changes.removed, vec![far]);
    assert_eq!(asteroids, vec![near]);
    assert_eq!(frames[0].previous_spawn_update.0, MapAddress { x: 0, y: 0, z: 0 });

    // the next tick finds the frame where it was
    let changes = tick(true, &table, &mut frames, &mut queue, &mut asteroids);
    assert!(changes.spawned.is_empty());
    assert!(changes.removed.is_empty());
    assert_eq!(asteroids, vec![near]);
}

#[test]
fn tick_after_a_step_spawns_the_new_shell() {
    let (table, mut queue) = spawn_setup();
    let mut frames = vec![frame_at_origin()];
    let mut asteroids: Vec<Asteroid> = Vec::new();
    let first = tick(true, &table, &mut frames, &mut queue, &mut asteroids);
    for (i, place) in first.spawned.iter().enumerate() {
        asteroids.push(Asteroid { entity: i as u64, translation: *place });
    }
    let held = asteroids.clone();
    frames[0].translation = Translation { x: 0, y: -1, z: 0 };
    let second = tick(true, &table, &mut frames, &mut queue, &mut asteroids);
    assert_eq!(frames[0].previous_spawn_update.0, MapAddress { x: 0, y: -1, z: 0 });
    for place in &second.spawned {
        let cell = MapAddress {
            x: (place.x / 5) as i32,
            y: (place.y / 5) as i32,
            z: (place.z / 5) as i32,
        };
        assert_eq!(corner(cell, 5), *place);
        let at = (cell.x as i64, cell.y as i64, cell.z as i64);
        // in the cube around (0, -1, 0) ...
        assert!(in_box(at, (-3, -4, -3), (2, 1, 2)));
        // ... and not inside the neighbourhood of (0, 0, 0)
        assert!(!in_box(at, (-2, -2, -2), (2, 2, 2)));
        assert!(table.evaluate_noise(&cell).exceeds_cutoff());
    }
    for asteroid in &held {
        let t = asteroid.translation;
        let inside = in_box((t.x, t.y, t.z), (-10, -15, -10), (10, 5, 10));
        assert_eq!(asteroids.contains(asteroid), inside);
        assert_eq!(second.removed.contains(asteroid), !inside);
    }
}
