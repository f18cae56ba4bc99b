use tekfor_game::components::{ActionKind, MoveOptions};
use tekfor_game::events::{GameEvent, GameEventManager};
use tekfor_game::geometry::{Direction, GridPos};
use tekfor_game::serialize::WorldInfo;
use tekfor_game::world_grid::WorldGrid;

fn world_32() -> WorldGrid {
    WorldGrid::new(&WorldInfo::new(32, 32), Vec::new())
}

#[test]
fn spawn_and_get_pos() {
    let mut world_grid = world_32();
    let fireball = world_grid.spawn_fireball_at(GridPos::new(10, 20), Direction::East);
    let pos = world_grid.get_pos(fireball).unwrap();
    assert_eq!(pos, GridPos { x: 10, y: 20 });
}

#[test]
fn spawn_and_add_action() {
    let mut world_grid = world_32();
    let fireball = world_grid.spawn_fireball_at(GridPos::new(0, 0), Direction::East);
    world_grid.add_action(fireball, ActionKind::Move(MoveOptions::new(Direction::East)));
}

#[test]
fn add_game_event() {
    let mut world_grid = world_32();
    let mut game_events = GameEventManager::new();
    let door = world_grid.spawn_door_at(GridPos::new(1, 2), false);

    game_events.add(GameEvent::DoorLock(door));
    game_events.add(GameEvent::DoorUnlock(door));
    game_events.add(GameEvent::DoorOpen(door));

    let door_on_cell = world_grid.get_cell(1, 2).unwrap()[0];
    assert_eq!(
        game_events.as_slice().to_vec(),
        vec![GameEvent::DoorLock(door_on_cell), GameEvent::DoorUnlock(door_on_cell), GameEvent::DoorOpen(door_on_cell)]
    );
}

#[test]
fn spawn_and_get_linked_entities() {
    let mut world_grid = world_32();
    let door = world_grid.spawn_door_at(GridPos::new(1, 2), false);
    let data = world_grid.get_entity(door).unwrap();
    assert!(data.linked_entities.is_none());
}
