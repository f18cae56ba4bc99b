use tekfor_game::components::{
    Animation, AnimationKind, Position, door_template, player_template, saw_template, wall_template, ActionKind, ComponentID, EntityData,
    LinkedEntities, LockKind, Locked, MoveOptions,
};
use tekfor_game::geometry::{advance_pos_in_direction, Direction, GridPos};
use tekfor_game::grid::Grid;
use tekfor_game::resources::SpriteID;
use tekfor_game::serialize::WorldInfo;
use tekfor_game::world_grid::{NoSuchEntity, WorldGrid};

fn world(width: u32, height: u32) -> WorldGrid {
    WorldGrid::new(&WorldInfo::new(width, height), Vec::new())
}

#[test]
fn step_positions() {
    assert_eq!(advance_pos_in_direction(GridPos::new(3, 4), Direction::North), GridPos::new(3, 3));
    assert_eq!(advance_pos_in_direction(GridPos::new(3, 4), Direction::East), GridPos::new(4, 4));
    assert_eq!(advance_pos_in_direction(GridPos::new(3, 4), Direction::South), GridPos::new(3, 5));
    assert_eq!(advance_pos_in_direction(GridPos::new(3, 4), Direction::West), GridPos::new(2, 4));
    // Stepping north or west from row or column 0 stays there.
    assert_eq!(advance_pos_in_direction(GridPos::new(0, 0), Direction::North), GridPos::new(0, 0));
    assert_eq!(advance_pos_in_direction(GridPos::new(0, 0), Direction::West), GridPos::new(0, 0));
}

#[test]
fn step_and_back_returns() {
    let start = GridPos::new(5, 7);
    for (dir, back) in [
        (Direction::North, Direction::South),
        (Direction::East, Direction::West),
        (Direction::South, Direction::North),
        (Direction::West, Direction::East),
    ] {
        assert_eq!(advance_pos_in_direction(advance_pos_in_direction(start, dir), back), start);
    }
}

#[test]
fn grid_put_and_take_off() {
    let mut grid = Grid::new(3, 2);
    assert_eq!(grid.width(), 3);
    assert_eq!(grid.height(), 2);
    assert_eq!(grid.get_cell(2, 1), Some(&[][..]));
    assert_eq!(grid.get_cell(3, 0), None);
    assert_eq!(grid.get_cell(0, 2), None);

    grid.add_to_cell(7, 2, 1);
    grid.add_to_cell(9, 2, 1);
    // Putting an entity on a cell twice keeps one occurrence.
    grid.add_to_cell(7, 2, 1);
    assert_eq!(grid.get_cell(2, 1), Some(&[7u64, 9][..]));
    // Off the grid nothing happens.
    grid.add_to_cell(7, 5, 5);

    grid.remove_from_cell(7, 2, 1);
    assert_eq!(grid.get_cell(2, 1), Some(&[9u64][..]));
    grid.remove_from_cell(9, 2, 1);
    assert_eq!(grid.get_cell(2, 1), Some(&[][..]));
    assert_eq!(grid.get_cell_owned(0, 0), Some(Vec::new()));
}

#[test]
fn grid_resize_keeps_leading_cells() {
    let mut grid = Grid::new(2, 2);
    grid.add_to_cell(1, 0, 0);
    grid.add_to_cell(2, 1, 1);
    grid.resize(3, 3);
    assert_eq!(grid.width(), 3);
    assert_eq!(grid.get_cell(0, 0), Some(&[1u64][..]));
    // Cell index 3 (row 1, column 1 of the old grid) is now row 1, column 0.
    assert_eq!(grid.get_cell(0, 1), Some(&[2u64][..]));
    assert_eq!(grid.get_cell(2, 2), Some(&[][..]));
    grid.resize(1, 1);
    assert_eq!(grid.get_cell(0, 0), Some(&[1u64][..]));
    assert_eq!(grid.get_cell(0, 1), None);
}

#[test]
fn spawned_entities_stand_on_their_cells() {
    let mut w = world(4, 4);
    let player = w.spawn_player_at(GridPos::new(1, 1));
    let wall = w.spawn_wall_at(GridPos::new(2, 1), SpriteID::WallVertical);
    assert_eq!(w.get_cell(1, 1).unwrap(), &[player][..]);
    assert_eq!(w.get_cell(2, 1).unwrap(), &[wall][..]);
    assert!(w.satisfies(player, ComponentID::Player));
    assert!(w.satisfies(player, ComponentID::Mortal));
    assert!(!w.satisfies(wall, ComponentID::Movable));
    assert!(w.has_component_at(2, 1, ComponentID::Obstacle));
    assert!(!w.has_component_at(1, 1, ComponentID::Obstacle));
    // Off the grid nothing is found.
    assert!(!w.has_component_at(9, 9, ComponentID::Obstacle));
    let mut ids = w.entity_ids();
    ids.sort();
    let mut expected = vec![player, wall];
    expected.sort();
    assert_eq!(ids, expected);
}

#[test]
fn entity_without_on_grid_is_not_placed() {
    let mut w = world(4, 4);
    let mut data = player_template(GridPos::new(0, 0));
    data.on_grid = None;
    let id = w.spawn_entity(data);
    assert_eq!(w.get_cell(0, 0).unwrap(), &[][..]);
    assert_eq!(w.get_pos(id), Some(GridPos::new(0, 0)));
}

#[test]
fn despawn_removes_from_cell_and_links() {
    let mut w = world(4, 4);
    let door = w.spawn_door_at(GridPos::new(3, 3), true);
    let plate = w.spawn_pressure_plate(GridPos::new(0, 0), Some(vec![door, door]));
    assert_eq!(w.get_entity(plate).unwrap().linked_entities.unwrap().get(), &vec![door]);
    assert_eq!(w.despawn_entity(door), Ok(()));
    assert_eq!(w.get_cell(3, 3).unwrap(), &[][..]);
    assert!(w.get_entity(door).is_none());
    assert_eq!(w.get_entity(plate).unwrap().linked_entities.unwrap().get(), &Vec::<u64>::new());
    // Despawning again reports that the entity does not exist.
    assert_eq!(w.despawn_entity(door), Err(NoSuchEntity));
}

#[test]
fn despawn_after_spawn_restores_world() {
    let mut w = world(3, 3);
    let wall = w.spawn_wall_at(GridPos::new(1, 1), SpriteID::WallHorizontal);
    let before_cells: Vec<Vec<u64>> = (0..3u32)
        .flat_map(|y| (0..3u32).map(move |x| (x, y)))
        .map(|(x, y)| w.get_cell(x, y).unwrap().to_vec())
        .collect();
    let crate_id = w.spawn_crate_at(GridPos::new(1, 1));
    assert_eq!(w.get_cell(1, 1).unwrap(), &[wall, crate_id][..]);
    w.despawn_entity(crate_id).unwrap();
    let after_cells: Vec<Vec<u64>> = (0..3u32)
        .flat_map(|y| (0..3u32).map(move |x| (x, y)))
        .map(|(x, y)| w.get_cell(x, y).unwrap().to_vec())
        .collect();
    assert_eq!(before_cells, after_cells);
    assert_eq!(w.entity_ids(), vec![wall]);
}

#[test]
fn move_to_free_cell_and_refusals() {
    let mut w = world(3, 3);
    let player = w.spawn_player_at(GridPos::new(0, 0));
    let wall = w.spawn_wall_at(GridPos::new(2, 0), SpriteID::WallVertical);

    assert!(w.get_entity(player).unwrap().animation.is_none());
    assert!(w.move_entity_to_pos(player, 1, 0));
    assert_eq!(w.get_pos(player), Some(GridPos::new(1, 0)));
    assert_eq!(w.get_cell(0, 0).unwrap(), &[][..]);
    assert_eq!(w.get_cell(1, 0).unwrap(), &[player][..]);
    // A successful move starts a move animation from the old cell to the new one.
    let moved = Animation::new(AnimationKind::Move {
        start: Position(GridPos::new(0, 0)),
        end: Position(GridPos::new(1, 0)),
    });
    assert_eq!(w.get_entity(player).unwrap().animation, Some(moved));

    // An obstacle, the edge of the grid and an entity that cannot move all refuse.
    assert!(!w.move_entity_to_pos(player, 2, 0));
    assert!(!w.move_entity_to_pos(player, 3, 0));
    assert!(!w.move_entity_to_pos(wall, 1, 1));
    assert_eq!(w.get_pos(player), Some(GridPos::new(1, 0)));
}

#[test]
fn switching_a_saw_and_queueing_actions() {
    let mut w = world(5, 5);
    let saw = w.spawn_saw_at(GridPos::new(2, 2), Direction::West, Direction::East);
    let b = w.switch_bouncing_dir(saw).unwrap();
    assert_eq!((b.from, b.to), (Direction::East, Direction::West));
    let wall = w.spawn_wall_at(GridPos::new(0, 0), SpriteID::WallVertical);
    assert!(w.switch_bouncing_dir(wall).is_none());

    let step = ActionKind::Move(MoveOptions::new(Direction::North));
    w.add_action(saw, step);
    w.add_action(saw, step);
    let queue = w.get_entity(saw).unwrap().action_queue.unwrap();
    assert_eq!(queue.0.len(), 2);
    // An entity without a queue is left alone.
    w.add_action(wall, step);
    assert!(w.get_entity(wall).unwrap().action_queue.is_none());
}

#[test]
fn locking_doors() {
    let mut w = world(2, 2);
    let door = w.spawn_door_at(GridPos::new(0, 1), false);
    assert!(w.get_entity(door).unwrap().locked.is_none());
    assert!(w.set_locked(door, Some(Locked(LockKind::Basic))));
    assert_eq!(w.get_entity(door).unwrap().locked, Some(Locked(LockKind::Basic)));
    assert!(w.set_locked(door, None));
    // Clearing a lock the door does not have changes nothing.
    assert!(!w.set_locked(door, None));
    let locked = w.spawn_door_at(GridPos::new(1, 1), true);
    assert_eq!(w.get_entity(locked).unwrap().locked, Some(Locked(LockKind::Basic)));
}

#[test]
fn loading_places_positioned_entities() {
    let info = WorldInfo::new(4, 3);
    let a: u64 = (1 << 32) | 0;
    let b: u64 = (1 << 32) | 1;
    let c: u64 = (3 << 32) | 2;
    let mut unplaced = EntityData::empty();
    unplaced.sprite = None;
    let w = WorldGrid::new(
        &info,
        vec![
            (a, wall_template(GridPos::new(3, 2), SpriteID::WallHorizontal)),
            (b, door_template(GridPos::new(0, 0), false)),
            (c, unplaced),
        ],
    );
    assert_eq!(w.width(), 4);
    assert_eq!(w.height(), 3);
    assert_eq!(w.get_cell(3, 2).unwrap(), &[a][..]);
    assert_eq!(w.get_cell(0, 0).unwrap(), &[b][..]);
    assert!(w.get_entity(c).is_some());
    assert_eq!(w.get_pos(c), None);
}

#[test]
fn linked_entities_keep_each_entity_once() {
    let links = LinkedEntities::new(vec![4, 2, 4, 9, 2]);
    assert_eq!(links.get(), &vec![4, 2, 9]);
    let mut links = links;
    links.remove(2);
    assert_eq!(links.get(), &vec![4, 9]);
}

#[test]
fn saw_template_carries_its_directions() {
    let d = saw_template(GridPos::new(1, 2), Direction::North, Direction::South);
    let b = d.bouncing.unwrap();
    assert_eq!((b.from, b.to), (Direction::North, Direction::South));
    assert!(d.has_component(ComponentID::CausesDeath));
    assert!(d.action_queue.unwrap().0.is_empty());
}

fn assert_consistent(w: &WorldGrid) {
    for id in w.entity_ids() {
        let d = w.get_entity(id).unwrap();
        if let (Some(p), Some(_)) = (d.position, d.on_grid) {
            if let Some(cell) = w.get_cell(p.0.x, p.0.y) {
                assert!(cell.contains(&id), "entity {} missing from its cell", id);
            }
        }
    }
}

#[test]
fn world_stays_consistent() {
    let a: u64 = 1 << 32;
    let b: u64 = (1 << 32) | 1;
    let mut w = WorldGrid::new(
        &WorldInfo::new(4, 4),
        vec![(a, player_template(GridPos::new(0, 0))), (b, door_template(GridPos::new(3, 3), true))],
    );
    assert_consistent(&w);
    let c = w.spawn_crate_at(GridPos::new(1, 1));
    assert_consistent(&w);
    assert!(w.move_entity_to_pos(a, 0, 1));
    assert_consistent(&w);
    assert!(w.move_entity_to_pos(c, 2, 2));
    assert_consistent(&w);
    w.despawn_entity(b).unwrap();
    assert_consistent(&w);
    assert!(w.set_locked(c, Some(Locked(LockKind::Basic))));
    assert_consistent(&w);
}

#[test]
fn resizing_keeps_cells_by_number() {
    let mut w = world(2, 2);
    let p = w.spawn_player_at(GridPos::new(1, 1));
    // Same width, more rows: the player is still listed where it stands.
    w.resize(2, 5);
    assert_consistent(&w);
    assert_eq!(w.get_cell(1, 1).unwrap(), &[p][..]);
    // A new width renumbers the cells: cell 3 is now (0, 1) of a 3-wide grid.
    w.resize(3, 3);
    assert_eq!(w.get_cell(0, 1).unwrap(), &[p][..]);
    assert_eq!(w.get_cell(1, 1).unwrap(), &[][..]);
    assert_eq!(w.get_pos(p), Some(GridPos::new(1, 1)));
}
