use tekfor_game::components::{
    crate_template, door_template, downstairs_template, fireball_template, player_template, saw_template,
    ActionKind, Animation, AnimationKind, ComponentID, EntityData, MoveOptions, Position,
};
use tekfor_game::events::{GameEvent, GameEventManager};
use tekfor_game::gameplay::{
    entity_sprite_text, entity_sprite_text_default, EventOutcome, Gameplay, InputKey, TickState, UpdateRequest,
};
use tekfor_game::geometry::{Direction, GridPos};
use tekfor_game::grid::EntityId;
use tekfor_game::resources::{SoundID, SpriteID};
use tekfor_game::serialize::WorldInfo;
use tekfor_game::states::PlannedGameState;
use tekfor_game::systems::{is_any_animation_active, mark_dead, render_queue, update_animations, update_sprites};
use tekfor_game::world_grid::WorldGrid;

fn handle(index: u32) -> EntityId {
    (1u64 << 32) | index as u64
}

fn level(width: u32, height: u32, entities: Vec<EntityData>) -> (Gameplay, Vec<EntityId>) {
    let ids: Vec<EntityId> = (0..entities.len() as u32).map(handle).collect();
    let list = ids.iter().copied().zip(entities).collect();
    (Gameplay::new(&WorldInfo::new(width, height), list), ids)
}

#[test]
fn events_are_handled_last_first() {
    let mut events = GameEventManager::new();
    assert_eq!(events.take_last(), None);
    events.add(GameEvent::DoorLock(1));
    events.add(GameEvent::DoorOpen(2));
    assert_eq!(events.len(), 2);
    assert_eq!(events.take_last(), Some(GameEvent::DoorOpen(2)));
    assert_eq!(events.as_slice(), &[GameEvent::DoorLock(1)][..]);
}

#[test]
fn take_last_undoes_add() {
    let mut events = GameEventManager::default();
    events.add(GameEvent::EntityInteracted(3));
    let before = events.as_slice().to_vec();
    let e = GameEvent::EntityDeath { target: 4, attacker: 5 };
    events.add(e);
    assert_eq!(events.take_last(), Some(e));
    assert_eq!(events.as_slice().to_vec(), before);
}

#[test]
fn animation_time_saturates_and_finishes() {
    let kind = AnimationKind::Move { start: Position(GridPos::new(0, 0)), end: Position(GridPos::new(1, 0)) };
    let mut a = Animation::new(kind);
    assert_eq!(a.duration_ms(), 500);
    assert!(!a.is_finished());
    assert!(!a.update(499));
    assert!(a.update(1));
    assert_eq!(a.elapsed_ms(), 500);
    // A finished animation stays finished.
    assert!(a.update(0));
    assert!(a.update(u32::MAX));
    assert_eq!(a.elapsed_ms(), u32::MAX);
    assert_eq!(*a.kind(), kind);
}

#[test]
fn players_are_found_and_get_actions() {
    let (mut g, ids) = level(5, 5, vec![player_template(GridPos::new(2, 2)), crate_template(GridPos::new(4, 4))]);
    assert_eq!(g.tick_state(), TickState::ProcessingLogic);
    assert!(!g.is_level_finished());
    g.push_player_action(ActionKind::Move(MoveOptions::new(Direction::East)));
    assert_eq!(g.world_grid().get_entity(ids[0]).unwrap().action_queue.unwrap().0.len(), 1);
    assert!(g.world_grid().get_entity(ids[1]).unwrap().action_queue.is_none());
}

#[test]
fn turn_phases_follow_each_other() {
    let (mut g, ids) = level(5, 5, vec![player_template(GridPos::new(2, 2))]);
    assert_eq!(g.update(), UpdateRequest::RunLogicalTick);
    assert_eq!(g.tick_state(), TickState::WaitingForAction);
    assert_eq!(g.update(), UpdateRequest::PollInput);

    // No key: nothing happens.
    g.handle_input(None);
    assert_eq!(g.tick_state(), TickState::WaitingForAction);

    // W moves the player north and starts its animation.
    g.handle_input(Some(InputKey::W));
    assert_eq!(g.tick_state(), TickState::Animating);
    assert_eq!(g.world_grid().get_pos(ids[0]), Some(GridPos::new(2, 1)));
    assert!(is_any_animation_active(g.world_grid()));

    assert_eq!(g.update(), UpdateRequest::AdvanceAnimations);
    g.advance_animations(500);
    assert!(!is_any_animation_active(g.world_grid()));
    assert_eq!(g.update(), UpdateRequest::Nothing);
    assert_eq!(g.tick_state(), TickState::ProcessingLogic);
}

#[test]
fn a_key_without_direction_still_ends_the_wait_only_with_actions() {
    let (mut g, _) = level(3, 3, vec![player_template(GridPos::new(1, 1))]);
    g.update();
    assert!(g.update_input(Some(InputKey::Other)));
    // No action was queued, so the turn keeps waiting.
    g.handle_input(Some(InputKey::Other));
    assert_eq!(g.tick_state(), TickState::WaitingForAction);
}

#[test]
fn pushing_steps_the_mover_not_the_crate() {
    // A pushable entity on the target cell makes the mover try a plain step
    // first; the crate itself stays, and blocks both steps.
    let (mut g, ids) = level(5, 1, vec![player_template(GridPos::new(0, 0)), crate_template(GridPos::new(1, 0))]);
    g.update();
    g.handle_input(Some(InputKey::D));
    assert_eq!(g.world_grid().get_pos(ids[1]), Some(GridPos::new(1, 0)));
    assert_eq!(g.world_grid().get_pos(ids[0]), Some(GridPos::new(0, 0)));
    // The player interacts with the crate in the outer and in the inner step.
    assert_eq!(
        g.game_events().as_slice(),
        &[GameEvent::EntityInteracted(ids[1]), GameEvent::EntityInteracted(ids[1])][..]
    );
}

#[test]
fn walking_into_a_wall_does_not_move() {
    let wall = tekfor_game::components::wall_template(GridPos::new(1, 0), SpriteID::WallVertical);
    let (mut g, ids) = level(3, 1, vec![player_template(GridPos::new(0, 0)), wall]);
    g.update();
    g.handle_input(Some(InputKey::D));
    assert_eq!(g.world_grid().get_pos(ids[0]), Some(GridPos::new(0, 0)));
    // The player is intelligent: walking into the wall raises an interaction.
    assert_eq!(g.game_events().as_slice(), &[GameEvent::EntityInteracted(ids[1])][..]);
}

#[test]
fn fireball_despawns_when_blocked() {
    let mut g_world = WorldGrid::new(&WorldInfo::new(3, 1), Vec::new());
    let wall = g_world.spawn_wall_at(GridPos::new(1, 0), SpriteID::WallVertical);
    let fireball = g_world.spawn_fireball_at(GridPos::new(0, 0), Direction::East);
    let mut opts = MoveOptions::new(Direction::East);
    opts.despawn_if_collided = true;
    g_world.add_action(fireball, ActionKind::Move(opts));
    let entities: Vec<(EntityId, EntityData)> = g_world
        .entity_ids()
        .into_iter()
        .map(|id| (id, g_world.get_entity(id).unwrap()))
        .collect();
    let mut g = Gameplay::new(&WorldInfo::new(3, 1), entities);
    assert!(g.process_actions());
    assert!(g.world_grid().get_entity(fireball).is_none());
    assert!(g.world_grid().get_entity(wall).is_some());
    assert!(!g.process_actions());
}

#[test]
fn deaths_are_marked_once_and_handled() {
    let (mut g, ids) = level(
        4,
        4,
        vec![player_template(GridPos::new(1, 1)), fireball_template(GridPos::new(1, 1), Direction::North)],
    );
    g.mark_dead();
    assert_eq!(
        g.game_events().as_slice(),
        &[GameEvent::EntityDeath { target: ids[0], attacker: ids[1] }][..]
    );
    let outcome = g.process_next_event().unwrap();
    assert!(outcome.is_hit());
    assert_eq!(outcome.sound(), Some(SoundID::Death));
    match outcome {
        EventOutcome::Died { target, target_name, attacker_name } => {
            assert_eq!(target, ids[0]);
            assert_eq!(target_name, "Player");
            assert_eq!(attacker_name, "Fireball");
        }
        _ => panic!("expected a death"),
    }
    assert!(g.world_grid().get_entity(ids[0]).is_none());
    assert!(g.process_next_event().is_none());
}

#[test]
fn doors_lock_unlock_and_open() {
    let (mut g, ids) = level(3, 3, vec![door_template(GridPos::new(1, 1), false)]);
    let door = ids[0];
    {
        let (_, events) = g.parts_mut();
        events.add(GameEvent::DoorOpen(door));
        events.add(GameEvent::DoorUnlock(door));
        events.add(GameEvent::DoorLock(door));
    }
    let locked = g.process_next_event().unwrap();
    assert_eq!(locked.sound(), Some(SoundID::Lock));
    assert!(g.world_grid().get_entity(door).unwrap().locked.is_some());

    // The door sprite follows the lock.
    let mut w = WorldGrid::new(&WorldInfo::new(3, 3), Vec::new());
    let d = w.spawn_door_at(GridPos::new(0, 0), true);
    assert!(w.set_locked(d, None));
    update_sprites(&mut w);
    assert_eq!(w.get_entity(d).unwrap().sprite.unwrap().0, SpriteID::DoorUnlocked);

    let unlocked = g.process_next_event().unwrap();
    assert_eq!(unlocked.sound(), Some(SoundID::Unlock));
    assert!(g.world_grid().get_entity(door).unwrap().locked.is_none());

    let opened = g.process_next_event().unwrap();
    assert_eq!(opened.sound(), Some(SoundID::DoorOpen));
    assert!(g.world_grid().get_entity(door).is_none());
    assert_eq!(g.world_grid().get_cell(1, 1).unwrap(), &[][..]);
}

#[test]
fn going_downstairs_finishes_the_level() {
    let (mut g, ids) = level(
        3,
        3,
        vec![player_template(GridPos::new(0, 0)), downstairs_template(GridPos::new(2, 2), SpriteID::DownstairsHorizontalUpper)],
    );
    g.parts_mut().1.add(GameEvent::EntityWentDowntairs(ids[0]));
    match g.process_next_event().unwrap() {
        EventOutcome::WentDownstairs { entity, name } => {
            assert_eq!(entity, ids[0]);
            assert_eq!(name, "Player");
        }
        _ => panic!("expected going downstairs"),
    }
    assert!(g.is_level_finished());
    assert!(g.world_grid().get_entity(ids[0]).is_none());
}

#[test]
fn interactions_are_reported_unchanged() {
    let (mut g, ids) = level(2, 2, vec![crate_template(GridPos::new(0, 0))]);
    g.parts_mut().1.add(GameEvent::EntityInteracted(ids[0]));
    let outcome = g.process_next_event().unwrap();
    assert!(matches!(outcome, EventOutcome::Interacted(e) if e == ids[0]));
    assert_eq!(outcome.sound(), None);
    assert!(g.world_grid().get_entity(ids[0]).is_some());
}

#[test]
fn sprite_names_of_entities() {
    let (g, ids) = level(2, 2, vec![saw_template(GridPos::new(0, 0), Direction::North, Direction::South)]);
    assert_eq!(entity_sprite_text(g.world_grid(), ids[0]), Some(String::from("Saw")));
    assert_eq!(entity_sprite_text(g.world_grid(), handle(77)), None);
    assert_eq!(entity_sprite_text_default(g.world_grid(), handle(77)), "Unknown");
}

#[test]
fn returning_to_the_menu() {
    let (mut g, _) = level(1, 1, Vec::new());
    assert_eq!(g.planned(), None);
    g.return_to_menu();
    assert_eq!(g.planned(), Some(PlannedGameState::Menu));
}

#[test]
fn drawing_order_follows_depth() {
    let mut w = WorldGrid::new(&WorldInfo::new(4, 4), Vec::new());
    let player = w.spawn_player_at(GridPos::new(0, 0));
    let wall = w.spawn_wall_at(GridPos::new(1, 0), SpriteID::WallHorizontal);
    let crate_id = w.spawn_crate_at(GridPos::new(2, 0));
    let mut hidden = EntityData::empty();
    hidden.position = Some(Position(GridPos::new(3, 3)));
    w.spawn_entity(hidden);
    let queue = render_queue(&w);
    assert_eq!(queue.len(), 3);
    assert_eq!(queue[0].entity, wall);
    assert_eq!(queue[0].z_index, 0);
    assert!(queue[1..].iter().all(|item| item.z_index == 1));
    let mut rest: Vec<EntityId> = queue[1..].iter().map(|item| item.entity).collect();
    rest.sort();
    let mut expected = vec![player, crate_id];
    expected.sort();
    assert_eq!(rest, expected);
    assert_eq!(queue[0].position, GridPos::new(1, 0));
    assert_eq!(queue[0].sprite, SpriteID::WallHorizontal);
}

#[test]
fn equal_depths_are_drawn_in_the_order_the_world_lists_them() {
    let mut w = WorldGrid::new(&WorldInfo::new(4, 4), Vec::new());
    let a = w.spawn_crate_at(GridPos::new(0, 0));
    let b = w.spawn_player_at(GridPos::new(1, 1));
    let c = w.spawn_crate_at(GridPos::new(2, 2));
    let order: Vec<EntityId> = w.entity_ids().into_iter().filter(|k| *k == a || *k == b || *k == c).collect();
    let queue = render_queue(&w);
    let drawn: Vec<EntityId> = queue.iter().map(|item| item.entity).collect();
    assert_eq!(drawn, order);
}

#[test]
fn animations_advance_and_finished_ones_are_dropped() {
    let mut w = WorldGrid::new(&WorldInfo::new(2, 2), Vec::new());
    let p = w.spawn_player_at(GridPos::new(0, 0));
    let kind = AnimationKind::Move { start: Position(GridPos::new(0, 0)), end: Position(GridPos::new(0, 0)) };
    assert!(w.insert_animation(p, Animation::new(kind)));
    update_animations(&mut w, 200);
    assert_eq!(w.get_entity(p).unwrap().animation.unwrap().elapsed_ms(), 200);
    assert!(is_any_animation_active(&w));
    update_animations(&mut w, 300);
    assert!(w.get_entity(p).unwrap().animation.is_none());
    assert!(!w.satisfies(p, ComponentID::Animation));
}

#[test]
fn mark_dead_lists_every_victim_once() {
    let mut w = WorldGrid::new(&WorldInfo::new(3, 3), Vec::new());
    let p = w.spawn_player_at(GridPos::new(1, 1));
    let saw = w.spawn_saw_at(GridPos::new(1, 1), Direction::West, Direction::East);
    let fire = w.spawn_fireball_at(GridPos::new(1, 1), Direction::North);
    let mut events = GameEventManager::new();
    events.add(GameEvent::DoorLock(0));
    mark_dead(&w, &mut events);
    let added = &events.as_slice()[1..];
    assert_eq!(events.as_slice()[0], GameEvent::DoorLock(0));
    assert_eq!(added.len(), 2);
    assert!(added.contains(&GameEvent::EntityDeath { target: p, attacker: saw }));
    assert!(added.contains(&GameEvent::EntityDeath { target: p, attacker: fire }));
}

#[test]
fn deaths_come_attacker_by_attacker_in_world_order() {
    let mut w = WorldGrid::new(&WorldInfo::new(3, 3), Vec::new());
    let p1 = w.spawn_player_at(GridPos::new(1, 1));
    let saw = w.spawn_saw_at(GridPos::new(1, 1), Direction::West, Direction::East);
    let p2 = w.spawn_player_at(GridPos::new(1, 1));
    let fire = w.spawn_fireball_at(GridPos::new(1, 1), Direction::North);
    let mut events = GameEventManager::new();
    mark_dead(&w, &mut events);
    let attackers: Vec<EntityId> = w.entity_ids().into_iter().filter(|k| *k == saw || *k == fire).collect();
    let victims: Vec<EntityId> = w.get_cell(1, 1).unwrap().iter().copied().filter(|k| *k == p1 || *k == p2).collect();
    let mut expected = Vec::new();
    for &attacker in &attackers {
        for &target in &victims {
            expected.push(GameEvent::EntityDeath { target, attacker });
        }
    }
    assert_eq!(events.as_slice(), &expected[..]);
}

#[test]
fn a_turn_takes_one_action_per_entity() {
    let (mut g, ids) = level(6, 6, vec![player_template(GridPos::new(1, 1)), player_template(GridPos::new(4, 4))]);
    let step = ActionKind::Move(MoveOptions::new(Direction::South));
    g.push_player_action(step);
    g.push_player_action(step);
    assert!(g.process_actions());
    for (&id, start) in ids.iter().zip([GridPos::new(1, 1), GridPos::new(4, 4)]) {
        let d = g.world_grid().get_entity(id).unwrap();
        assert_eq!(d.action_queue.unwrap().0.len(), 1);
        assert_eq!(d.position.unwrap().0, GridPos::new(start.x, start.y + 1));
        assert!(d.animation.is_some());
    }
    assert!(g.process_actions());
    assert!(!g.process_actions());
}
