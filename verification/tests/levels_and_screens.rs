use tekfor_game::components::{
    player_template, ComponentID, EntityData, Facing, OnGrid, Position, Sprite,
};
use tekfor_game::editor::{Editor, EditorKey};
use tekfor_game::geometry::{Direction, GridPos};
use tekfor_game::grid::EntityId;
use tekfor_game::menu::Menu;
use tekfor_game::resources::{sprite_is_wall, SpriteID};
use tekfor_game::serialize::{
    add_bundle, default_format_version, patch_loaded_entities, patch_missing_components,
    MissingMandatoryComponent, WorldInfo, WorldInfoFull, WORLD_FORMAT_VERSION,
};
use tekfor_game::states::{GameState, PlannedGameState};

fn loaded(sprite: SpriteID, pos: GridPos) -> EntityData {
    let mut d = EntityData::empty();
    d.sprite = Some(Sprite(sprite));
    d.position = Some(Position(pos));
    d.on_grid = Some(OnGrid);
    d
}

#[test]
fn world_info_versions() {
    assert_eq!(default_format_version(), 1);
    let info = WorldInfo::new(8, 6);
    assert_eq!(info.format_version(), WORLD_FORMAT_VERSION);
    assert_eq!((info.width, info.height), (8, 6));
    assert!(info.is_supported_format());
    let empty = WorldInfo::default();
    assert_eq!((empty.format_version, empty.width, empty.height), (0, 0, 0));
    assert!(!empty.is_supported_format());
}

#[test]
fn stored_info_is_restated_in_the_current_format() {
    let old = WorldInfo { format_version: 0, width: 3, height: 4 };
    let full = WorldInfoFull::new(old.clone());
    assert!(full.world_bytes.is_empty());
    let info = WorldInfo::from(full);
    assert_eq!((info.format_version, info.width, info.height), (WORLD_FORMAT_VERSION, 3, 4));
}

#[test]
fn templates_for_loaded_sprites() {
    let pos = GridPos::new(2, 3);
    let crate_parts = patch_missing_components(SpriteID::Crate, pos, &loaded(SpriteID::Crate, pos)).unwrap();
    assert!(crate_parts.has_component(ComponentID::Pushable));
    assert_eq!(crate_parts.position, Some(Position(pos)));

    let wall = patch_missing_components(SpriteID::WallVertical, pos, &EntityData::empty()).unwrap();
    assert!(wall.has_component(ComponentID::Obstacle));

    // A saw needs its bouncing directions, fireballs their facing.
    assert!(matches!(
        patch_missing_components(SpriteID::Saw, pos, &EntityData::empty()),
        Err(MissingMandatoryComponent)
    ));
    assert!(matches!(
        patch_missing_components(SpriteID::Fireball, pos, &EntityData::empty()),
        Err(MissingMandatoryComponent)
    ));
    let mut facing = EntityData::empty();
    facing.facing = Some(Facing(Direction::West));
    let thrower = patch_missing_components(SpriteID::FireballThrower, pos, &facing).unwrap();
    assert_eq!(thrower.facing, Some(Facing(Direction::West)));
}

#[test]
fn adding_a_bundle_prefers_the_bundle() {
    let mut d = EntityData::empty();
    d.sprite = Some(Sprite(SpriteID::Crate));
    d.facing = Some(Facing(Direction::North));
    let mut b = EntityData::empty();
    b.sprite = Some(Sprite(SpriteID::Saw));
    let merged = add_bundle(d, b);
    assert_eq!(merged.sprite, Some(Sprite(SpriteID::Saw)));
    assert_eq!(merged.facing, Some(Facing(Direction::North)));
}

#[test]
fn patching_loaded_entities() {
    let a: EntityId = 1 << 32;
    let b: EntityId = (1 << 32) | 1;
    let c: EntityId = (1 << 32) | 2;
    let mut not_on_grid = loaded(SpriteID::Player, GridPos::new(0, 0));
    not_on_grid.on_grid = None;
    let mut entities = vec![
        (a, loaded(SpriteID::Player, GridPos::new(1, 1))),
        (b, loaded(SpriteID::Saw, GridPos::new(2, 2))),
        (c, not_on_grid),
    ];
    let missing = patch_loaded_entities(&mut entities);
    assert_eq!(missing, vec![SpriteID::Saw]);
    assert_eq!(entities.len(), 3);
    assert_eq!(entities[0].0, a);
    assert!(entities[0].1.has_component(ComponentID::Player));
    assert!(entities[0].1.action_queue.as_ref().unwrap().0.is_empty());
    // The saw without directions and the entity off the grid are left as they were.
    assert!(!entities[1].1.has_component(ComponentID::CausesDeath));
    assert!(!entities[2].1.has_component(ComponentID::Player));
    // Patching keeps sprite and position.
    assert_eq!(entities[0].1.sprite, Some(Sprite(SpriteID::Player)));
    assert_eq!(entities[0].1.position, Some(Position(GridPos::new(1, 1))));
}

#[test]
fn sprite_names() {
    assert_eq!(SpriteID::PressurePlate.name(), "PressurePlate");
    assert_eq!(SpriteID::PressurePlate.humanize(), "Pressure plate");
    assert_eq!(SpriteID::DownstairsHorizontalUpper.humanize(), "Downstairs horizontal upper");
    assert_eq!(SpriteID::Saw.humanize(), "Saw");
    assert!(sprite_is_wall(SpriteID::WallVerticalTopEdge));
    assert!(!sprite_is_wall(SpriteID::Crate));
}

#[test]
fn menu_plans_the_next_screen() {
    let mut menu = Menu::default();
    assert_eq!(menu.planned(), None);
    menu.should_start_editor = true;
    assert_eq!(menu.planned(), Some(PlannedGameState::Editor));
    menu.should_start_level = true;
    // Starting a level needs a chosen level.
    assert_eq!(menu.planned(), Some(PlannedGameState::Editor));
    menu.chosen_level = Some(String::from("levels/one.level"));
    assert_eq!(menu.planned(), Some(PlannedGameState::Gameplay(String::from("levels/one.level"))));
}

#[test]
fn game_starts_in_the_menu() {
    assert!(matches!(GameState::default(), GameState::Menu(m) if m.chosen_level.is_none()));
}

#[test]
fn editor_cursor_and_selection() {
    let mut editor = Editor::new();
    assert_eq!(editor.cursor_pos(), GridPos::new(0, 0));
    editor.set_world_size(4, 4);
    assert_eq!((editor.world_info().width, editor.world_info().height), (4, 4));
    assert_eq!(editor.world_grid().width(), 4);

    editor.entity_info.sprite_id = Some(SpriteID::Crate);
    let crate_id = editor.spawn_chosen_entity().unwrap();
    assert_eq!(editor.selected_entity(), Some(crate_id));
    assert_eq!(editor.world_grid().get_cell(0, 0).unwrap(), &[crate_id][..]);

    // Moving the cursor selects the last entity under it.
    editor.update_input(Some(EditorKey::D));
    assert_eq!(editor.cursor_pos(), GridPos::new(1, 0));
    assert_eq!(editor.selected_entity(), None);
    editor.update_input(Some(EditorKey::A));
    assert_eq!(editor.selected_entity(), Some(crate_id));
    // West from column 0 stays.
    editor.update_input(Some(EditorKey::A));
    assert_eq!(editor.cursor_pos(), GridPos::new(0, 0));

    // Backspace despawns the selected entity.
    editor.update_input(Some(EditorKey::Backspace));
    assert!(editor.world_grid().get_entity(crate_id).is_none());
    assert_eq!(editor.selected_entity(), None);

    // Typing in a text field keeps the keys from the editor.
    editor.should_capture_keyboard = true;
    editor.update(true, Some(EditorKey::S));
    assert_eq!(editor.cursor_pos(), GridPos::new(0, 0));
    editor.update(false, Some(EditorKey::S));
    assert_eq!(editor.cursor_pos(), GridPos::new(0, 1));
}

#[test]
fn editor_needs_directions_for_saws_and_fireballs() {
    let mut editor = Editor::new();
    editor.set_world_size(3, 3);
    editor.entity_info.sprite_id = Some(SpriteID::Saw);
    editor.entity_info.direction_to = Some(Direction::East);
    assert_eq!(editor.spawn_chosen_entity(), None);
    editor.entity_info.direction_from = Some(Direction::West);
    let saw = editor.spawn_chosen_entity().unwrap();
    let b = editor.world_grid().get_entity(saw).unwrap().bouncing.unwrap();
    assert_eq!((b.from, b.to), (Direction::West, Direction::East));

    editor.entity_info.sprite_id = Some(SpriteID::PressurePlate);
    editor.entity_info.linked_entity = Some(saw);
    let plate = editor.spawn_chosen_entity().unwrap();
    assert_eq!(editor.world_grid().get_entity(plate).unwrap().linked_entities.unwrap().get(), &vec![saw]);

    editor.entity_info.sprite_id = None;
    assert_eq!(editor.spawn_chosen_entity(), None);
}

#[test]
fn editor_loads_a_level() {
    let mut editor = Editor::new();
    let id: EntityId = (2 << 32) | 5;
    editor.load(WorldInfo::new(5, 5), vec![(id, player_template(GridPos::new(4, 4)))]);
    assert_eq!(editor.world_info().width, 5);
    assert_eq!(editor.world_grid().get_cell(4, 4).unwrap(), &[id][..]);
    assert_eq!(editor.last_entity_under_cursor(), None);
    editor.select(Some(id));
    assert_eq!(editor.selected_entity(), Some(id));
    editor.try_despawn_selected_entity();
    assert!(editor.world_grid().get_entity(id).is_none());
}
