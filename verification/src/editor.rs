//! The level editor: a cursor over the grid, spawning and removing entities.
use vstd::prelude::*;

use crate::components::{
    crate_bundle, door_bundle, downstairs_bundle, fireball_bundle, fireball_thrower_bundle, has_empty_queue,
    player_bundle, pressure_plate_bundle, saw_bundle, wall_bundle, Bouncing, EntityData, Facing, LockKind, Locked,
    Position, Sprite,
};
use crate::geometry::{advance_pos_in_direction, advanced, can_advance, Direction, GridPos};
use crate::grid::{resized_cells, EntityId};
use crate::resources::{is_wall_sprite, sprite_is_wall, SpriteID};
use crate::serialize::WorldInfo;
use crate::world_grid::{
    cells_after_loading, consistent, law_despawn_keeps_consistent, law_loading_is_consistent, law_spawn_keeps_consistent, links, WorldGrid,
};

verus! {

/// The editor's choices for the next entity to spawn.
pub struct EntityInfo {
    pub sprite_id: Option<SpriteID>,
    pub linked_entity: Option<EntityId>,
    pub direction_from: Option<Direction>,
    pub direction_to: Option<Direction>,
}

impl EntityInfo {
    /// Nothing chosen.
    pub fn new() -> (r: EntityInfo)
        ensures
            r.sprite_id is None,
            r.linked_entity is None,
            r.direction_from is None,
            r.direction_to is None,
    {
        EntityInfo { sprite_id: None, linked_entity: None, direction_from: None, direction_to: None }
    }
}

/// Keys the editor reacts to.
#[derive(Clone, Copy, PartialEq, Eq, Debug, Structural)]
pub enum EditorKey {
    W,
    A,
    S,
    D,
    Backspace,
    Other,
}

/// The direction the cursor moves for a key.
pub open spec fn editor_key_direction(key: EditorKey) -> Option<Direction> {
    match key {
        EditorKey::W => Some(Direction::North),
        EditorKey::A => Some(Direction::West),
        EditorKey::S => Some(Direction::South),
        EditorKey::D => Some(Direction::East),
        _ => None,
    }
}

/// The last entity on the cell at `pos`, `None` when it is empty or off the grid.
pub open spec fn last_on_cell(world: WorldGrid, pos: GridPos) -> Option<EntityId> {
    if world.on_grid(pos.x, pos.y) && world.cell_at(pos.x, pos.y).len() > 0 {
        Some(world.cell_at(pos.x, pos.y).last())
    } else {
        None
    }
}

/// `new` is `old` after its selected entity, if any, was despawned and the
/// last entity under the cursor got selected.
pub open spec fn despawned_selected(old: Editor, new: Editor) -> bool {
    &&& new.info() == old.info()
    &&& new.cursor() == old.cursor()
    &&& match old.selected() {
        None => new.world() == old.world() && new.selected() is None,
        Some(e) => WorldGrid::despawned(old.world(), new.world(), e) && new.selected() == last_on_cell(new.world(), new.cursor()),
    }
}

/// `new` is `old` after the key `key` was handled: Backspace despawns the
/// selected entity; W, A, S, D move the cursor north, west, south, east
/// (when the step stays within `u32` coordinates) and select the last
/// entity under it; nothing else changes anything.
pub open spec fn key_handled(old: Editor, new: Editor, key: Option<EditorKey>) -> bool {
    match key {
        Some(EditorKey::Backspace) => despawned_selected(old, new),
        Some(k) if editor_key_direction(k) is Some => {
            let dir = editor_key_direction(k)->Some_0;
            &&& new.info() == old.info()
            &&& new.world() == old.world()
            &&& if can_advance(old.cursor(), dir) {
                new.cursor() == advanced(old.cursor(), dir) && new.selected() == last_on_cell(new.world(), new.cursor())
            } else {
                new.cursor() == old.cursor() && new.selected() == old.selected()
            }
        },
        _ => new.info() == old.info() && new.world() == old.world() && new.cursor() == old.cursor() && new.selected() == old.selected(),
    }
}

/// In the editor, W moves the cursor one row up (staying on row 0), S one
/// row down, A one column left (staying on column 0) and D one column right
/// (staying put at the last `u32` row or column); a moving key changes
/// neither the level nor its description and selects the last entity under
/// the new cursor when the cursor moved. Other keys, but Backspace, change
/// nothing.
pub proof fn law_editor_keys_move_cursor(old: Editor, new: Editor, key: EditorKey)
    requires
        key_handled(old, new, Some(key)),
    ensures
        key == EditorKey::W ==> (new.cursor().x == old.cursor().x
            && new.cursor().y == (if old.cursor().y == 0 { 0 } else { old.cursor().y - 1 })),
        key == EditorKey::S ==> (new.cursor().x == old.cursor().x
            && new.cursor().y == (if old.cursor().y < u32::MAX { old.cursor().y + 1 } else { old.cursor().y as int })),
        key == EditorKey::A ==> (new.cursor().y == old.cursor().y
            && new.cursor().x == (if old.cursor().x == 0 { 0 } else { old.cursor().x - 1 })),
        key == EditorKey::D ==> (new.cursor().y == old.cursor().y
            && new.cursor().x == (if old.cursor().x < u32::MAX { old.cursor().x + 1 } else { old.cursor().x as int })),
        key != EditorKey::Backspace ==> (new.world() == old.world() && new.info() == old.info()),
        (key != EditorKey::Backspace && new.cursor() != old.cursor()) ==> (new.selected() == last_on_cell(new.world(), new.cursor())),
        key == EditorKey::Other ==> (new.cursor() == old.cursor() && new.selected() == old.selected()),
{
}

/// What the editor spawns, by the chosen sprite: an entity with that
/// sprite at the cursor; walls, crates and doors block, the level exit is
/// the only downstairs entity, the player the only player, the crate the
/// only pushable one, saws and fireballs the only deadly ones, and only a
/// door chosen locked is locked; a saw bounces between the two chosen
/// directions, a fireball and its thrower face the chosen direction, a
/// pressure plate is linked to the chosen entity alone, or to none; the
/// kinds that act start with an empty queue.
pub proof fn law_editor_spawns_chosen_kind(info: EntityInfo, pos: GridPos, d: EntityData)
    requires
        chosen_components(info, pos, d),
    ensures
        info.sprite_id is Some,
        d.sprite == Some(Sprite(info.sprite_id->Some_0)),
        d.position == Some(Position(pos)),
        d.on_grid is Some,
        ({
            let id = info.sprite_id->Some_0;
            &&& (d.obstacle is Some <==> !(id == SpriteID::Player || id == SpriteID::PressurePlate || id == SpriteID::Saw
                || id == SpriteID::Fireball || id == SpriteID::FireballThrower || id == SpriteID::DownstairsHorizontalUpper))
            &&& (d.downstairs is Some <==> id == SpriteID::DownstairsHorizontalUpper)
            &&& (d.player is Some <==> id == SpriteID::Player)
            &&& (d.pushable is Some <==> id == SpriteID::Crate)
            &&& (d.causes_death is Some <==> (id == SpriteID::Saw || id == SpriteID::Fireball))
            &&& (d.locked is Some <==> id == SpriteID::DoorLocked)
            &&& (id == SpriteID::Saw ==> d.bouncing == Some(Bouncing { from: info.direction_from->Some_0, to: info.direction_to->Some_0 }))
            &&& ((id == SpriteID::Fireball || id == SpriteID::FireballThrower) ==> d.facing == Some(Facing(info.direction_to->Some_0)))
            &&& ((id == SpriteID::Player || id == SpriteID::Saw || id == SpriteID::Fireball) ==> has_empty_queue(d))
            &&& (!(id == SpriteID::Player || id == SpriteID::Saw || id == SpriteID::Fireball) ==> d.action_queue is None)
            &&& (id == SpriteID::PressurePlate ==> match info.linked_entity {
                None => links(d) is None,
                Some(e) => links(d) matches Some(s) && forall|x: EntityId| #[trigger] s.contains(x) <==> x == e,
            })
            &&& (id != SpriteID::PressurePlate ==> d.linked_entities is None)
        }),
{
}

/// `d` holds the components the editor gives an entity spawned at `pos`
/// with the choices `info`: those of the chosen sprite's kind, with the
/// directions and the linked entity chosen, and a new, empty action queue
/// for the kinds that act.
pub open spec fn chosen_components(info: EntityInfo, pos: GridPos, d: EntityData) -> bool {
    match info.sprite_id {
        None => false,
        Some(id) => if is_wall_sprite(id) {
            d == wall_bundle(pos, id)
        } else {
            match id {
                SpriteID::Crate => d == crate_bundle(pos),
                SpriteID::Player => d == player_bundle(pos, d.action_queue) && has_empty_queue(d),
                SpriteID::DoorLocked => d == (EntityData { locked: Some(Locked(LockKind::Basic)), ..door_bundle(pos, true) }),
                SpriteID::DoorUnlocked => d == door_bundle(pos, false),
                SpriteID::DownstairsHorizontalUpper => d == downstairs_bundle(pos, id),
                SpriteID::PressurePlate => {
                    &&& d == (EntityData { linked_entities: d.linked_entities, ..pressure_plate_bundle(pos) })
                    &&& match info.linked_entity {
                        None => links(d) is None,
                        Some(e) => links(d) matches Some(s) && forall|x: EntityId| #[trigger] s.contains(x) <==> x == e,
                    }
                },
                SpriteID::Saw => info.direction_from is Some && info.direction_to is Some
                    && d == saw_bundle(pos, info.direction_from->Some_0, info.direction_to->Some_0, d.action_queue)
                    && has_empty_queue(d),
                SpriteID::Fireball => info.direction_to is Some
                    && d == fireball_bundle(pos, info.direction_to->Some_0, d.action_queue) && has_empty_queue(d),
                SpriteID::FireballThrower => info.direction_to is Some
                    && d == fireball_thrower_bundle(pos, info.direction_to->Some_0),
                _ => d == wall_bundle(pos, id),
            }
        },
    }
}

/// The state of the level editor.
pub struct Editor {
    pub level_path: String,
    world_grid: WorldGrid,
    world_info: WorldInfo,
    cursor_pos: GridPos,
    selected_entity: Option<EntityId>,
    pub should_capture_keyboard: bool,
    pub is_in_linkage_mode: bool,
    pub entity_info: EntityInfo,
}

impl Editor {
    /// The world matches its description.
    pub closed spec fn wf(self) -> bool {
        &&& self.world_grid.wf()
        &&& self.world_grid.spec_width() == self.world_info.width
        &&& self.world_grid.spec_height() == self.world_info.height
    }

    pub closed spec fn world(self) -> WorldGrid {
        self.world_grid
    }

    pub closed spec fn info(self) -> WorldInfo {
        self.world_info
    }

    pub closed spec fn cursor(self) -> GridPos {
        self.cursor_pos
    }

    pub closed spec fn selected(self) -> Option<EntityId> {
        self.selected_entity
    }

    /// Whether a text field of the editor's window has the keyboard.
    pub closed spec fn capturing(self) -> bool {
        self.should_capture_keyboard
    }

    /// What the next spawned entity will be.
    pub closed spec fn choice(self) -> EntityInfo {
        self.entity_info
    }

    /// The path of the level file typed in the editor's window.
    pub closed spec fn path(self) -> Seq<char> {
        self.level_path@
    }

    /// Whether choosing an entity on the cell links it to the next pressure plate.
    pub closed spec fn linking(self) -> bool {
        self.is_in_linkage_mode
    }

    /// An editor over an empty 0 by 0 level, cursor at the origin.
    pub fn new() -> (r: Editor)
        ensures
            r.wf(),
            r.world().entities() == Map::<EntityId, EntityData>::empty(),
            r.info().format_version == 0,
            r.info().width == 0,
            r.info().height == 0,
            r.cursor() == (GridPos { x: 0, y: 0 }),
            r.selected() is None,
            !r.capturing(),
            !r.linking(),
            r.path() == Seq::<char>::empty(),
            r.choice().sprite_id is None && r.choice().linked_entity is None,
            r.choice().direction_from is None && r.choice().direction_to is None,
    {
        Editor {
            level_path: String::new(),
            world_grid: WorldGrid::default(),
            world_info: WorldInfo::default(),
            cursor_pos: GridPos { x: 0, y: 0 },
            selected_entity: None,
            should_capture_keyboard: false,
            is_in_linkage_mode: false,
            entity_info: EntityInfo::new(),
        }
    }

    pub fn world_grid(&self) -> (r: &WorldGrid)
        ensures
            *r == self.world(),
    {
        &self.world_grid
    }

    pub fn world_info(&self) -> (r: &WorldInfo)
        ensures
            *r == self.info(),
    {
        &self.world_info
    }

    pub fn cursor_pos(&self) -> (r: GridPos)
        ensures
            r == self.cursor(),
    {
        self.cursor_pos
    }

    pub fn selected_entity(&self) -> (r: Option<EntityId>)
        ensures
            r == self.selected(),
    {
        self.selected_entity
    }

    /// Chooses the entity shown as selected.
    pub fn select(&mut self, entity: Option<EntityId>)
        ensures
            final(self).selected() == entity,
            final(self).world() == old(self).world(),
            final(self).info() == old(self).info(),
            final(self).cursor() == old(self).cursor(),
    {
        self.selected_entity = entity;
    }

    /// Replaces the level with a loaded one.
    pub fn load(&mut self, info: WorldInfo, entities: Vec<(EntityId, EntityData)>)
        requires
            info.width * info.height <= u32::MAX,
            forall|i: int| 0 <= i < entities@.len() ==> (#[trigger] entities@[i]).0 >= 0x1_0000_0000u64,
            forall|i: int, j: int| 0 <= i < entities@.len() && 0 <= j < entities@.len() && i != j
                ==> (#[trigger] entities@[i]).0 % 0x1_0000_0000u64 != (#[trigger] entities@[j]).0 % 0x1_0000_0000u64,
        ensures
            final(self).wf(),
            final(self).info() == info,
            final(self).world().entities() == crate::world_grid::entity_map(entities@),
            final(self).cursor() == old(self).cursor(),
            final(self).selected() == old(self).selected(),
            consistent(final(self).world()),
            final(self).world().cells() == cells_after_loading(Seq::new((info.width * info.height) as nat, |i: int| Seq::<EntityId>::empty()), info.width, info.height, entities@),
            final(self).world().spec_width() == info.width,
            final(self).world().spec_height() == info.height,
    {
        let ghost list = entities@;
        self.world_grid = WorldGrid::new(&info, entities);
        proof {
            law_loading_is_consistent(self.world_grid, info, list);
        }
        self.world_info = info;
    }

    /// Changes the level's size and resizes the grid to it.
    pub fn set_world_size(&mut self, width: u32, height: u32)
        requires
            old(self).wf(),
            width * height <= u32::MAX,
        ensures
            final(self).wf(),
            final(self).info().width == width,
            final(self).info().height == height,
            final(self).info().format_version == old(self).info().format_version,
            final(self).world().entities() == old(self).world().entities(),
            final(self).world().cells() == resized_cells(old(self).world().cells(), (width * height) as nat),
            final(self).world().spec_width() == width,
            final(self).world().spec_height() == height,
            final(self).cursor() == old(self).cursor(),
            final(self).selected() == old(self).selected(),
    {
        self.world_info.width = width;
        self.world_info.height = height;
        self.world_grid.resize(width, height);
    }

    /// The last entity on the cell under the cursor.
    pub fn last_entity_under_cursor(&self) -> (r: Option<EntityId>)
        requires
            self.wf(),
        ensures
            r == last_on_cell(self.world(), self.cursor()),
    {
        let cell = match self.world_grid.get_cell(self.cursor_pos.x, self.cursor_pos.y) {
            Some(cell) => cell,
            None => return None,
        };
        if cell.len() == 0 {
            None
        } else {
            Some(cell[cell.len() - 1])
        }
    }

    /// Despawns the selected entity, then selects the last one under the cursor.
    pub fn try_despawn_selected_entity(&mut self)
        requires
            old(self).wf(),
        ensures
            final(self).wf(),
            despawned_selected(*old(self), *final(self)),
            consistent(old(self).world()) ==> consistent(final(self).world()),
    {
        if let Some(entity) = self.selected_entity {
            let ghost w0 = self.world_grid;
            let _ = self.world_grid.despawn_entity(entity);
            proof {
                if consistent(w0) {
                    law_despawn_keeps_consistent(w0, self.world_grid, entity);
                }
            }
            self.selected_entity = self.last_entity_under_cursor();
        }
    }

    /// Reacts to a key: Backspace despawns the selected entity; W, A, S, D
    /// move the cursor north, west, south, east and select the last entity
    /// under it.
    pub fn update_input(&mut self, key: Option<EditorKey>)
        requires
            old(self).wf(),
        ensures
            final(self).wf(),
            key_handled(*old(self), *final(self), key),
            consistent(old(self).world()) ==> consistent(final(self).world()),
    {
        let key = match key {
            Some(k) => k,
            None => return,
        };
        if key == EditorKey::Backspace {
            self.try_despawn_selected_entity();
        }
        let dir = match key {
            EditorKey::W => Direction::North,
            EditorKey::A => Direction::West,
            EditorKey::S => Direction::South,
            EditorKey::D => Direction::East,
            _ => return,
        };
        let advances = match dir {
            Direction::East => self.cursor_pos.x < u32::MAX,
            Direction::South => self.cursor_pos.y < u32::MAX,
            _ => true,
        };
        if !advances {
            return;
        }
        self.cursor_pos = advance_pos_in_direction(self.cursor_pos, dir);
        self.selected_entity = self.last_entity_under_cursor();
    }

    /// Handles a key unless the user is typing in a text field.
    pub fn update(&mut self, ui_wants_input: bool, key: Option<EditorKey>)
        requires
            old(self).wf(),
        ensures
            final(self).wf(),
            final(self).info() == old(self).info(),
            ui_wants_input && old(self).capturing() ==> final(self).world() == old(self).world()
                && final(self).cursor() == old(self).cursor() && final(self).selected() == old(self).selected(),
            !(ui_wants_input && old(self).capturing()) ==> key_handled(*old(self), *final(self), key),
            consistent(old(self).world()) ==> consistent(final(self).world()),
    {
        if ui_wants_input && self.should_capture_keyboard {
            return;
        }
        self.update_input(key);
    }

    /// Spawns at the cursor the entity chosen in `entity_info` and selects
    /// it; nothing happens when no sprite is chosen or a direction it needs
    /// is missing.
    pub fn spawn_chosen_entity(&mut self) -> (r: Option<EntityId>)
        requires
            old(self).wf(),
            old(self).world().entity_count() < u32::MAX,
        ensures
            final(self).wf(),
            final(self).info() == old(self).info(),
            final(self).cursor() == old(self).cursor(),
            r is None ==> final(self).world() == old(self).world() && final(self).selected() == old(self).selected(),
            r matches Some(e) ==> WorldGrid::spawned(old(self).world(), final(self).world(), e, final(self).world().entities()[e])
                && chosen_components(old(self).choice(), old(self).cursor(), final(self).world().entities()[e])
                && final(self).world().entities().dom() == old(self).world().entities().dom().insert(e)
                && final(self).world().entities()[e].position == Some(crate::components::Position(old(self).cursor()))
                && final(self).world().entities()[e].sprite == Some(crate::components::Sprite(old(self).choice().sprite_id->Some_0))
                && final(self).selected() == Some(e),
            r is None <==> (old(self).choice().sprite_id is None
                || (old(self).choice().sprite_id == Some(SpriteID::Fireball) && old(self).choice().direction_to is None)
                || (old(self).choice().sprite_id == Some(SpriteID::FireballThrower) && old(self).choice().direction_to is None)
                || (old(self).choice().sprite_id == Some(SpriteID::Saw) && (old(self).choice().direction_from is None || old(self).choice().direction_to is None))),
            consistent(old(self).world()) ==> consistent(final(self).world()),
    {
        let sprite_id = match self.entity_info.sprite_id {
            Some(id) => id,
            None => return None,
        };
        let pos = self.cursor_pos;
        let spawned = if sprite_is_wall(sprite_id) {
            Some(self.world_grid.spawn_wall_at(pos, sprite_id))
        } else {
            match sprite_id {
                SpriteID::Crate => Some(self.world_grid.spawn_crate_at(pos)),
                SpriteID::Player => Some(self.world_grid.spawn_player_at(pos)),
                SpriteID::DoorLocked => Some(self.world_grid.spawn_door_at(pos, true)),
                SpriteID::DoorUnlocked => Some(self.world_grid.spawn_door_at(pos, false)),
                SpriteID::DownstairsHorizontalUpper => Some(self.world_grid.spawn_downstairs_at(pos, sprite_id)),
                SpriteID::PressurePlate => {
                    let linked = match self.entity_info.linked_entity {
                        Some(e) => {
                            let mut v: Vec<EntityId> = Vec::new();
                            v.push(e);
                            assert(forall|x: EntityId| v@.contains(x) <==> x == e) by {
                                assert(v@[0] == e);
                            }
                            Some(v)
                        },
                        None => None,
                    };
                    let plate = self.world_grid.spawn_pressure_plate(pos, linked);
                    Some(plate)
                },
                SpriteID::Saw => match (self.entity_info.direction_from, self.entity_info.direction_to) {
                    (Some(from), Some(to)) => Some(self.world_grid.spawn_saw_at(pos, from, to)),
                    _ => None,
                },
                SpriteID::Fireball => match self.entity_info.direction_to {
                    Some(dir) => Some(self.world_grid.spawn_fireball_at(pos, dir)),
                    None => None,
                },
                SpriteID::FireballThrower => match self.entity_info.direction_to {
                    Some(dir) => Some(self.world_grid.spawn_fireball_thrower_at(pos, dir)),
                    None => None,
                },
                _ => Some(self.world_grid.spawn_wall_at(pos, sprite_id)),
            }
        };
        if let Some(entity) = spawned {
            proof {
                if consistent(old(self).world()) {
                    law_spawn_keeps_consistent(old(self).world(), self.world_grid, entity, self.world_grid.entities()[entity]);
                }
            }
            self.selected_entity = Some(entity);
        }
        spawned
    }
}

} // verus!
