use vstd::prelude::*;

use crate::components::{
    crate_bundle, crate_template, door_bundle, door_template, downstairs_bundle, downstairs_template,
    fireball_bundle, fireball_template, fireball_thrower_bundle, fireball_thrower_template,
    has_empty_queue, player_bundle, player_template, pressure_plate_bundle, pressure_plate_template,
    saw_bundle, saw_template, wall_bundle, wall_template, ActionQueue, Bouncing, EntityData, Facing, Position,
    Script, Sprite, StatefulObjectKind,
};
use crate::geometry::GridPos;
use crate::grid::EntityId;
use crate::resources::{sprite_is_wall, ScriptID, SpriteID};

verus! {

/// Version of the level file format written by this library.
pub const WORLD_FORMAT_VERSION: u16 = 1;

/// The format version assumed for level files that do not state one.
pub fn default_format_version() -> (r: u16)
    ensures
        r == WORLD_FORMAT_VERSION,
{
    WORLD_FORMAT_VERSION
}

/// The size of a level and the version of the format it was stored in.
pub struct WorldInfo {
    pub format_version: u16,
    pub width: u32,
    pub height: u32,
}

impl WorldInfo {
    /// The description of a `width` by `height` level in the current format.
    pub fn new(width: u32, height: u32) -> (r: WorldInfo)
        ensures
            r.format_version == WORLD_FORMAT_VERSION,
            r.width == width,
            r.height == height,
    {
        WorldInfo { format_version: WORLD_FORMAT_VERSION, width, height }
    }

    pub fn format_version(&self) -> (r: u16)
        ensures
            r == self.format_version,
    {
        self.format_version
    }

    /// Whether levels in this format can be loaded.
    pub fn is_supported_format(&self) -> (r: bool)
        ensures
            r == (self.format_version == WORLD_FORMAT_VERSION),
    {
        self.format_version == WORLD_FORMAT_VERSION
    }
}

impl Clone for WorldInfo {
    fn clone(&self) -> (r: WorldInfo)
        ensures
            r == *self,
    {
        WorldInfo { format_version: self.format_version, width: self.width, height: self.height }
    }
}

impl Default for WorldInfo {
    /// An empty description: version 0, size 0 by 0.
    fn default() -> (r: WorldInfo)
        ensures
            r.format_version == 0,
            r.width == 0,
            r.height == 0,
    {
        WorldInfo { format_version: 0, width: 0, height: 0 }
    }
}

/// A level as stored in a file: its description and its encoded entities.
pub struct WorldInfoFull {
    pub info: WorldInfo,
    pub world_bytes: Vec<u8>,
}

impl WorldInfoFull {
    /// A stored level with no entity bytes yet.
    pub fn new(info: WorldInfo) -> (r: WorldInfoFull)
        ensures
            r.info == info,
            r.world_bytes@ == Seq::<u8>::empty(),
    {
        WorldInfoFull { info, world_bytes: Vec::new() }
    }
}

impl From<WorldInfoFull> for WorldInfo {
    /// The description of a stored level, restated in the current format.
    fn from(full: WorldInfoFull) -> (r: WorldInfo) {
        WorldInfo::new(full.info.width, full.info.height)
    }
}

impl vstd::std_specs::convert::FromSpecImpl<WorldInfoFull> for WorldInfo {
    open spec fn obeys_from_spec() -> bool {
        true
    }

    open spec fn from_spec(full: WorldInfoFull) -> WorldInfo {
        WorldInfo { format_version: WORLD_FORMAT_VERSION, width: full.info.width, height: full.info.height }
    }
}


/// `d` with every component that `bundle` has taken from `bundle`.
pub open spec fn merged(d: EntityData, bundle: EntityData) -> EntityData {
    EntityData {
        animation: if bundle.animation is Some { bundle.animation } else { d.animation },
        action_queue: if bundle.action_queue is Some { bundle.action_queue } else { d.action_queue },
        stateful: if bundle.stateful is Some { bundle.stateful } else { d.stateful },
        position: if bundle.position is Some { bundle.position } else { d.position },
        z_index: if bundle.z_index is Some { bundle.z_index } else { d.z_index },
        sprite: if bundle.sprite is Some { bundle.sprite } else { d.sprite },
        script: if bundle.script is Some { bundle.script } else { d.script },
        facing: if bundle.facing is Some { bundle.facing } else { d.facing },
        locked: if bundle.locked is Some { bundle.locked } else { d.locked },
        movable: if bundle.movable is Some { bundle.movable } else { d.movable },
        pushable: if bundle.pushable is Some { bundle.pushable } else { d.pushable },
        on_grid: if bundle.on_grid is Some { bundle.on_grid } else { d.on_grid },
        solid: if bundle.solid is Some { bundle.solid } else { d.solid },
        player: if bundle.player is Some { bundle.player } else { d.player },
        bouncing: if bundle.bouncing is Some { bundle.bouncing } else { d.bouncing },
        causes_death: if bundle.causes_death is Some { bundle.causes_death } else { d.causes_death },
        mortal: if bundle.mortal is Some { bundle.mortal } else { d.mortal },
        obstacle: if bundle.obstacle is Some { bundle.obstacle } else { d.obstacle },
        downstairs: if bundle.downstairs is Some { bundle.downstairs } else { d.downstairs },
        linked_entities: if bundle.linked_entities is Some { bundle.linked_entities } else { d.linked_entities },
        intelligent: if bundle.intelligent is Some { bundle.intelligent } else { d.intelligent },
    }
}

/// `first` when it is present, otherwise `second`.
fn prefer<T>(first: Option<T>, second: Option<T>) -> (r: Option<T>)
    ensures
        r == if first is Some { first } else { second },
{
    match first {
        Some(x) => Some(x),
        None => second,
    }
}

/// `d` with the components of `bundle` added, replacing those it already has.
pub fn add_bundle(d: EntityData, bundle: EntityData) -> (r: EntityData)
    ensures
        r == merged(d, bundle),
{
    EntityData {
        animation: prefer(bundle.animation, d.animation),
        action_queue: prefer(bundle.action_queue, d.action_queue),
        stateful: prefer(bundle.stateful, d.stateful),
        position: prefer(bundle.position, d.position),
        z_index: prefer(bundle.z_index, d.z_index),
        sprite: prefer(bundle.sprite, d.sprite),
        script: prefer(bundle.script, d.script),
        facing: prefer(bundle.facing, d.facing),
        locked: prefer(bundle.locked, d.locked),
        movable: prefer(bundle.movable, d.movable),
        pushable: prefer(bundle.pushable, d.pushable),
        on_grid: prefer(bundle.on_grid, d.on_grid),
        solid: prefer(bundle.solid, d.solid),
        player: prefer(bundle.player, d.player),
        bouncing: prefer(bundle.bouncing, d.bouncing),
        causes_death: prefer(bundle.causes_death, d.causes_death),
        mortal: prefer(bundle.mortal, d.mortal),
        obstacle: prefer(bundle.obstacle, d.obstacle),
        downstairs: prefer(bundle.downstairs, d.downstairs),
        linked_entities: prefer(bundle.linked_entities, d.linked_entities),
        intelligent: prefer(bundle.intelligent, d.intelligent),
    }
}

/// The components a loaded entity with sprite `id` at `pos` must have, with
/// `queue` standing for its action queue; `None` when a component they are
/// built from (directions of saws and fireballs) is missing.
pub open spec fn template_for(id: SpriteID, pos: GridPos, d: EntityData, queue: Option<ActionQueue>) -> Option<EntityData> {
    match id {
        SpriteID::Crate => Some(crate_bundle(pos)),
        SpriteID::Player => Some(player_bundle(pos, queue)),
        SpriteID::DoorUnlocked => Some(door_bundle(pos, false)),
        SpriteID::DoorLocked => Some(door_bundle(pos, true)),
        SpriteID::DownstairsHorizontalUpper => Some(downstairs_bundle(pos, id)),
        SpriteID::PressurePlate => Some(pressure_plate_bundle(pos)),
        SpriteID::Saw => match d.bouncing {
            Some(b) => Some(saw_bundle(pos, b.from, b.to, queue)),
            None => None,
        },
        SpriteID::Fireball => match d.facing {
            Some(f) => Some(fireball_bundle(pos, f.0, queue)),
            None => None,
        },
        SpriteID::FireballThrower => match d.facing {
            Some(f) => Some(fireball_thrower_bundle(pos, f.0)),
            None => None,
        },
        _ => Some(wall_bundle(pos, id)),
    }
}

/// Whether the template for `id` brings a new action queue.
pub open spec fn template_has_queue(id: SpriteID) -> bool {
    id == SpriteID::Player || id == SpriteID::Saw || id == SpriteID::Fireball
}

/// A component the template of a loaded entity is built from is missing.
#[derive(Clone, Copy, PartialEq, Eq, Debug, Structural)]
pub struct MissingMandatoryComponent;

/// The components the template of sprite `sprite_id` gives an entity at
/// `pos` whose saved components are `entity`.
pub fn patch_missing_components(sprite_id: SpriteID, pos: GridPos, entity: &EntityData) -> (r: Result<EntityData, MissingMandatoryComponent>)
    ensures
        r is Ok <==> template_for(sprite_id, pos, *entity, None) is Some,
        r matches Ok(b) ==> b == template_for(sprite_id, pos, *entity, b.action_queue)->Some_0,
        r matches Ok(b) ==> (template_has_queue(sprite_id) ==> has_empty_queue(b)),
{
    if sprite_is_wall(sprite_id) {
        return Ok(wall_template(pos, sprite_id));
    }
    match sprite_id {
        SpriteID::Crate => Ok(crate_template(pos)),
        SpriteID::Player => Ok(player_template(pos)),
        SpriteID::DoorUnlocked => Ok(door_template(pos, false)),
        SpriteID::DoorLocked => Ok(door_template(pos, true)),
        SpriteID::DownstairsHorizontalUpper => Ok(downstairs_template(pos, sprite_id)),
        SpriteID::PressurePlate => Ok(pressure_plate_template(pos)),
        SpriteID::Saw => match entity.bouncing {
            Some(b) => Ok(saw_template(pos, b.from, b.to)),
            None => Err(MissingMandatoryComponent),
        },
        SpriteID::Fireball => match entity.facing {
            Some(f) => Ok(fireball_template(pos, f.0)),
            None => Err(MissingMandatoryComponent),
        },
        SpriteID::FireballThrower => match entity.facing {
            Some(f) => Ok(fireball_thrower_template(pos, f.0)),
            None => Err(MissingMandatoryComponent),
        },
        _ => Ok(wall_template(pos, sprite_id)),
    }
}

/// Whether a loaded entity gets its template: it has a sprite, a position and is on the grid.
pub open spec fn needs_patch(d: EntityData) -> bool {
    d.sprite is Some && d.position is Some && d.on_grid is Some
}

/// `after` is the loaded entity `before` once its template is added.
pub open spec fn patched(before: EntityData, after: EntityData) -> bool {
    if needs_patch(before) && template_for(before.sprite.unwrap().0, before.position.unwrap().0, before, None) is Some {
        let t = template_for(before.sprite.unwrap().0, before.position.unwrap().0, before, after.action_queue)->Some_0;
        &&& after == merged(before, t)
        &&& template_has_queue(before.sprite.unwrap().0) ==> has_empty_queue(after)
    } else {
        after == before
    }
}

/// Gives every loaded entity that stands on the grid with a sprite the
/// components its sprite's template has; returns the sprites of the
/// entities whose template could not be built, in order.
pub fn patch_loaded_entities(entities: &mut Vec<(EntityId, EntityData)>) -> (r: Vec<SpriteID>)
    ensures
        final(entities)@.len() == old(entities)@.len(),
        forall|i: int| 0 <= i < final(entities)@.len() ==> (#[trigger] final(entities)@[i]).0 == old(entities)@[i].0
            && patched(old(entities)@[i].1, final(entities)@[i].1),
        r@ == old(entities)@.filter(|e: (EntityId, EntityData)| needs_patch(e.1) && template_for(e.1.sprite.unwrap().0, e.1.position.unwrap().0, e.1, None) is None).map_values(|e: (EntityId, EntityData)| e.1.sprite.unwrap().0),
{
    let ghost start = entities@;
    let mut missing: Vec<SpriteID> = Vec::new();
    let mut rest: Vec<(EntityId, EntityData)> = Vec::new();
    std::mem::swap(&mut rest, entities);
    let mut taken: Vec<(EntityId, EntityData)> = Vec::new();
    while rest.len() > 0
        invariant
            taken@ + rest@.reverse() == start.reverse(),
        decreases rest@.len(),
    {
        let ghost before = rest@;
        let item = rest.pop().unwrap();
        assert(before == rest@.push(item));
        taken.push(item);
        assert(taken@ + rest@.reverse() =~= start.reverse()) by {
            assert(before.reverse() =~= seq![item] + rest@.reverse());
        }
    }
    assert(taken@ =~= start.reverse());
    let n: usize = taken.len();
    let mut i: usize = 0;
    while i < n
        invariant
            n == start.len(),
            i <= n,
            taken@.len() == n - i,
            forall|j: int| 0 <= j < n - i ==> taken@[j] == start[n - 1 - j],
            entities@.len() == i,
            forall|j: int| 0 <= j < i ==> (#[trigger] entities@[j]).0 == start[j].0 && patched(start[j].1, entities@[j].1),
            missing@ == start.take(i as int).filter(|e: (EntityId, EntityData)| needs_patch(e.1) && template_for(e.1.sprite.unwrap().0, e.1.position.unwrap().0, e.1, None) is None).map_values(|e: (EntityId, EntityData)| e.1.sprite.unwrap().0),
        decreases n - i,
    {
        let (id, mut d) = taken.pop().unwrap();
        let ghost d0 = d;
        assert((id, d0) == start[i as int]);
        proof {
            reveal_with_fuel(Seq::<_>::filter, 1);
            assert(start.take(i + 1).drop_last() =~= start.take(i as int));
            assert(start.take(i + 1).last() == start[i as int]);
        }
        let ghost filter_before = start.take(i as int).filter(|e: (EntityId, EntityData)| needs_patch(e.1) && template_for(e.1.sprite.unwrap().0, e.1.position.unwrap().0, e.1, None) is None);
        let mut target: Option<(SpriteID, GridPos)> = None;
        if d.on_grid.is_some() {
            match (d.sprite, d.position) {
                (Some(sprite), Some(p)) => {
                    target = Some((sprite.0, p.0));
                },
                _ => {},
            }
        }
        match target {
            Some((sprite_id, pos)) => {
                match patch_missing_components(sprite_id, pos, &d) {
                    Ok(bundle) => {
                        d = add_bundle(d, bundle);
                    },
                    Err(_) => {
                        missing.push(sprite_id);
                        proof {
                            assert(missing@ =~= filter_before.push((id, d0)).map_values(|e: (EntityId, EntityData)| e.1.sprite.unwrap().0));
                        }
                    },
                }
            },
            None => {},
        }
        entities.push((id, d));
        i = i + 1;
    }
    assert(start.take(n as int) =~= start);
    missing
}

/// Patching a loaded entity keeps its sprite and its position.
pub proof fn law_patch_keeps_sprite_and_position(before: EntityData, after: EntityData)
    requires
        patched(before, after),
    ensures
        after.sprite == before.sprite,
        after.position == before.position,
{
}

/// What a loaded entity becomes, by its sprite: it keeps its sprite and
/// stands on the grid at its position; walls, crates and doors block, the
/// level exit is the only downstairs entity, the player the only player,
/// the crate the only pushable one, saws and fireballs the only deadly ones;
/// each kind gets its own script; saws keep their bouncing directions and
/// fireballs and throwers their facing, and without those the entity cannot
/// be loaded; the kinds that act take the given action queue.
pub proof fn law_loaded_entity_by_sprite(id: SpriteID, pos: GridPos, d: EntityData, queue: Option<ActionQueue>)
    ensures
        template_for(id, pos, d, queue) is None <==> ((id == SpriteID::Saw && d.bouncing is None)
            || ((id == SpriteID::Fireball || id == SpriteID::FireballThrower) && d.facing is None)),
        template_for(id, pos, d, queue) matches Some(e) ==> {
            &&& e.sprite == Some(Sprite(id))
            &&& e.position == Some(Position(pos))
            &&& e.on_grid is Some
            &&& (e.obstacle is Some <==> !(id == SpriteID::Player || id == SpriteID::PressurePlate || id == SpriteID::Saw
                || id == SpriteID::Fireball || id == SpriteID::FireballThrower || id == SpriteID::DownstairsHorizontalUpper))
            &&& (e.downstairs is Some <==> id == SpriteID::DownstairsHorizontalUpper)
            &&& (e.player is Some <==> id == SpriteID::Player)
            &&& (e.pushable is Some <==> id == SpriteID::Crate)
            &&& (e.causes_death is Some <==> (id == SpriteID::Saw || id == SpriteID::Fireball))
            &&& (e.movable is Some <==> (id == SpriteID::Player || id == SpriteID::Crate || id == SpriteID::Saw || id == SpriteID::Fireball))
            &&& (e.stateful is Some <==> (id == SpriteID::DoorLocked || id == SpriteID::DoorUnlocked))
            &&& ((id == SpriteID::DoorLocked || id == SpriteID::DoorUnlocked) ==> e.stateful == Some(StatefulObjectKind::Door))
            &&& e.script == match id {
                SpriteID::Saw => Some(Script(ScriptID::Saw)),
                SpriteID::Fireball => Some(Script(ScriptID::Fireball)),
                SpriteID::FireballThrower => Some(Script(ScriptID::FireballThrower)),
                SpriteID::PressurePlate => Some(Script(ScriptID::PressurePlate)),
                SpriteID::DoorLocked => Some(Script(ScriptID::Door)),
                SpriteID::DoorUnlocked => Some(Script(ScriptID::Door)),
                SpriteID::DownstairsHorizontalUpper => Some(Script(ScriptID::Downstairs)),
                _ => None,
            }
            &&& (id == SpriteID::Saw ==> e.bouncing == d.bouncing)
            &&& (id != SpriteID::Saw ==> e.bouncing is None)
            &&& ((id == SpriteID::Fireball || id == SpriteID::FireballThrower) ==> e.facing == d.facing)
            &&& ((id == SpriteID::Player || id == SpriteID::Saw || id == SpriteID::Fireball) ==> e.action_queue == queue)
            &&& (!(id == SpriteID::Player || id == SpriteID::Saw || id == SpriteID::Fireball) ==> e.action_queue is None)
            &&& e.locked is None
            &&& e.linked_entities is None
        },
{
}

} // verus!
