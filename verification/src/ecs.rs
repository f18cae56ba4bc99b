//! The entity store: a `hecs::World` in which every entity carries one
//! `EntityData` record with all of its components.
use vstd::prelude::*;

use crate::components::EntityData;
use crate::grid::EntityId;

verus! {

#[verifier::external_type_specification]
#[verifier::external_body]
pub struct ExWorld(hecs::World);

/// The live entities of a world, each by the bits of its handle, with the
/// `EntityData` record it carries (`None` for an entity without one).
pub uninterp spec fn world_entities(world: hecs::World) -> Map<EntityId, Option<EntityData>>;

/// `hecs::World::new`: an empty world.
#[verifier::external_body]
pub fn world_new() -> (new_world: hecs::World)
    ensures
        world_entities(new_world).dom() == Set::<EntityId>::empty(),
{
    hecs::World::new()
}

/// `hecs::World::spawn`: a new entity carrying `data`. The handle returned
/// belongs to no live entity; `hecs` panics ("too many entities") only when
/// `u32::MAX` entities are live, which `requires` rules out.
#[verifier::external_body]
pub fn world_spawn(world: &mut hecs::World, data: EntityData) -> (id: EntityId)
    requires
        world_entities(*old(world)).dom().finite(),
        world_entities(*old(world)).dom().len() < u32::MAX,
    ensures
        !world_entities(*old(world)).dom().contains(id),
        world_entities(*final(world)) == world_entities(*old(world)).insert(id, Some(data)),
{
    world.spawn((data,)).to_bits().get()
}

/// `hecs::World::spawn_at`: `data` is stored under the handle `id`, whose
/// upper 32 bits (the generation) must not be zero; a live entity with the
/// same lower 32 bits (the index) is despawned first.
#[verifier::external_body]
pub fn world_spawn_at(world: &mut hecs::World, id: EntityId, data: EntityData)
    requires
        id >= 0x1_0000_0000u64,
    ensures
        forall|k: EntityId|
            world_entities(*final(world)).dom().contains(k) <==> (k == id || (world_entities(
                *old(world),
            ).dom().contains(k) && k % 0x1_0000_0000u64 != id % 0x1_0000_0000u64)),
        forall|k: EntityId|
            k != id && #[trigger] world_entities(*final(world)).dom().contains(k) ==> world_entities(
                *final(world),
            )[k] == world_entities(*old(world))[k],
        world_entities(*final(world))[id] == Some(data),
{
    if let Some(entity) = hecs::Entity::from_bits(id) {
        world.spawn_at(entity, (data,));
    }
}

/// `hecs::World::despawn`: removes the entity `id`; true when it was live.
#[verifier::external_body]
pub fn world_despawn(world: &mut hecs::World, id: EntityId) -> (r: bool)
    ensures
        r == world_entities(*old(world)).dom().contains(id),
        world_entities(*final(world)) == world_entities(*old(world)).remove(id),
{
    match hecs::Entity::from_bits(id) {
        Some(entity) => world.despawn(entity).is_ok(),
        None => false,
    }
}

/// `hecs::World::get`: a copy of the record of `id`, `None` when `id` is not
/// live or carries no record. The copy is stated to equal the stored record:
/// `EntityData::clone` copies every component, the action queue and the
/// linked entities element by element, so the two hold the same values.
#[verifier::external_body]
pub fn world_get(world: &hecs::World, id: EntityId) -> (r: Option<EntityData>)
    ensures
        r == (if world_entities(*world).dom().contains(id) {
            world_entities(*world)[id]
        } else {
            None
        }),
{
    let entity = hecs::Entity::from_bits(id)?;
    let record = world.get::<&EntityData>(entity).ok()?;
    Some((*record).clone())
}

/// `hecs::World::insert_one`: replaces the record of the live entity `id`;
/// true when `id` was live, and nothing changes otherwise.
#[verifier::external_body]
pub fn world_insert(world: &mut hecs::World, id: EntityId, data: EntityData) -> (r: bool)
    ensures
        r == world_entities(*old(world)).dom().contains(id),
        r ==> world_entities(*final(world)) == world_entities(*old(world)).insert(id, Some(data)),
        !r ==> world_entities(*final(world)) == world_entities(*old(world)),
{
    match hecs::Entity::from_bits(id) {
        Some(entity) => world.insert_one(entity, data).is_ok(),
        None => false,
    }
}

/// The order in which `hecs::World::iter` walks the live entities of a world:
/// archetype by archetype, and within an archetype in storage order. It is
/// fixed by the world's contents and layout; no clause here says what it is.
pub uninterp spec fn world_order(world: hecs::World) -> Seq<EntityId>;

/// `hecs::World::iter`: the handles of all live entities, each once, in the
/// world's iteration order.
#[verifier::external_body]
pub fn world_ids(world: &hecs::World) -> (r: Vec<EntityId>)
    ensures
        r@ == world_order(*world),
        r@.no_duplicates(),
        forall|k: EntityId| r@.contains(k) <==> world_entities(*world).dom().contains(k),
{
    world.iter().map(|entity_ref| entity_ref.entity().to_bits().get()).collect()
}

} // verus!
