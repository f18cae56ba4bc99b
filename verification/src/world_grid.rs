//! The game world: the entity store and the grid that tells which entities
//! stand on which cell.
use vstd::prelude::*;

use crate::components::{
    crate_bundle, crate_template, door_bundle, door_template, downstairs_bundle, downstairs_template,
    fireball_bundle, fireball_template, fireball_thrower_bundle, fireball_thrower_template,
    has_empty_queue, player_bundle, player_template, pressure_plate_bundle, pressure_plate_template,
    saw_bundle, saw_template, wall_bundle, wall_template, ActionKind, Animation, AnimationKind, Bouncing, ComponentID,
    EntityData, LinkedEntities, LockKind, Locked, Position,
};
use crate::ecs::{
    world_despawn, world_entities, world_get, world_ids, world_insert, world_new, world_order, world_spawn, world_spawn_at,
};
use crate::geometry::{Direction, GridPos};
use crate::resources::SpriteID;
use crate::grid::{
    cell_index, cells_with, cells_without, in_bounds, law_take_off_leaves_no_trace, law_take_off_undoes_put,
    lemma_cell_index_in_range, lemma_cell_index_injective, lemma_filter_absent, other_than, resized_cells, EntityId, Grid,
};
use crate::serialize::WorldInfo;

verus! {

/// The cells after `entity` arrives on `pos`; nothing changes off the grid.
pub open spec fn placed(cells: Seq<Seq<EntityId>>, width: u32, height: u32, entity: EntityId, pos: GridPos) -> Seq<Seq<EntityId>> {
    if in_bounds(width, height, pos.x, pos.y) {
        cells_with(cells, cell_index(width, pos.x, pos.y), entity)
    } else {
        cells
    }
}

/// The cells after `entity` leaves `pos`; nothing changes off the grid.
pub open spec fn unplaced(cells: Seq<Seq<EntityId>>, width: u32, height: u32, entity: EntityId, pos: GridPos) -> Seq<Seq<EntityId>> {
    if in_bounds(width, height, pos.x, pos.y) {
        cells_without(cells, cell_index(width, pos.x, pos.y), entity)
    } else {
        cells
    }
}

/// The position of an entity that is tracked by the grid.
pub open spec fn grid_position(d: EntityData) -> Option<GridPos> {
    if d.on_grid is Some && d.position is Some {
        Some(d.position.unwrap().0)
    } else {
        None
    }
}

/// The records of a list of entities; a later entry wins.
pub open spec fn entity_map(list: Seq<(EntityId, EntityData)>) -> Map<EntityId, EntityData>
    decreases list.len(),
{
    if list.len() == 0 {
        Map::empty()
    } else {
        entity_map(list.drop_last()).insert(list.last().0, list.last().1)
    }
}

/// The cells after each entity of `list` that has a position is put on it, in order.
pub open spec fn cells_after_loading(cells: Seq<Seq<EntityId>>, width: u32, height: u32, list: Seq<(EntityId, EntityData)>) -> Seq<Seq<EntityId>>
    decreases list.len(),
{
    if list.len() == 0 {
        cells
    } else {
        let prev = cells_after_loading(cells, width, height, list.drop_last());
        match list.last().1.position {
            Some(p) => placed(prev, width, height, list.last().0, p.0),
            None => prev,
        }
    }
}

/// The linked entities of a record, as a sequence.
pub open spec fn links(d: EntityData) -> Option<Seq<EntityId>> {
    match d.linked_entities {
        Some(l) => Some(l.view()),
        None => None,
    }
}

/// `after` is `before` with `entity` taken out of its linked entities.
pub open spec fn unlinked_from(before: EntityData, after: EntityData, entity: EntityId) -> bool {
    &&& after == EntityData { linked_entities: after.linked_entities, ..before }
    &&& links(after) == match links(before) {
        Some(s) => Some(s.filter(other_than(entity))),
        None => None,
    }
}

/// The entity could not be found.
#[derive(Clone, Copy, PartialEq, Eq, Debug, Structural)]
pub struct NoSuchEntity;

/// The entities of a level and the grid of cells they stand on.
pub struct WorldGrid {
    grid: Grid,
    world: hecs::World,
}

impl WorldGrid {
    /// The grid is well formed and every live entity carries a record.
    pub closed spec fn wf(self) -> bool {
        &&& self.grid.wf()
        &&& world_entities(self.world).dom().finite()
        &&& forall|k: EntityId| #[trigger] world_entities(self.world).dom().contains(k) ==> world_entities(self.world)[k] is Some
    }

    /// The live entities and their components.
    pub closed spec fn entities(self) -> Map<EntityId, EntityData> {
        Map::new(|k: EntityId| world_entities(self.world).dom().contains(k), |k: EntityId| world_entities(self.world)[k]->Some_0)
    }

    /// The order in which the world lists its live entities.
    pub closed spec fn order(self) -> Seq<EntityId> {
        world_order(self.world)
    }

    /// The entities standing on each cell, row by row.
    pub closed spec fn cells(self) -> Seq<Seq<EntityId>> {
        self.grid.cells()
    }

    pub closed spec fn spec_width(self) -> u32 {
        self.grid.spec_width()
    }

    pub closed spec fn spec_height(self) -> u32 {
        self.grid.spec_height()
    }

    /// The entities on cell `(x, y)`.
    pub open spec fn cell_at(self, x: u32, y: u32) -> Seq<EntityId> {
        self.cells()[cell_index(self.spec_width(), x, y)]
    }

    /// Whether `(x, y)` lies on the grid.
    pub open spec fn on_grid(self, x: u32, y: u32) -> bool {
        in_bounds(self.spec_width(), self.spec_height(), x, y)
    }

    /// Whether the live entity `id` has component `c`.
    pub open spec fn spec_satisfies(self, id: EntityId, c: ComponentID) -> bool {
        self.entities().dom().contains(id) && self.entities()[id].has(c)
    }

    /// What `wf` gives to callers outside this module.
    pub proof fn lemma_wf(self)
        requires
            self.wf(),
        ensures
            self.entities().dom().finite(),
            self.spec_width() * self.spec_height() <= u32::MAX,
            self.cells().len() == self.spec_width() * self.spec_height(),
            forall|i: int| 0 <= i < self.cells().len() ==> (#[trigger] self.cells()[i]).no_duplicates(),
    {
        self.grid.lemma_wf();
        assert(self.entities().dom() =~= world_entities(self.world).dom());
    }

    proof fn lemma_entities_after_insert(self, new: hecs::World, id: EntityId, data: EntityData)
        requires
            self.wf(),
            world_entities(new) == world_entities(self.world).insert(id, Some(data)),
        ensures
            (WorldGrid { grid: self.grid, world: new }).entities() == self.entities().insert(id, data),
            (WorldGrid { grid: self.grid, world: new }).wf(),
    {
        let n = WorldGrid { grid: self.grid, world: new };
        assert(n.entities() =~= self.entities().insert(id, data));
    }

    /// A world holding `entities` (each under its own handle) on a grid of
    /// the size `info` gives; every entity with a position is put on its cell.
    pub fn new(info: &WorldInfo, entities: Vec<(EntityId, EntityData)>) -> (r: WorldGrid)
        requires
            info.width * info.height <= u32::MAX,
            forall|i: int| 0 <= i < entities@.len() ==> (#[trigger] entities@[i]).0 >= 0x1_0000_0000u64,
            forall|i: int, j: int| 0 <= i < entities@.len() && 0 <= j < entities@.len() && i != j
                ==> (#[trigger] entities@[i]).0 % 0x1_0000_0000u64 != (#[trigger] entities@[j]).0 % 0x1_0000_0000u64,
        ensures
            r.wf(),
            r.spec_width() == info.width,
            r.spec_height() == info.height,
            r.entities() == entity_map(entities@),
            r.cells() == cells_after_loading(Seq::new((info.width * info.height) as nat, |i: int| Seq::<EntityId>::empty()), info.width, info.height, entities@),
    {
        let ghost list = entities@;
        let mut grid = Grid::new(info.width, info.height);
        let mut world = world_new();
        let ghost empty_cells = grid.cells();
        let mut entities = entities;
        let mut rest: Vec<(EntityId, EntityData)> = Vec::new();
        // Process in the given order: reverse into `rest`, then pop.
        while entities.len() > 0
            invariant
                rest@ + entities@.reverse() == list.reverse(),
            decreases entities@.len(),
        {
            let ghost before = entities@;
            let item = entities.pop().unwrap();
            assert(before == entities@.push(item));
            rest.push(item);
            assert(rest@ + entities@.reverse() =~= list.reverse()) by {
                assert(before.reverse() =~= seq![item] + entities@.reverse());
            }
        }
        assert(rest@ =~= list.reverse());
        let n: usize = rest.len();
        let mut i: usize = 0;
        while i < n
            invariant
                n == list.len(),
                i <= n,
                rest@.len() == n - i,
                forall|j: int| 0 <= j < n - i ==> rest@[j] == list[n - 1 - j],
                forall|j: int| 0 <= j < list.len() ==> (#[trigger] list[j]).0 >= 0x1_0000_0000u64,
                forall|a: int, b: int| 0 <= a < list.len() && 0 <= b < list.len() && a != b
                    ==> (#[trigger] list[a]).0 % 0x1_0000_0000u64 != (#[trigger] list[b]).0 % 0x1_0000_0000u64,
                grid.wf(),
                grid.spec_width() == info.width,
                grid.spec_height() == info.height,
                grid.cells() == cells_after_loading(empty_cells, info.width, info.height, list.take(i as int)),
                world_entities(world).dom().finite(),
                forall|k: EntityId| #[trigger] world_entities(world).dom().contains(k) ==> world_entities(world)[k] is Some,
                Map::new(|k: EntityId| world_entities(world).dom().contains(k), |k: EntityId| world_entities(world)[k]->Some_0) == entity_map(list.take(i as int)),
                forall|k: EntityId| #[trigger] world_entities(world).dom().contains(k) ==> exists|j: int| 0 <= j < i && list[j].0 == k,
            decreases n - i,
        {
            let (id, data) = rest.pop().unwrap();
            assert((id, data) == list[i as int]);
            let pos = match &data.position {
                Some(p) => Some(p.0),
                None => None,
            };
            let ghost old_world = world;
            let ghost old_map = Map::new(|k: EntityId| world_entities(old_world).dom().contains(k), |k: EntityId| world_entities(old_world)[k]->Some_0);
            world_spawn_at(&mut world, id, data);
            proof {
                assert forall|k: EntityId| world_entities(world).dom().contains(k) <==> (k == id || world_entities(old_world).dom().contains(k)) by {
                    if world_entities(old_world).dom().contains(k) && k != id {
                        let j = choose|j: int| 0 <= j < i && list[j].0 == k;
                        assert(list[j].0 % 0x1_0000_0000u64 != list[i as int].0 % 0x1_0000_0000u64);
                    }
                }
                assert(world_entities(world).dom() =~= world_entities(old_world).dom().insert(id));
                assert(list.take(i + 1).drop_last() =~= list.take(i as int));
                assert(list.take(i + 1).last() == (id, data));
                let new_map = Map::new(|k: EntityId| world_entities(world).dom().contains(k), |k: EntityId| world_entities(world)[k]->Some_0);
                assert(new_map =~= old_map.insert(id, data));
                assert forall|k: EntityId| #[trigger] world_entities(world).dom().contains(k) implies exists|j: int| 0 <= j < i + 1 && list[j].0 == k by {
                    if k != id {
                        let j = choose|j: int| 0 <= j < i && list[j].0 == k;
                        assert(0 <= j < i + 1 && list[j].0 == k);
                    } else {
                        assert(list[i as int].0 == k);
                    }
                }
            }
            if let Some(p) = pos {
                grid.add_to_cell(id, p.x, p.y);
            }
            i = i + 1;
        }
        assert(list.take(n as int) =~= list);
        WorldGrid { grid, world }
    }

    /// An empty 0 by 0 world.
    pub fn default() -> (r: WorldGrid)
        ensures
            r.wf(),
            r.spec_width() == 0,
            r.spec_height() == 0,
            r.entities() == Map::<EntityId, EntityData>::empty(),
    {
        let r = WorldGrid { grid: Grid::new(0, 0), world: world_new() };
        assert(r.entities() =~= Map::<EntityId, EntityData>::empty());
        r
    }

    pub fn width(&self) -> (r: u32)
        requires
            self.wf(),
        ensures
            r == self.spec_width(),
    {
        self.grid.width()
    }

    pub fn height(&self) -> (r: u32)
        requires
            self.wf(),
        ensures
            r == self.spec_height(),
    {
        self.grid.height()
    }

    /// Changes the grid's dimensions (see `Grid::resize`); entities are untouched.
    pub fn resize(&mut self, new_width: u32, new_height: u32)
        requires
            old(self).wf(),
            new_width * new_height <= u32::MAX,
        ensures
            final(self).wf(),
            final(self).spec_width() == new_width,
            final(self).spec_height() == new_height,
            final(self).cells() == resized_cells(old(self).cells(), (new_width * new_height) as nat),
            final(self).entities() == old(self).entities(),
    {
        self.grid.resize(new_width, new_height);
    }

    /// The entities on cell `(x, y)`, or `None` off the grid.
    pub fn get_cell(&self, x: u32, y: u32) -> (r: Option<&[EntityId]>)
        requires
            self.wf(),
        ensures
            self.on_grid(x, y) ==> (r matches Some(s) && s@ == self.cell_at(x, y)),
            !self.on_grid(x, y) ==> r is None,
    {
        self.grid.get_cell(x, y)
    }

    /// A copy of the entities on cell `(x, y)`, or `None` off the grid.
    pub fn get_cell_owned(&self, x: u32, y: u32) -> (r: Option<Vec<EntityId>>)
        requires
            self.wf(),
        ensures
            self.on_grid(x, y) ==> (r matches Some(s) && s@ == self.cell_at(x, y)),
            !self.on_grid(x, y) ==> r is None,
    {
        self.grid.get_cell_owned(x, y)
    }

    /// Puts `entity` on cell `(x, y)` (see `Grid::add_to_cell`).
    pub fn add_to_cell(&mut self, entity: EntityId, x: u32, y: u32)
        requires
            old(self).wf(),
        ensures
            final(self).wf(),
            final(self).spec_width() == old(self).spec_width(),
            final(self).spec_height() == old(self).spec_height(),
            final(self).cells() == placed(old(self).cells(), old(self).spec_width(), old(self).spec_height(), entity, GridPos { x, y }),
            final(self).entities() == old(self).entities(),
    {
        self.grid.add_to_cell(entity, x, y);
    }

    /// Takes `entity` off cell `(x, y)` (see `Grid::remove_from_cell`).
    pub fn remove_from_cell(&mut self, entity: EntityId, x: u32, y: u32)
        requires
            old(self).wf(),
        ensures
            final(self).wf(),
            final(self).spec_width() == old(self).spec_width(),
            final(self).spec_height() == old(self).spec_height(),
            final(self).cells() == unplaced(old(self).cells(), old(self).spec_width(), old(self).spec_height(), entity, GridPos { x, y }),
            final(self).entities() == old(self).entities(),
    {
        self.grid.remove_from_cell(entity, x, y);
    }

    /// The number of live entities.
    pub open spec fn entity_count(self) -> nat {
        self.entities().dom().len()
    }

    /// Adds an entity with the components of `data`; when it is on the grid
    /// and has a position, it is put on that cell.
    pub fn spawn_entity(&mut self, data: EntityData) -> (id: EntityId)
        requires
            old(self).wf(),
            old(self).entity_count() < u32::MAX,
        ensures
            final(self).wf(),
            !old(self).entities().dom().contains(id),
            final(self).entities() == old(self).entities().insert(id, data),
            final(self).spec_width() == old(self).spec_width(),
            final(self).spec_height() == old(self).spec_height(),
            final(self).cells() == match grid_position(data) {
                Some(p) => placed(old(self).cells(), old(self).spec_width(), old(self).spec_height(), id, p),
                None => old(self).cells(),
            },
    {
        proof {
            assert(self.entities().dom() =~= world_entities(self.world).dom());
        }
        let pos = if data.on_grid.is_some() {
            match &data.position {
                Some(p) => Some(p.0),
                None => None,
            }
        } else {
            None
        };
        let ghost old_self = *self;
        let id = world_spawn(&mut self.world, data);
        proof {
            old_self.lemma_entities_after_insert(self.world, id, data);
        }
        if let Some(p) = pos {
            self.grid.add_to_cell(id, p.x, p.y);
        }
        id
    }

    /// A copy of the components of `id`, `None` when it is not live.
    pub fn get_entity(&self, id: EntityId) -> (r: Option<EntityData>)
        requires
            self.wf(),
        ensures
            r == (if self.entities().dom().contains(id) { Some(self.entities()[id]) } else { None }),
    {
        world_get(&self.world, id)
    }

    /// Whether the live entity `id` has component `c`; false when it is not live.
    pub fn satisfies(&self, id: EntityId, c: ComponentID) -> (r: bool)
        requires
            self.wf(),
        ensures
            r == self.spec_satisfies(id, c),
    {
        match world_get(&self.world, id) {
            Some(d) => d.has_component(c),
            None => false,
        }
    }

    /// The position of `id`, `None` when it is not live or has none.
    pub fn get_pos(&self, id: EntityId) -> (r: Option<GridPos>)
        requires
            self.wf(),
        ensures
            r == (if self.entities().dom().contains(id) && self.entities()[id].position is Some {
                Some(self.entities()[id].position.unwrap().0)
            } else {
                None
            }),
    {
        match world_get(&self.world, id) {
            Some(d) => match d.position {
                Some(p) => Some(p.0),
                None => None,
            },
            None => None,
        }
    }

    /// The handles of all live entities, each once, in the world's order.
    pub fn entity_ids(&self) -> (r: Vec<EntityId>)
        requires
            self.wf(),
        ensures
            r@ == self.order(),
            r@.no_duplicates(),
            forall|k: EntityId| r@.contains(k) <==> self.entities().dom().contains(k),
    {
        world_ids(&self.world)
    }

    /// Replaces all components of the live entity `id` with `data`, leaving
    /// the grid as it is; false when `id` is not live.
    pub(crate) fn replace_entity(&mut self, id: EntityId, data: EntityData) -> (r: bool)
        requires
            old(self).wf(),
        ensures
            final(self).wf(),
            r == old(self).entities().dom().contains(id),
            r ==> final(self).entities() == old(self).entities().insert(id, data),
            !r ==> final(self).entities() == old(self).entities(),
            final(self).cells() == old(self).cells(),
            final(self).spec_width() == old(self).spec_width(),
            final(self).spec_height() == old(self).spec_height(),
    {
        let ghost old_self = *self;
        let r = world_insert(&mut self.world, id, data);
        proof {
            if r {
                old_self.lemma_entities_after_insert(self.world, id, data);
            }
        }
        r
    }

    proof fn lemma_entities_after_remove(self, new: hecs::World, id: EntityId)
        requires
            self.wf(),
            world_entities(new) == world_entities(self.world).remove(id),
        ensures
            (WorldGrid { grid: self.grid, world: new }).entities() == self.entities().remove(id),
            (WorldGrid { grid: self.grid, world: new }).wf(),
    {
        let n = WorldGrid { grid: self.grid, world: new };
        assert(n.entities() =~= self.entities().remove(id));
    }

    /// Whether some live entity on cell `(x, y)` has component `c`.
    pub open spec fn cell_has(self, x: u32, y: u32, c: ComponentID) -> bool {
        exists|i: int| 0 <= i < self.cell_at(x, y).len() && #[trigger] self.spec_satisfies(self.cell_at(x, y)[i], c)
    }

    /// Whether an entity on cell `(x, y)` has component `c`; false off the grid.
    pub fn has_component_at(&self, x: u32, y: u32, c: ComponentID) -> (r: bool)
        requires
            self.wf(),
        ensures
            r == (self.on_grid(x, y) && self.cell_has(x, y, c)),
    {
        let cell = match self.get_cell(x, y) {
            Some(cell) => cell,
            None => return false,
        };
        let mut i: usize = 0;
        while i < cell.len()
            invariant
                self.wf(),
                self.on_grid(x, y),
                cell@ == self.cell_at(x, y),
                i <= cell@.len(),
                forall|j: int| 0 <= j < i ==> !self.spec_satisfies(cell@[j], c),
            decreases cell@.len() - i,
        {
            if self.satisfies(cell[i], c) {
                return true;
            }
            i = i + 1;
        }
        false
    }

    /// Removes `entity`: takes it off the cell of its position, out of the
    /// linked entities of every entity, and out of the world.
    pub fn despawn_entity(&mut self, entity: EntityId) -> (r: Result<(), NoSuchEntity>)
        requires
            old(self).wf(),
        ensures
            final(self).wf(),
            r is Ok <==> old(self).entities().dom().contains(entity),
            WorldGrid::despawned(*old(self), *final(self), entity),
    {
        if let Some(pos) = self.get_pos(entity) {
            self.grid.remove_from_cell(entity, pos.x, pos.y);
        }
        let ghost start = *self;
        let ids = self.entity_ids();
        let mut i: usize = 0;
        while i < ids.len()
            invariant
                self.wf(),
                start.wf(),
                i <= ids@.len(),
                ids@.no_duplicates(),
                forall|k: EntityId| ids@.contains(k) <==> start.entities().dom().contains(k),
                self.entities().dom() == start.entities().dom(),
                self.cells() == start.cells(),
                self.spec_width() == start.spec_width(),
                self.spec_height() == start.spec_height(),
                start.entities() == old(self).entities(),
                forall|k: EntityId| #[trigger] self.entities().dom().contains(k) ==> (if ids@.take(i as int).contains(k) {
                    unlinked_from(start.entities()[k], self.entities()[k], entity)
                } else {
                    self.entities()[k] == start.entities()[k]
                }),
            decreases ids@.len() - i,
        {
            let k = ids[i];
            let ghost before = *self;
            assert(ids@.take(i + 1) =~= ids@.take(i as int).push(k));
            assert(!ids@.take(i as int).contains(k)) by {
                if ids@.take(i as int).contains(k) {
                    let j = choose|j: int| 0 <= j < i && ids@.take(i as int)[j] == k;
                    assert(ids@[j] == ids@[i as int]);
                }
            }
            match self.get_entity(k) {
                Some(mut d) => {
                    if d.linked_entities.is_some() {
                        let ghost d0 = d;
                        if let Some(le) = &mut d.linked_entities {
                            le.remove(entity);
                        }
                        assert(unlinked_from(d0, d, entity));
                        self.replace_entity(k, d);
                    }
                },
                None => {},
            }
            proof {
                assert forall|m: EntityId| #[trigger] self.entities().dom().contains(m) implies (if ids@.take(i + 1).contains(m) {
                    unlinked_from(start.entities()[m], self.entities()[m], entity)
                } else {
                    self.entities()[m] == start.entities()[m]
                }) by {
                    if m != k {
                        assert(ids@.take(i + 1).contains(m) <==> ids@.take(i as int).contains(m));
                        assert(self.entities()[m] == before.entities()[m]);
                    } else {
                        assert(ids@.take(i + 1)[i as int] == m);
                        assert(ids@.take(i + 1).contains(m));
                    }
                }
            }
            i = i + 1;
        }
        let ghost before_despawn = *self;
        let ok = world_despawn(&mut self.world, entity);
        proof {
            before_despawn.lemma_entities_after_remove(self.world, entity);
            assert(self.entities().dom() =~= old(self).entities().dom().remove(entity));
            assert forall|k: EntityId| #[trigger] self.entities().dom().contains(k) implies unlinked_from(old(self).entities()[k], self.entities()[k], entity) by {
                assert(ids@.contains(k));
                assert(ids@.take(ids@.len() as int) =~= ids@);
            }
        }
        if ok {
            Ok(())
        } else {
            Err(NoSuchEntity)
        }
    }

    /// `new` is `old` without `entity`: it has left the world, the cell of
    /// its position and the linked entities of every other entity.
    pub open spec fn despawned(old: WorldGrid, new: WorldGrid, entity: EntityId) -> bool {
        &&& new.entities().dom() == old.entities().dom().remove(entity)
        &&& forall|k: EntityId| #[trigger] new.entities().dom().contains(k) ==> unlinked_from(old.entities()[k], new.entities()[k], entity)
        &&& new.spec_width() == old.spec_width()
        &&& new.spec_height() == old.spec_height()
        &&& new.cells() == (if old.entities().dom().contains(entity) && old.entities()[entity].position is Some {
            unplaced(old.cells(), old.spec_width(), old.spec_height(), entity, old.entities()[entity].position.unwrap().0)
        } else {
            old.cells()
        })
    }

    /// `new` is `old` after the entity `entity` stepped onto cell `(x, y)`:
    /// its position is `(x, y)`, it moved from the cell it stood on to that
    /// one, and a fresh move animation from its old position to `(x, y)` runs.
    pub open spec fn moved(old: WorldGrid, new: WorldGrid, entity: EntityId, x: u32, y: u32) -> bool {
        &&& old.on_grid(x, y)
        &&& old.spec_satisfies(entity, ComponentID::Position)
        &&& new.spec_width() == old.spec_width()
        &&& new.spec_height() == old.spec_height()
        &&& new.entities() == old.entities().insert(entity, EntityData {
            position: Some(Position(GridPos { x, y })),
            animation: Some(Animation::fresh(AnimationKind::Move {
                start: old.entities()[entity].position.unwrap(),
                end: Position(GridPos { x, y }),
            })),
            ..old.entities()[entity]
        })
        &&& new.cells() == placed(
            unplaced(old.cells(), old.spec_width(), old.spec_height(), entity, old.entities()[entity].position.unwrap().0),
            old.spec_width(), old.spec_height(), entity, GridPos { x, y })
    }

    /// `new` is `old` with one more entity, `id`, carrying `data`, put on
    /// its cell when it is on the grid.
    pub open spec fn spawned(old: WorldGrid, new: WorldGrid, id: EntityId, data: EntityData) -> bool {
        &&& !old.entities().dom().contains(id)
        &&& new.entities() == old.entities().insert(id, data)
        &&& new.spec_width() == old.spec_width()
        &&& new.spec_height() == old.spec_height()
        &&& new.cells() == match grid_position(data) {
            Some(p) => placed(old.cells(), old.spec_width(), old.spec_height(), id, p),
            None => old.cells(),
        }
    }

    /// Spawns a level exit with sprite `id` at `pos`.
    pub fn spawn_downstairs_at(&mut self, pos: GridPos, id: SpriteID) -> (r: EntityId)
        requires
            old(self).wf(),
            old(self).entity_count() < u32::MAX,
        ensures
            final(self).wf(),
            WorldGrid::spawned(*old(self), *final(self), r, downstairs_bundle(pos, id)),
    {
        self.spawn_entity(downstairs_template(pos, id))
    }

    /// Spawns a saw at `pos` bouncing between `from` and `to`.
    pub fn spawn_saw_at(&mut self, pos: GridPos, from: Direction, to: Direction) -> (r: EntityId)
        requires
            old(self).wf(),
            old(self).entity_count() < u32::MAX,
        ensures
            final(self).wf(),
            has_empty_queue(final(self).entities()[r]),
            WorldGrid::spawned(*old(self), *final(self), r, saw_bundle(pos, from, to, final(self).entities()[r].action_queue)),
    {
        self.spawn_entity(saw_template(pos, from, to))
    }

    /// Spawns the player at `pos`.
    pub fn spawn_player_at(&mut self, pos: GridPos) -> (r: EntityId)
        requires
            old(self).wf(),
            old(self).entity_count() < u32::MAX,
        ensures
            final(self).wf(),
            has_empty_queue(final(self).entities()[r]),
            WorldGrid::spawned(*old(self), *final(self), r, player_bundle(pos, final(self).entities()[r].action_queue)),
    {
        self.spawn_entity(player_template(pos))
    }

    /// Spawns a wall piece with sprite `id` at `pos`.
    pub fn spawn_wall_at(&mut self, pos: GridPos, id: SpriteID) -> (r: EntityId)
        requires
            old(self).wf(),
            old(self).entity_count() < u32::MAX,
        ensures
            final(self).wf(),
            WorldGrid::spawned(*old(self), *final(self), r, wall_bundle(pos, id)),
    {
        self.spawn_entity(wall_template(pos, id))
    }

    /// Spawns a crate at `pos`.
    pub fn spawn_crate_at(&mut self, pos: GridPos) -> (r: EntityId)
        requires
            old(self).wf(),
            old(self).entity_count() < u32::MAX,
        ensures
            final(self).wf(),
            WorldGrid::spawned(*old(self), *final(self), r, crate_bundle(pos)),
    {
        self.spawn_entity(crate_template(pos))
    }

    /// Spawns a fireball at `pos` flying towards `dir`.
    pub fn spawn_fireball_at(&mut self, pos: GridPos, dir: Direction) -> (r: EntityId)
        requires
            old(self).wf(),
            old(self).entity_count() < u32::MAX,
        ensures
            final(self).wf(),
            has_empty_queue(final(self).entities()[r]),
            WorldGrid::spawned(*old(self), *final(self), r, fireball_bundle(pos, dir, final(self).entities()[r].action_queue)),
    {
        self.spawn_entity(fireball_template(pos, dir))
    }

    /// Spawns a fireball thrower at `pos` facing `dir`.
    pub fn spawn_fireball_thrower_at(&mut self, pos: GridPos, dir: Direction) -> (r: EntityId)
        requires
            old(self).wf(),
            old(self).entity_count() < u32::MAX,
        ensures
            final(self).wf(),
            WorldGrid::spawned(*old(self), *final(self), r, fireball_thrower_bundle(pos, dir)),
    {
        self.spawn_entity(fireball_thrower_template(pos, dir))
    }

    /// Spawns a pressure plate at `pos`, linked to `linked_entities` when given.
    pub fn spawn_pressure_plate(&mut self, pos: GridPos, linked_entities: Option<Vec<EntityId>>) -> (r: EntityId)
        requires
            old(self).wf(),
            old(self).entity_count() < u32::MAX,
        ensures
            final(self).wf(),
            WorldGrid::spawned(*old(self), *final(self), r, EntityData {
                linked_entities: final(self).entities()[r].linked_entities,
                ..pressure_plate_bundle(pos)
            }),
            linked_entities is None ==> links(final(self).entities()[r]) is None,
            linked_entities matches Some(v) ==> (links(final(self).entities()[r]) matches Some(s) && s.no_duplicates()
                && forall|e: EntityId| s.contains(e) <==> v@.contains(e)),
    {
        let mut data = pressure_plate_template(pos);
        match linked_entities {
            Some(entities) => {
                data.linked_entities = Some(LinkedEntities::new(entities));
            },
            None => {},
        }
        self.spawn_entity(data)
    }

    /// Spawns a door at `pos`, locked when `is_locked`.
    pub fn spawn_door_at(&mut self, pos: GridPos, is_locked: bool) -> (r: EntityId)
        requires
            old(self).wf(),
            old(self).entity_count() < u32::MAX,
        ensures
            final(self).wf(),
            WorldGrid::spawned(*old(self), *final(self), r, EntityData {
                locked: if is_locked { Some(Locked(LockKind::Basic)) } else { None },
                ..door_bundle(pos, is_locked)
            }),
    {
        let mut data = door_template(pos, is_locked);
        if is_locked {
            data.locked = Some(Locked(LockKind::Basic));
        }
        self.spawn_entity(data)
    }

    /// Moves the movable, on-grid entity `entity` to cell `(x, y)` when that
    /// cell is on the grid and holds no obstacle, starting a move animation
    /// from its old position; returns whether it moved.
    pub fn move_entity_to_pos(&mut self, entity: EntityId, x: u32, y: u32) -> (r: bool)
        requires
            old(self).wf(),
        ensures
            final(self).wf(),
            r == (old(self).on_grid(x, y) && !old(self).cell_has(x, y, ComponentID::Obstacle)
                && old(self).spec_satisfies(entity, ComponentID::Movable)
                && old(self).spec_satisfies(entity, ComponentID::OnGrid)
                && old(self).spec_satisfies(entity, ComponentID::Position)),
            r ==> WorldGrid::moved(*old(self), *final(self), entity, x, y),
            !r ==> *final(self) == *old(self),
    {
        if self.get_cell(x, y).is_none() || self.has_component_at(x, y, ComponentID::Obstacle) {
            return false;
        }
        let mut data = match self.get_entity(entity) {
            Some(d) => d,
            None => return false,
        };
        if data.movable.is_none() || data.on_grid.is_none() {
            return false;
        }
        let pos = match data.position {
            Some(p) => p.0,
            None => return false,
        };
        self.remove_from_cell(entity, pos.x, pos.y);
        self.add_to_cell(entity, x, y);
        data.position = Some(Position(GridPos { x, y }));
        data.animation = Some(Animation::new(AnimationKind::Move { start: Position(pos), end: Position(GridPos { x, y }) }));
        self.replace_entity(entity, data);
        true
    }

    /// Swaps the two directions of the saw `entity`; returns the new
    /// directions, `None` (changing nothing) when it is not a live saw.
    pub fn switch_bouncing_dir(&mut self, entity: EntityId) -> (r: Option<Bouncing>)
        requires
            old(self).wf(),
        ensures
            final(self).wf(),
            final(self).cells() == old(self).cells(),
            final(self).spec_width() == old(self).spec_width(),
            final(self).spec_height() == old(self).spec_height(),
            !old(self).spec_satisfies(entity, ComponentID::Bouncing) ==> r is None && final(self).entities() == old(self).entities(),
            old(self).spec_satisfies(entity, ComponentID::Bouncing) ==> {
                let b = old(self).entities()[entity].bouncing.unwrap();
                &&& r == Some(Bouncing { from: b.to, to: b.from })
                &&& final(self).entities() == old(self).entities().insert(entity, EntityData {
                    bouncing: Some(Bouncing { from: b.to, to: b.from }),
                    ..old(self).entities()[entity]
                })
            },
    {
        let mut data = match self.get_entity(entity) {
            Some(d) => d,
            None => return None,
        };
        let b = match data.bouncing {
            Some(b) => b,
            None => return None,
        };
        let switched = Bouncing { from: b.to, to: b.from };
        data.bouncing = Some(switched);
        self.replace_entity(entity, data);
        Some(switched)
    }

    /// Appends `action` to the action queue of `entity`; nothing happens when
    /// it is not live or has no queue.
    pub fn add_action(&mut self, entity: EntityId, action: ActionKind)
        requires
            old(self).wf(),
        ensures
            final(self).wf(),
            final(self).cells() == old(self).cells(),
            final(self).spec_width() == old(self).spec_width(),
            final(self).spec_height() == old(self).spec_height(),
            final(self).entities().dom() == old(self).entities().dom(),
            forall|k: EntityId| k != entity && #[trigger] final(self).entities().dom().contains(k) ==> final(self).entities()[k] == old(self).entities()[k],
            !old(self).spec_satisfies(entity, ComponentID::ActionQueue) ==> final(self).entities() == old(self).entities(),
            old(self).spec_satisfies(entity, ComponentID::ActionQueue) ==> {
                let before = old(self).entities()[entity];
                let after = final(self).entities()[entity];
                &&& after == EntityData { action_queue: after.action_queue, ..before }
                &&& after.action_queue is Some
                &&& after.action_queue.unwrap().0@ == before.action_queue.unwrap().0@.push(action)
            },
    {
        let mut data = match self.get_entity(entity) {
            Some(d) => d,
            None => return,
        };
        if let Some(queue) = &mut data.action_queue {
            queue.0.push_back(action);
        } else {
            return;
        }
        self.replace_entity(entity, data);
    }

    /// Sets or clears the lock of `entity`; false, changing nothing, when it
    /// is not live, or when clearing a lock it does not have.
    pub fn set_locked(&mut self, entity: EntityId, lock: Option<Locked>) -> (r: bool)
        requires
            old(self).wf(),
        ensures
            final(self).wf(),
            final(self).cells() == old(self).cells(),
            final(self).spec_width() == old(self).spec_width(),
            final(self).spec_height() == old(self).spec_height(),
            r == (old(self).entities().dom().contains(entity) && (lock is Some || old(self).entities()[entity].locked is Some)),
            r ==> final(self).entities() == old(self).entities().insert(entity, EntityData {
                locked: lock,
                ..old(self).entities()[entity]
            }),
            !r ==> final(self).entities() == old(self).entities(),
    {
        let mut data = match self.get_entity(entity) {
            Some(d) => d,
            None => return false,
        };
        if lock.is_none() && data.locked.is_none() {
            return false;
        }
        data.locked = lock;
        self.replace_entity(entity, data)
    }

    /// Starts `animation` on `entity`, replacing a running one; false,
    /// changing nothing, when it is not live.
    pub fn insert_animation(&mut self, entity: EntityId, animation: Animation) -> (r: bool)
        requires
            old(self).wf(),
        ensures
            final(self).wf(),
            final(self).cells() == old(self).cells(),
            final(self).spec_width() == old(self).spec_width(),
            final(self).spec_height() == old(self).spec_height(),
            r == old(self).entities().dom().contains(entity),
            r ==> final(self).entities() == old(self).entities().insert(entity, EntityData {
                animation: Some(animation),
                ..old(self).entities()[entity]
            }),
            !r ==> final(self).entities() == old(self).entities(),
    {
        let mut data = match self.get_entity(entity) {
            Some(d) => d,
            None => return false,
        };
        data.animation = Some(animation);
        self.replace_entity(entity, data)
    }
}

/// Despawning an entity right after spawning it gives back the live
/// entities and the cells from before the spawn, when no cell listed the new
/// entity yet; every other entity at most loses it from its linked entities.
pub proof fn law_despawn_undoes_spawn(w0: WorldGrid, w1: WorldGrid, w2: WorldGrid, id: EntityId, data: EntityData)
    requires
        w0.wf(),
        WorldGrid::spawned(w0, w1, id, data),
        WorldGrid::despawned(w1, w2, id),
        forall|i: int| 0 <= i < w0.cells().len() ==> !(#[trigger] w0.cells()[i]).contains(id),
    ensures
        w2.entities().dom() == w0.entities().dom(),
        w2.cells() == w0.cells(),
        forall|k: EntityId| #[trigger] w2.entities().dom().contains(k) ==> unlinked_from(w0.entities()[k], w2.entities()[k], id),
{
    w0.lemma_wf();
    assert(w2.entities().dom() =~= w0.entities().dom());
    assert(w1.entities()[id] == data);
    let c = w0.cells();
    let (w, h) = (w0.spec_width(), w0.spec_height());
    match data.position {
        Some(p) => {
            if in_bounds(w, h, p.0.x, p.0.y) {
                lemma_cell_index_in_range(w, h, p.0.x, p.0.y);
                let idx = cell_index(w, p.0.x, p.0.y);
                if grid_position(data) is Some {
                    law_take_off_undoes_put(c, idx, id);
                } else {
                    lemma_filter_absent(c[idx], id);
                    assert(cells_without(c, idx, id) =~= c);
                }
            }
        },
        None => {},
    }
    assert forall|k: EntityId| #[trigger] w2.entities().dom().contains(k) implies unlinked_from(w0.entities()[k], w2.entities()[k], id) by {
        assert(w1.entities().dom().contains(k));
        assert(w1.entities()[k] == w0.entities()[k]);
    }
}

/// After an entity stepped onto cell `(x, y)` it stands on that cell, no
/// longer on the cell it left, and every other cell is unchanged.
pub proof fn law_moved_entity_changes_cell(w0: WorldGrid, w1: WorldGrid, entity: EntityId, x: u32, y: u32)
    requires
        w0.wf(),
        WorldGrid::moved(w0, w1, entity, x, y),
    ensures
        w1.entities()[entity].position == Some(Position(GridPos { x, y })),
        w1.cell_at(x, y).contains(entity),
        ({
            let from = w0.entities()[entity].position.unwrap().0;
            w0.on_grid(from.x, from.y) && from != (GridPos { x, y }) ==> !w1.cell_at(from.x, from.y).contains(entity)
        }),
        forall|i: int| 0 <= i < w0.cells().len() && i != cell_index(w0.spec_width(), x, y)
            && i != cell_index(w0.spec_width(), w0.entities()[entity].position.unwrap().0.x, w0.entities()[entity].position.unwrap().0.y)
            ==> #[trigger] w1.cells()[i] == w0.cells()[i],
{
    w0.lemma_wf();
    let c = w0.cells();
    let (w, h) = (w0.spec_width(), w0.spec_height());
    let from = w0.entities()[entity].position.unwrap().0;
    let to_idx = cell_index(w, x, y);
    let from_idx = cell_index(w, from.x, from.y);
    lemma_cell_index_in_range(w, h, x, y);
    let mid = unplaced(c, w, h, entity, from);
    if in_bounds(w, h, from.x, from.y) {
        lemma_cell_index_in_range(w, h, from.x, from.y);
        law_take_off_leaves_no_trace(c, from_idx, entity);
        if from != (GridPos { x, y }) {
            if from_idx == to_idx {
                lemma_cell_index_injective(w, h, from.x, from.y, x, y);
            }
        }
    }
    assert(mid.len() == c.len());
    crate::grid::law_put_is_idempotent(mid, to_idx, entity);
}

/// Every live entity that is tracked by the grid and stands on it is listed
/// in the cell of its position.
pub open spec fn consistent(w: WorldGrid) -> bool {
    forall|k: EntityId| #[trigger] w.entities().dom().contains(k) && grid_position(w.entities()[k]) is Some
        && w.on_grid(grid_position(w.entities()[k])->Some_0.x, grid_position(w.entities()[k])->Some_0.y)
        ==> w.cell_at(grid_position(w.entities()[k])->Some_0.x, grid_position(w.entities()[k])->Some_0.y).contains(k)
}

/// Putting `entity` on a cell keeps every entry of every cell.
proof fn lemma_placed_keeps(cells: Seq<Seq<EntityId>>, w: u32, h: u32, entity: EntityId, pos: GridPos, i: int, k: EntityId)
    requires
        cells.len() == w * h,
        0 <= i < cells.len(),
        cells[i].contains(k),
    ensures
        placed(cells, w, h, entity, pos).len() == cells.len(),
        placed(cells, w, h, entity, pos)[i].contains(k),
{
    if in_bounds(w, h, pos.x, pos.y) {
        lemma_cell_index_in_range(w, h, pos.x, pos.y);
        let idx = cell_index(w, pos.x, pos.y);
        if i == idx && !cells[idx].contains(entity) {
            let j = choose|j: int| 0 <= j < cells[i].len() && cells[i][j] == k;
            assert(cells[idx].push(entity)[j] == k);
        }
    }
}

/// Taking `entity` off a cell keeps every other entity of every cell.
proof fn lemma_unplaced_keeps(cells: Seq<Seq<EntityId>>, w: u32, h: u32, entity: EntityId, pos: GridPos, i: int, k: EntityId)
    requires
        cells.len() == w * h,
        0 <= i < cells.len(),
        cells[i].contains(k),
        k != entity,
    ensures
        unplaced(cells, w, h, entity, pos).len() == cells.len(),
        unplaced(cells, w, h, entity, pos)[i].contains(k),
{
    if in_bounds(w, h, pos.x, pos.y) {
        lemma_cell_index_in_range(w, h, pos.x, pos.y);
        let idx = cell_index(w, pos.x, pos.y);
        if i == idx {
            let j = choose|j: int| 0 <= j < cells[i].len() && cells[i][j] == k;
            broadcast use vstd::seq_lib::group_filter_ensures;
            assert((other_than(entity))(cells[i][j]));
            assert(cells[i].filter(other_than(entity)).contains(cells[i][j]));
        }
    }
}

/// Spawning keeps every tracked entity listed in the cell it stands on.
pub proof fn law_spawn_keeps_consistent(w0: WorldGrid, w1: WorldGrid, id: EntityId, data: EntityData)
    requires
        w0.wf(),
        consistent(w0),
        WorldGrid::spawned(w0, w1, id, data),
    ensures
        consistent(w1),
{
    w0.lemma_wf();
    let (w, h) = (w0.spec_width(), w0.spec_height());
    assert forall|k: EntityId| #[trigger] w1.entities().dom().contains(k) && grid_position(w1.entities()[k]) is Some
        && w1.on_grid(grid_position(w1.entities()[k])->Some_0.x, grid_position(w1.entities()[k])->Some_0.y)
        implies w1.cell_at(grid_position(w1.entities()[k])->Some_0.x, grid_position(w1.entities()[k])->Some_0.y).contains(k) by {
        let p = grid_position(w1.entities()[k])->Some_0;
        lemma_cell_index_in_range(w, h, p.x, p.y);
        let i = cell_index(w, p.x, p.y);
        if k == id {
            crate::grid::law_put_is_idempotent(w0.cells(), i, id);
        } else {
            assert(w0.entities().dom().contains(k));
            assert(w0.cell_at(p.x, p.y).contains(k));
            match grid_position(data) {
                Some(q) => lemma_placed_keeps(w0.cells(), w, h, id, q, i, k),
                None => {},
            }
        }
    }
}

/// Despawning keeps every tracked entity listed in the cell it stands on.
pub proof fn law_despawn_keeps_consistent(w0: WorldGrid, w1: WorldGrid, entity: EntityId)
    requires
        w0.wf(),
        consistent(w0),
        WorldGrid::despawned(w0, w1, entity),
    ensures
        consistent(w1),
{
    w0.lemma_wf();
    let (w, h) = (w0.spec_width(), w0.spec_height());
    assert forall|k: EntityId| #[trigger] w1.entities().dom().contains(k) && grid_position(w1.entities()[k]) is Some
        && w1.on_grid(grid_position(w1.entities()[k])->Some_0.x, grid_position(w1.entities()[k])->Some_0.y)
        implies w1.cell_at(grid_position(w1.entities()[k])->Some_0.x, grid_position(w1.entities()[k])->Some_0.y).contains(k) by {
        assert(w0.entities().dom().contains(k));
        assert(unlinked_from(w0.entities()[k], w1.entities()[k], entity));
        assert(grid_position(w1.entities()[k]) == grid_position(w0.entities()[k]));
        let p = grid_position(w1.entities()[k])->Some_0;
        lemma_cell_index_in_range(w, h, p.x, p.y);
        let i = cell_index(w, p.x, p.y);
        assert(w0.cell_at(p.x, p.y).contains(k));
        if w0.entities().dom().contains(entity) && w0.entities()[entity].position is Some {
            lemma_unplaced_keeps(w0.cells(), w, h, entity, w0.entities()[entity].position.unwrap().0, i, k);
        }
    }
}

/// A step keeps every tracked entity listed in the cell it stands on.
pub proof fn law_move_keeps_consistent(w0: WorldGrid, w1: WorldGrid, entity: EntityId, x: u32, y: u32)
    requires
        w0.wf(),
        consistent(w0),
        WorldGrid::moved(w0, w1, entity, x, y),
    ensures
        consistent(w1),
{
    w0.lemma_wf();
    let (w, h) = (w0.spec_width(), w0.spec_height());
    let from = w0.entities()[entity].position.unwrap().0;
    let mid = unplaced(w0.cells(), w, h, entity, from);
    assert forall|k: EntityId| #[trigger] w1.entities().dom().contains(k) && grid_position(w1.entities()[k]) is Some
        && w1.on_grid(grid_position(w1.entities()[k])->Some_0.x, grid_position(w1.entities()[k])->Some_0.y)
        implies w1.cell_at(grid_position(w1.entities()[k])->Some_0.x, grid_position(w1.entities()[k])->Some_0.y).contains(k) by {
        let p = grid_position(w1.entities()[k])->Some_0;
        lemma_cell_index_in_range(w, h, p.x, p.y);
        let i = cell_index(w, p.x, p.y);
        if k == entity {
            law_moved_entity_changes_cell(w0, w1, entity, x, y);
        } else {
            assert(w0.entities().dom().contains(k));
            assert(w1.entities()[k] == w0.entities()[k]);
            assert(w0.cell_at(p.x, p.y).contains(k));
            lemma_unplaced_keeps(w0.cells(), w, h, entity, from, i, k);
            lemma_placed_keeps(mid, w, h, entity, GridPos { x, y }, i, k);
        }
    }
}

proof fn lemma_loading_keeps_len(cells: Seq<Seq<EntityId>>, w: u32, h: u32, list: Seq<(EntityId, EntityData)>)
    requires
        cells.len() == w * h,
    ensures
        cells_after_loading(cells, w, h, list).len() == cells.len(),
    decreases list.len(),
{
    if list.len() > 0 {
        lemma_loading_keeps_len(cells, w, h, list.drop_last());
        let prev = cells_after_loading(cells, w, h, list.drop_last());
        match list.last().1.position {
            Some(p) => {
                if in_bounds(w, h, p.0.x, p.0.y) {
                    lemma_cell_index_in_range(w, h, p.0.x, p.0.y);
                }
            },
            None => {},
        }
    }
}

proof fn lemma_loading_places(cells: Seq<Seq<EntityId>>, w: u32, h: u32, list: Seq<(EntityId, EntityData)>, j: int)
    requires
        cells.len() == w * h,
        0 <= j < list.len(),
        list[j].1.position is Some,
        in_bounds(w, h, list[j].1.position->Some_0.0.x, list[j].1.position->Some_0.0.y),
    ensures
        cells_after_loading(cells, w, h, list)[cell_index(w, list[j].1.position->Some_0.0.x, list[j].1.position->Some_0.0.y)].contains(list[j].0),
    decreases list.len(),
{
    let p = list[j].1.position->Some_0.0;
    lemma_cell_index_in_range(w, h, p.x, p.y);
    let i = cell_index(w, p.x, p.y);
    let init = list.drop_last();
    lemma_loading_keeps_len(cells, w, h, init);
    let prev = cells_after_loading(cells, w, h, init);
    if j == list.len() - 1 {
        crate::grid::law_put_is_idempotent(prev, i, list[j].0);
    } else {
        assert(init[j] == list[j]);
        lemma_loading_places(cells, w, h, init, j);
        match list.last().1.position {
            Some(q) => lemma_placed_keeps(prev, w, h, list.last().0, q.0, i, list[j].0),
            None => {},
        }
    }
}

proof fn lemma_entity_map_entry(list: Seq<(EntityId, EntityData)>, k: EntityId) -> (j: int)
    requires
        entity_map(list).dom().contains(k),
    ensures
        0 <= j < list.len(),
        list[j].0 == k,
        list[j].1 == entity_map(list)[k],
    decreases list.len(),
{
    if list.last().0 == k {
        list.len() - 1
    } else {
        let j = lemma_entity_map_entry(list.drop_last(), k);
        assert(list.drop_last()[j] == list[j]);
        j
    }
}

/// A freshly loaded world lists every entity that has a position on the grid
/// in the cell of its position.
pub proof fn law_loading_is_consistent(w: WorldGrid, info: WorldInfo, list: Seq<(EntityId, EntityData)>)
    requires
        w.wf(),
        w.spec_width() == info.width,
        w.spec_height() == info.height,
        w.entities() == entity_map(list),
        w.cells() == cells_after_loading(Seq::new((info.width * info.height) as nat, |i: int| Seq::<EntityId>::empty()), info.width, info.height, list),
    ensures
        consistent(w),
{
    w.lemma_wf();
    let empty = Seq::new((info.width * info.height) as nat, |i: int| Seq::<EntityId>::empty());
    assert forall|k: EntityId| #[trigger] w.entities().dom().contains(k) && grid_position(w.entities()[k]) is Some
        && w.on_grid(grid_position(w.entities()[k])->Some_0.x, grid_position(w.entities()[k])->Some_0.y)
        implies w.cell_at(grid_position(w.entities()[k])->Some_0.x, grid_position(w.entities()[k])->Some_0.y).contains(k) by {
        let j = lemma_entity_map_entry(list, k);
        lemma_loading_places(empty, info.width, info.height, list, j);
    }
}

/// Changes that keep the cells, the live entities and where they stand (a
/// lock, an action, an animation, a sprite) keep the world consistent.
pub proof fn law_same_places_keep_consistent(w0: WorldGrid, w1: WorldGrid)
    requires
        consistent(w0),
        w1.cells() == w0.cells(),
        w1.spec_width() == w0.spec_width(),
        w1.spec_height() == w0.spec_height(),
        w1.entities().dom() == w0.entities().dom(),
        forall|k: EntityId| #[trigger] w1.entities().dom().contains(k) ==> grid_position(w1.entities()[k]) == grid_position(w0.entities()[k]),
    ensures
        consistent(w1),
{
}

/// Resizing to a new height with the same width keeps every tracked entity
/// listed in the cell it stands on, as long as no tracked entity stands in
/// the rows that are added (a new width renumbers the cells, and the
/// entities stay in the cells of the old numbering).
pub proof fn law_resize_keeping_width_keeps_consistent(w0: WorldGrid, w1: WorldGrid)
    requires
        w0.wf(),
        consistent(w0),
        w1.entities() == w0.entities(),
        w1.spec_width() == w0.spec_width(),
        w1.spec_width() * w1.spec_height() <= u32::MAX,
        w1.cells() == resized_cells(w0.cells(), (w1.spec_width() * w1.spec_height()) as nat),
        forall|k: EntityId| #[trigger] w0.entities().dom().contains(k) && grid_position(w0.entities()[k]) is Some
            && w1.on_grid(grid_position(w0.entities()[k])->Some_0.x, grid_position(w0.entities()[k])->Some_0.y)
            ==> w0.on_grid(grid_position(w0.entities()[k])->Some_0.x, grid_position(w0.entities()[k])->Some_0.y),
    ensures
        consistent(w1),
{
    w0.lemma_wf();
    assert forall|k: EntityId| #[trigger] w1.entities().dom().contains(k) && grid_position(w1.entities()[k]) is Some
        && w1.on_grid(grid_position(w1.entities()[k])->Some_0.x, grid_position(w1.entities()[k])->Some_0.y)
        implies w1.cell_at(grid_position(w1.entities()[k])->Some_0.x, grid_position(w1.entities()[k])->Some_0.y).contains(k) by {
        let p = grid_position(w1.entities()[k])->Some_0;
        lemma_cell_index_in_range(w1.spec_width(), w1.spec_height(), p.x, p.y);
        let i = cell_index(w1.spec_width(), p.x, p.y);
        if w0.on_grid(p.x, p.y) {
            lemma_cell_index_in_range(w0.spec_width(), w0.spec_height(), p.x, p.y);
            assert(w0.cell_at(p.x, p.y).contains(k));
            assert(w1.cells()[i] == w0.cells()[i]);
        }
    }
}

} // verus!
