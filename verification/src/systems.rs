//! Per-frame world updates: animations, door sprites, deaths and drawing order.
use vstd::prelude::*;

use crate::components::{AnimationKind, ComponentID, EntityData, Position, Sprite, StatefulObjectKind};
use crate::events::{GameEvent, GameEventManager};
use crate::geometry::GridPos;
use crate::grid::{lemma_cell_index_in_range, EntityId};
use crate::resources::SpriteID;
use crate::world_grid::WorldGrid;

verus! {

/// The record after animations advance by `delta_ms`: a finished animation is dropped.
pub open spec fn animation_advanced(d: EntityData, delta_ms: u32) -> EntityData {
    match d.animation {
        Some(a) => EntityData {
            animation: if a.after(delta_ms).finished() { None } else { Some(a.after(delta_ms)) },
            ..d
        },
        None => d,
    }
}

/// Advances every animation by `delta_ms` and removes those that finished.
pub fn update_animations(world: &mut WorldGrid, delta_ms: u32)
    requires
        old(world).wf(),
    ensures
        final(world).wf(),
        final(world).cells() == old(world).cells(),
        final(world).spec_width() == old(world).spec_width(),
        final(world).spec_height() == old(world).spec_height(),
        final(world).entities().dom() == old(world).entities().dom(),
        forall|k: EntityId| #[trigger] final(world).entities().dom().contains(k) ==> final(world).entities()[k] == animation_advanced(old(world).entities()[k], delta_ms),
{
    let ghost start = *world;
    let ids = world.entity_ids();
    let mut i: usize = 0;
    while i < ids.len()
        invariant
            world.wf(),
            i <= ids@.len(),
            ids@.no_duplicates(),
            forall|k: EntityId| ids@.contains(k) <==> start.entities().dom().contains(k),
            world.entities().dom() == start.entities().dom(),
            world.cells() == start.cells(),
            world.spec_width() == start.spec_width(),
            world.spec_height() == start.spec_height(),
            forall|k: EntityId| #[trigger] world.entities().dom().contains(k) ==> (if ids@.take(i as int).contains(k) {
                world.entities()[k] == animation_advanced(start.entities()[k], delta_ms)
            } else {
                world.entities()[k] == start.entities()[k]
            }),
        decreases ids@.len() - i,
    {
        let k = ids[i];
        let ghost before = *world;
        assert(ids@.take(i + 1) =~= ids@.take(i as int).push(k));
        assert(!ids@.take(i as int).contains(k)) by {
            if ids@.take(i as int).contains(k) {
                let j = choose|j: int| 0 <= j < i && ids@.take(i as int)[j] == k;
                assert(ids@[j] == ids@[i as int]);
            }
        }
        match world.get_entity(k) {
            Some(mut d) => {
                match d.animation {
                    Some(mut a) => {
                        let finished = a.update(delta_ms);
                        if finished {
                            d.animation = None;
                        } else {
                            d.animation = Some(a);
                        }
                        world.replace_entity(k, d);
                    },
                    None => {},
                }
            },
            None => {},
        }
        proof {
            assert forall|m: EntityId| #[trigger] world.entities().dom().contains(m) implies (if ids@.take(i + 1).contains(m) {
                world.entities()[m] == animation_advanced(start.entities()[m], delta_ms)
            } else {
                world.entities()[m] == start.entities()[m]
            }) by {
                if m != k {
                    assert(ids@.take(i + 1).contains(m) <==> ids@.take(i as int).contains(m));
                } else {
                    assert(ids@.take(i + 1)[i as int] == m);
                }
            }
        }
        i = i + 1;
    }
    proof {
        assert(ids@.take(ids@.len() as int) =~= ids@);
    }
}

/// Some entity has an animation that has not finished.
pub open spec fn any_animation_active(world: WorldGrid) -> bool {
    exists|k: EntityId| #[trigger] world.entities().dom().contains(k) && world.entities()[k].animation is Some && !world.entities()[k].animation.unwrap().finished()
}

/// Whether some animation is still playing.
pub fn is_any_animation_active(world: &WorldGrid) -> (r: bool)
    requires
        world.wf(),
    ensures
        r == any_animation_active(*world),
{
    let ids = world.entity_ids();
    let mut i: usize = 0;
    while i < ids.len()
        invariant
            world.wf(),
            i <= ids@.len(),
            forall|k: EntityId| ids@.contains(k) <==> world.entities().dom().contains(k),
            forall|j: int| 0 <= j < i ==> !(world.entities()[ids@[j]].animation is Some && !world.entities()[ids@[j]].animation.unwrap().finished()),
        decreases ids@.len() - i,
    {
        assert(ids@.contains(ids@[i as int]));
        match world.get_entity(ids[i]) {
            Some(d) => match d.animation {
                Some(a) => {
                    if !a.is_finished() {
                        return true;
                    }
                },
                None => {},
            },
            None => {},
        }
        i = i + 1;
    }
    proof {
        assert forall|k: EntityId| #[trigger] world.entities().dom().contains(k) implies !(world.entities()[k].animation is Some && !world.entities()[k].animation.unwrap().finished()) by {
            assert(ids@.contains(k));
            let j = choose|j: int| 0 <= j < ids@.len() && ids@[j] == k;
        }
    }
    false
}

/// The record after its door sprite follows its lock: doors show the locked
/// sprite exactly when they are locked.
pub open spec fn sprite_updated(d: EntityData) -> EntityData {
    if d.stateful == Some(StatefulObjectKind::Door) && d.sprite is Some {
        EntityData {
            sprite: Some(Sprite(if d.locked is Some { SpriteID::DoorLocked } else { SpriteID::DoorUnlocked })),
            ..d
        }
    } else {
        d
    }
}

/// Updating sprites shows a door (an entity with a sprite and a stateful
/// kind) as locked exactly when it has a lock, and unlocked otherwise; it
/// changes no other component and no other entity's sprite, and doing it
/// twice is doing it once.
pub proof fn law_door_sprite_follows_lock(d: EntityData)
    ensures
        d.stateful is Some && d.sprite is Some && d.locked is Some ==> sprite_updated(d).sprite == Some(Sprite(SpriteID::DoorLocked)),
        d.stateful is Some && d.sprite is Some && d.locked is None ==> sprite_updated(d).sprite == Some(Sprite(SpriteID::DoorUnlocked)),
        !(d.stateful is Some && d.sprite is Some) ==> sprite_updated(d).sprite == d.sprite,
        sprite_updated(d) == (EntityData { sprite: sprite_updated(d).sprite, ..d }),
        sprite_updated(sprite_updated(d)) == sprite_updated(d),
{
    match d.stateful {
        Some(kind) => match kind {
            StatefulObjectKind::Door => assert(d.stateful == Some(StatefulObjectKind::Door)),
        },
        None => {},
    }
}

/// Gives every door the sprite of its lock state.
pub fn update_sprites(world: &mut WorldGrid)
    requires
        old(world).wf(),
    ensures
        final(world).wf(),
        final(world).cells() == old(world).cells(),
        final(world).spec_width() == old(world).spec_width(),
        final(world).spec_height() == old(world).spec_height(),
        final(world).entities().dom() == old(world).entities().dom(),
        forall|k: EntityId| #[trigger] final(world).entities().dom().contains(k) ==> final(world).entities()[k] == sprite_updated(old(world).entities()[k]),
{
    let ghost start = *world;
    let ids = world.entity_ids();
    let mut i: usize = 0;
    while i < ids.len()
        invariant
            world.wf(),
            i <= ids@.len(),
            ids@.no_duplicates(),
            forall|k: EntityId| ids@.contains(k) <==> start.entities().dom().contains(k),
            world.entities().dom() == start.entities().dom(),
            world.cells() == start.cells(),
            world.spec_width() == start.spec_width(),
            world.spec_height() == start.spec_height(),
            forall|k: EntityId| #[trigger] world.entities().dom().contains(k) ==> (if ids@.take(i as int).contains(k) {
                world.entities()[k] == sprite_updated(start.entities()[k])
            } else {
                world.entities()[k] == start.entities()[k]
            }),
        decreases ids@.len() - i,
    {
        let k = ids[i];
        assert(ids@.take(i + 1) =~= ids@.take(i as int).push(k));
        assert(!ids@.take(i as int).contains(k)) by {
            if ids@.take(i as int).contains(k) {
                let j = choose|j: int| 0 <= j < i && ids@.take(i as int)[j] == k;
                assert(ids@[j] == ids@[i as int]);
            }
        }
        let ghost before = *world;
        assert(ids@[i as int] == k);
        assert(ids@.contains(k));
        assert(before.entities()[k] == start.entities()[k]);
        match world.get_entity(k) {
            Some(mut d) => {
                let is_door = match d.stateful {
                    Some(StatefulObjectKind::Door) => true,
                    None => false,
                };
                if is_door && d.sprite.is_some() {
                    let sprite_id = if d.locked.is_some() { SpriteID::DoorLocked } else { SpriteID::DoorUnlocked };
                    let ghost d0 = d;
                    d.sprite = Some(Sprite(sprite_id));
                    assert(d0.stateful == Some(StatefulObjectKind::Door));
                    assert(d == sprite_updated(d0));
                    world.replace_entity(k, d);
                    assert(world.entities()[k] == d);
                } else {
                    assert(sprite_updated(d) == d);
                }
            },
            None => {},
        }
        assert(world.entities()[k] == sprite_updated(start.entities()[k]));
        proof {
            assert forall|m: EntityId| #[trigger] world.entities().dom().contains(m) implies (if ids@.take(i + 1).contains(m) {
                world.entities()[m] == sprite_updated(start.entities()[m])
            } else {
                world.entities()[m] == start.entities()[m]
            }) by {
                if m != k {
                    assert(ids@.take(i + 1).contains(m) <==> ids@.take(i as int).contains(m));
                } else {
                    assert(ids@.take(i + 1)[i as int] == m);
                }
            }
        }
        i = i + 1;
    }
    proof {
        assert(ids@.take(ids@.len() as int) =~= ids@);
    }
}


/// `attacker` kills `target`: the attacker causes death, stands on a cell of
/// the grid, and the mortal `target` is on that cell.
pub open spec fn kills(world: WorldGrid, attacker: EntityId, target: EntityId) -> bool {
    &&& world.spec_satisfies(attacker, ComponentID::CausesDeath)
    &&& world.spec_satisfies(attacker, ComponentID::Position)
    &&& world.on_grid(world.entities()[attacker].position.unwrap().0.x, world.entities()[attacker].position.unwrap().0.y)
    &&& world.cell_at(world.entities()[attacker].position.unwrap().0.x, world.entities()[attacker].position.unwrap().0.y).contains(target)
    &&& world.spec_satisfies(target, ComponentID::Mortal)
}

/// `ev` records a death that `world` calls for.
pub open spec fn is_due_death(world: WorldGrid, ev: GameEvent) -> bool {
    match ev {
        GameEvent::EntityDeath { target, attacker } => kills(world, attacker, target),
        _ => false,
    }
}

/// The deaths `attacker` causes among the entities of `cell`: one event for
/// each mortal one, in the cell's order.
pub open spec fn deaths_among(world: WorldGrid, cell: Seq<EntityId>, attacker: EntityId) -> Seq<GameEvent>
    decreases cell.len(),
{
    if cell.len() == 0 {
        Seq::empty()
    } else {
        let rest = deaths_among(world, cell.drop_last(), attacker);
        if world.spec_satisfies(cell.last(), ComponentID::Mortal) {
            rest.push(GameEvent::EntityDeath { target: cell.last(), attacker })
        } else {
            rest
        }
    }
}

/// The deaths `attacker` causes: none unless it causes death and stands on
/// the grid, else those among the entities of its cell.
pub open spec fn deaths_by(world: WorldGrid, attacker: EntityId) -> Seq<GameEvent> {
    let pos = world.entities()[attacker].position.unwrap().0;
    if world.spec_satisfies(attacker, ComponentID::CausesDeath) && world.spec_satisfies(attacker, ComponentID::Position)
        && world.on_grid(pos.x, pos.y) {
        deaths_among(world, world.cell_at(pos.x, pos.y), attacker)
    } else {
        Seq::empty()
    }
}

/// The deaths the attackers listed in `ids` cause, attacker by attacker in
/// the order of `ids`.
pub open spec fn deaths(world: WorldGrid, ids: Seq<EntityId>) -> Seq<GameEvent>
    decreases ids.len(),
{
    if ids.len() == 0 {
        Seq::empty()
    } else {
        deaths(world, ids.drop_last()) + deaths_by(world, ids.last())
    }
}

/// Adds an `EntityDeath` event for every mortal entity standing on the cell
/// of an entity that causes death, each pair once: attacker by attacker in
/// the world's order, and for each the victims in the order of its cell.
pub fn mark_dead(world_grid: &WorldGrid, game_events: &mut GameEventManager)
    requires
        world_grid.wf(),
    ensures
        final(game_events).view().len() >= old(game_events).view().len(),
        final(game_events).view().take(old(game_events).view().len() as int) == old(game_events).view(),
        final(game_events).view().skip(old(game_events).view().len() as int).no_duplicates(),
        forall|ev: GameEvent| #[trigger] final(game_events).view().skip(old(game_events).view().len() as int).contains(ev) <==> is_due_death(*world_grid, ev),
        final(game_events).view() == old(game_events).view() + deaths(*world_grid, world_grid.order()),
{
    let ghost start = game_events.view();
    let ghost mut added: Seq<GameEvent> = Seq::empty();
    proof {
        world_grid.lemma_wf();
        assert(game_events.view() =~= start + added);
    }
    let ids = world_grid.entity_ids();
    let mut i: usize = 0;
    while i < ids.len()
        invariant
            world_grid.wf(),
            i <= ids@.len(),
            ids@.no_duplicates(),
            forall|k: EntityId| ids@.contains(k) <==> world_grid.entities().dom().contains(k),
            game_events.view() == start + added,
            ids@ == world_grid.order(),
            added == deaths(*world_grid, ids@.take(i as int)),
            added.no_duplicates(),
            forall|ev: GameEvent| #[trigger] added.contains(ev) <==> (is_due_death(*world_grid, ev) && ids@.take(i as int).contains(ev->attacker)),
            forall|i: int| 0 <= i < world_grid.cells().len() ==> (#[trigger] world_grid.cells()[i]).no_duplicates(),
            world_grid.cells().len() == world_grid.spec_width() * world_grid.spec_height(),
        decreases ids@.len() - i,
    {
        let attacker = ids[i];
        assert(ids@.take(i + 1) =~= ids@.take(i as int).push(attacker));
        assert(ids@.take(i + 1).drop_last() =~= ids@.take(i as int));
        assert(!ids@.take(i as int).contains(attacker)) by {
            if ids@.take(i as int).contains(attacker) {
                let j = choose|j: int| 0 <= j < i && ids@.take(i as int)[j] == attacker;
                assert(ids@[j] == ids@[i as int]);
            }
        }
        let mut found_cell = false;
        let ghost added_before = added;
        match world_grid.get_entity(attacker) {
            Some(d) => {
                if d.causes_death.is_some() {
                    match d.position {
                        Some(p) => {
                            let pos = p.0;
                            match world_grid.get_cell(pos.x, pos.y) {
                                Some(cell) => {
                                    found_cell = true;
                                    proof {
                                        lemma_cell_index_in_range(world_grid.spec_width(), world_grid.spec_height(), pos.x, pos.y);
                                    }
                                    let mut j: usize = 0;
                                    while j < cell.len()
                                        invariant
                                            world_grid.wf(),
                                            j <= cell@.len(),
                                            cell@ == world_grid.cell_at(pos.x, pos.y),
                                            cell@.no_duplicates(),
                                            world_grid.on_grid(pos.x, pos.y),
                                            world_grid.spec_satisfies(attacker, ComponentID::CausesDeath),
                                            world_grid.spec_satisfies(attacker, ComponentID::Position),
                                            world_grid.entities()[attacker].position.unwrap().0 == pos,
                                            !ids@.take(i as int).contains(attacker),
                                            game_events.view() == start + added,
                                            added == deaths(*world_grid, ids@.take(i as int)) + deaths_among(*world_grid, cell@.take(j as int), attacker),
                                            added.no_duplicates(),
                                            forall|ev: GameEvent| #[trigger] added.contains(ev) <==> (is_due_death(*world_grid, ev) && (ids@.take(i as int).contains(ev->attacker) || (ev->attacker == attacker && cell@.take(j as int).contains(ev->target)))),
                                        decreases cell@.len() - j,
                                    {
                                        let target = cell[j];
                                        assert(cell@.take(j + 1) =~= cell@.take(j as int).push(target));
                                        assert(cell@.take(j + 1).drop_last() =~= cell@.take(j as int));
                                        assert(!cell@.take(j as int).contains(target)) by {
                                            if cell@.take(j as int).contains(target) {
                                                let q = choose|q: int| 0 <= q < j && cell@.take(j as int)[q] == target;
                                                assert(cell@[q] == cell@[j as int]);
                                            }
                                        }
                                        assert(cell@.contains(target)) by {
                                            assert(cell@[j as int] == target);
                                        }
                                        let ghost prev_added = added;
                                        if world_grid.satisfies(target, ComponentID::Mortal) {
                                            let ev = GameEvent::EntityDeath { target, attacker };
                                            assert(!added.contains(ev));
                                            game_events.add(ev);
                                            proof {
                                                added = added.push(ev);
                                                assert(game_events.view() =~= start + added);
                                            }
                                        }
                                        proof {
                                            broadcast use vstd::seq_lib::group_seq_properties;
                                            assert forall|ev: GameEvent| #[trigger] added.contains(ev) <==> (is_due_death(*world_grid, ev) && (ids@.take(i as int).contains(ev->attacker) || (ev->attacker == attacker && cell@.take(j + 1).contains(ev->target)))) by {
                                                assert(cell@.take(j + 1).contains(ev->target) <==> (cell@.take(j as int).contains(ev->target) || ev->target == target));
                                                if ev == (GameEvent::EntityDeath { target, attacker }) {
                                                    assert(is_due_death(*world_grid, ev) == world_grid.spec_satisfies(target, ComponentID::Mortal));
                                                }
                                                if added.contains(ev) && ev != (GameEvent::EntityDeath { target, attacker }) {
                                                    assert(prev_added.contains(ev));
                                                }
                                            }
                                        }
                                        j = j + 1;
                                    }
                                    proof {
                                        assert(cell@.take(cell@.len() as int) =~= cell@);
                                    }
                                },
                                None => {},
                            }
                        },
                        None => {},
                    }
                }
            },
            None => {},
        }
        proof {
            broadcast use vstd::seq_lib::group_seq_properties;
            assert forall|ev: GameEvent| #[trigger] added.contains(ev) <==> (is_due_death(*world_grid, ev) && ids@.take(i + 1).contains(ev->attacker)) by {
                assert(ids@.take(i + 1).contains(ev->attacker) <==> (ids@.take(i as int).contains(ev->attacker) || ev->attacker == attacker));
                if !found_cell {
                    assert(added == added_before);
                    if is_due_death(*world_grid, ev) && ev->attacker == attacker {
                        assert(world_grid.entities().dom().contains(attacker));
                        assert(false);
                    }
                }
            }
        }
        i = i + 1;
    }
    proof {
        assert(ids@.take(ids@.len() as int) =~= ids@);
        assert forall|ev: GameEvent| #[trigger] added.contains(ev) <==> is_due_death(*world_grid, ev) by {
            if is_due_death(*world_grid, ev) {
                assert(world_grid.entities().dom().contains(ev->attacker));
                assert(ids@.contains(ev->attacker));
            }
        }
        assert((start + added).take(start.len() as int) =~= start);
        assert((start + added).skip(start.len() as int) =~= added);
    }
}

/// What is drawn of one entity: its sprite at its position, at depth `z_index`.
#[derive(Clone, Copy, PartialEq, Eq, Debug, Structural)]
pub struct RenderItem {
    pub entity: EntityId,
    pub z_index: u32,
    pub position: GridPos,
    pub sprite: SpriteID,
}

/// Whether an entity is drawn: it has a position and a sprite.
pub open spec fn drawable(d: EntityData) -> bool {
    d.position is Some && d.sprite is Some
}

/// The depth an entity is drawn at; 0 without a `ZIndex`.
pub open spec fn depth(d: EntityData) -> u32 {
    match d.z_index {
        Some(z) => z.0,
        None => 0,
    }
}

/// The render item of the drawable entity `k`.
pub open spec fn render_item(world: WorldGrid, k: EntityId) -> RenderItem {
    let d = world.entities()[k];
    RenderItem { entity: k, z_index: depth(d), position: d.position.unwrap().0, sprite: d.sprite.unwrap().0 }
}

/// The render item of an entity draws its own sprite at its own position,
/// at the depth its `ZIndex` gives, or at depth 0 without one.
pub proof fn law_render_item(world: WorldGrid, k: EntityId)
    requires
        drawable(world.entities()[k]),
    ensures
        render_item(world, k).entity == k,
        Some(Sprite(render_item(world, k).sprite)) == world.entities()[k].sprite,
        Some(Position(render_item(world, k).position)) == world.entities()[k].position,
        world.entities()[k].z_index is None ==> render_item(world, k).z_index == 0,
        world.entities()[k].z_index matches Some(z) ==> render_item(world, k).z_index == z.0,
{
}

/// `items` holds one render item of each drawable entity of `world` and nothing else.
pub open spec fn covers_drawables(world: WorldGrid, items: Seq<RenderItem>, ids: Set<EntityId>) -> bool {
    &&& forall|j: int| 0 <= j < items.len() ==> world.entities().dom().contains(#[trigger] items[j].entity)
        && drawable(world.entities()[items[j].entity]) && items[j] == render_item(world, items[j].entity)
    &&& forall|a: int, b: int| 0 <= a < b < items.len() ==> #[trigger] items[a].entity != #[trigger] items[b].entity
    &&& forall|k: EntityId| (exists|j: int| 0 <= j < items.len() && #[trigger] items[j].entity == k)
        <==> (#[trigger] ids.contains(k) && drawable(world.entities()[k]))
}

/// `x` comes before `y` in `s`.
pub open spec fn precedes(s: Seq<EntityId>, x: EntityId, y: EntityId) -> bool {
    exists|i: int, j: int| 0 <= i < j < s.len() && #[trigger] s[i] == x && #[trigger] s[j] == y
}

/// Items of equal depth come in the order `order` lists their entities.
pub open spec fn ties_in_order(items: Seq<RenderItem>, order: Seq<EntityId>) -> bool {
    forall|a: int, b: int| 0 <= a < b < items.len() && #[trigger] items[a].z_index == #[trigger] items[b].z_index
        ==> precedes(order, items[a].entity, items[b].entity)
}

/// Sorted by depth, shallowest first.
pub open spec fn depth_sorted(items: Seq<RenderItem>) -> bool {
    forall|a: int, b: int| 0 <= a < b < items.len() ==> #[trigger] items[a].z_index <= #[trigger] items[b].z_index
}

/// The entities to draw, in drawing order: every entity with a position and
/// a sprite once, ordered by depth (entities of equal depth in the order the
/// world lists them).
#[verifier::spinoff_prover]
#[verifier::rlimit(60)]
pub fn render_queue(world: &WorldGrid) -> (r: Vec<RenderItem>)
    requires
        world.wf(),
    ensures
        covers_drawables(*world, r@, world.entities().dom()),
        depth_sorted(r@),
        ties_in_order(r@, world.order()),
{
    let ids = world.entity_ids();
    let mut queue: Vec<RenderItem> = Vec::new();
    let mut i: usize = 0;
    while i < ids.len()
        invariant
            world.wf(),
            i <= ids@.len(),
            ids@.no_duplicates(),
            forall|k: EntityId| ids@.contains(k) <==> world.entities().dom().contains(k),
            covers_drawables(*world, queue@, ids@.take(i as int).to_set()),
            depth_sorted(queue@),
            ties_in_order(queue@, ids@),
            ids@ == world.order(),
        decreases ids@.len() - i,
    {
        let k = ids[i];
        let ghost prefix = ids@.take(i as int).to_set();
        assert(ids@.take(i + 1).to_set() =~= prefix.insert(k)) by {
            assert(ids@.take(i + 1) =~= ids@.take(i as int).push(k));
            broadcast use vstd::seq_lib::group_seq_properties;
        }
        assert(!prefix.contains(k)) by {
            broadcast use vstd::seq_lib::group_seq_properties;
            if ids@.take(i as int).contains(k) {
                let j = choose|j: int| 0 <= j < i && ids@.take(i as int)[j] == k;
                assert(ids@[j] == ids@[i as int]);
            }
        }
        assert(ids@.contains(k)) by {
            assert(ids@[i as int] == k);
        }
        match world.get_entity(k) {
            Some(d) => {
                match (d.position, d.sprite) {
                    (Some(p), Some(sp)) => {
                        let z: u32 = match d.z_index {
                            Some(zi) => zi.0,
                            None => 0,
                        };
                        let item = RenderItem { entity: k, z_index: z, position: p.0, sprite: sp.0 };
                        assert(item == render_item(*world, k));
                        let mut at: usize = 0;
                        while at < queue.len() && queue[at].z_index <= z
                            invariant
                                at <= queue@.len(),
                                forall|j: int| 0 <= j < at ==> queue@[j].z_index <= z,
                            decreases queue@.len() - at,
                        {
                            at = at + 1;
                        }
                        let ghost before = queue@;
                        queue.insert(at, item);
                        proof {
                            assert(queue@ == before.insert(at as int, item));
                            assert forall|j: int| 0 <= j < queue@.len() implies #[trigger] queue@[j] == (if j < at {
                                before[j]
                            } else if j == at {
                                item
                            } else {
                                before[j - 1]
                            }) by {}
                            assert forall|j: int| at <= j < before.len() implies before[j].z_index > z by {
                                assert(before[at as int].z_index > z);
                                if j > at {
                                    assert(before[at as int].z_index <= before[j].z_index);
                                }
                            }
                            assert(depth_sorted(queue@)) by {
                                assert forall|a: int, b: int| 0 <= a < b < queue@.len() implies #[trigger] queue@[a].z_index <= #[trigger] queue@[b].z_index by {
                                    if b < at {
                                    } else if b == at {
                                    } else if a < at {
                                        assert(before[a].z_index <= z);
                                    } else if a == at {
                                        assert(before[b - 1].z_index > z);
                                    } else {
                                    }
                                }
                            }
                            let next = ids@.take(i + 1).to_set();
                            assert forall|kk: EntityId| (exists|j: int| 0 <= j < queue@.len() && #[trigger] queue@[j].entity == kk)
                                <==> (#[trigger] next.contains(kk) && drawable(world.entities()[kk])) by {
                                if exists|j: int| 0 <= j < queue@.len() && #[trigger] queue@[j].entity == kk {
                                    let j = choose|j: int| 0 <= j < queue@.len() && #[trigger] queue@[j].entity == kk;
                                    if j < at {
                                        assert(before[j].entity == kk);
                                    } else if j > at {
                                        assert(before[j - 1].entity == kk);
                                    }
                                }
                                if next.contains(kk) && drawable(world.entities()[kk]) {
                                    if kk == k {
                                        assert(queue@[at as int].entity == kk);
                                    } else {
                                        assert(prefix.contains(kk));
                                        let j = choose|j: int| 0 <= j < before.len() && #[trigger] before[j].entity == kk;
                                        if j < at {
                                            assert(queue@[j].entity == kk);
                                        } else {
                                            assert(queue@[j + 1].entity == kk);
                                        }
                                    }
                                }
                            }
                            assert forall|jj: int| 0 <= jj < before.len() implies ids@.take(i as int).contains(#[trigger] before[jj].entity) by {
                                assert(prefix.contains(before[jj].entity));
                                broadcast use vstd::seq_lib::group_seq_properties;
                            }
                            lemma_insert_keeps_ties(before, at as int, item, ids@, i as int);
                            assert forall|a: int, b: int| 0 <= a < b < queue@.len() implies #[trigger] queue@[a].entity != #[trigger] queue@[b].entity by {
                                if a == at {
                                    assert(prefix.contains(queue@[b].entity));
                                } else if b == at {
                                    assert(prefix.contains(queue@[a].entity));
                                }
                            }
                        }
                    },
                    _ => {
                        proof {
                            let next = ids@.take(i + 1).to_set();
                            assert forall|kk: EntityId| (exists|j: int| 0 <= j < queue@.len() && #[trigger] queue@[j].entity == kk)
                                <==> (#[trigger] next.contains(kk) && drawable(world.entities()[kk])) by {
                                if next.contains(kk) && drawable(world.entities()[kk]) {
                                    assert(kk != k);
                                    assert(prefix.contains(kk));
                                }
                            }
                        }
                    },
                }
            },
            None => {},
        }
        i = i + 1;
    }
    proof {
        assert(ids@.take(ids@.len() as int) =~= ids@);
        assert(ids@.to_set() =~= world.entities().dom()) by {
            broadcast use vstd::seq_lib::group_seq_properties;
        }
    }
    queue
}

/// Inserting the item of the entity listed `i`-th after every item of no
/// greater depth keeps ties in the order of `ids`.
proof fn lemma_insert_keeps_ties(before: Seq<RenderItem>, at: int, item: RenderItem, ids: Seq<EntityId>, i: int)
    requires
        0 <= at <= before.len(),
        0 <= i < ids.len(),
        item.entity == ids[i],
        forall|j: int| 0 <= j < at ==> before[j].z_index <= item.z_index,
        forall|j: int| at <= j < before.len() ==> before[j].z_index > item.z_index,
        ties_in_order(before, ids),
        forall|jj: int| 0 <= jj < before.len() ==> ids.take(i).contains(#[trigger] before[jj].entity),
    ensures
        ties_in_order(before.insert(at, item), ids),
{
    let q = before.insert(at, item);
    assert forall|a: int, b: int| 0 <= a < b < q.len() && #[trigger] q[a].z_index == #[trigger] q[b].z_index
        implies precedes(ids, q[a].entity, q[b].entity) by {
        if a == at {
            assert(q[b] == before[b - 1]);
        } else if b == at {
            assert(q[a] == before[a]);
            let e = before[a].entity;
            assert(ids.take(i).contains(e));
            let j0 = choose|j0: int| 0 <= j0 < ids.take(i).len() && ids.take(i)[j0] == e;
            assert(ids[j0] == e);
            assert(ids[i] == item.entity);
        } else if a < at && b < at {
            assert(q[a] == before[a] && q[b] == before[b]);
        } else if a < at {
            assert(q[a] == before[a] && q[b] == before[b - 1]);
        } else {
            assert(q[a] == before[a - 1] && q[b] == before[b - 1]);
        }
    }
}

} // verus!
