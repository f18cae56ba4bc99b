//! The gameplay screen: turns, actions, movement and game events.
use vstd::prelude::*;

use crate::components::{
    ActionKind, Animation, AnimationKind, ComponentID, EntityData, LockKind, Locked, MoveOptions,
    Position,
};
use crate::resources::{sprite_name, SoundID};
use crate::systems::{
    animation_advanced, any_animation_active, deaths, is_any_animation_active, is_due_death, mark_dead,
    sprite_updated, update_animations, update_sprites,
};
use crate::utils::spaced_lower;
use crate::events::{GameEvent, GameEventManager};
use crate::geometry::{advance_pos_in_direction, advanced, can_advance, Direction, GridPos};
use crate::grid::EntityId;
use crate::serialize::WorldInfo;
use crate::states::PlannedGameState;
use crate::world_grid::{
    cells_after_loading, consistent, entity_map, grid_position, law_despawn_keeps_consistent, law_loading_is_consistent,
    law_move_keeps_consistent, law_same_places_keep_consistent, links, placed, unlinked_from, unplaced, WorldGrid,
};

verus! {

/// The phase of a gameplay turn.
#[derive(Clone, Copy, PartialEq, Eq, Debug, Structural)]
pub enum TickState {
    ProcessingLogic,
    WaitingForAction,
    Animating,
}

/// The interaction events an entity raises when it walks into `cell`.
pub open spec fn interactions(cell: Seq<EntityId>) -> Seq<GameEvent> {
    cell.map_values(|c: EntityId| GameEvent::EntityInteracted(c))
}

/// Walking into a cell raises one interaction per entity on it, with that
/// entity, in the cell's order.
pub proof fn law_interactions(cell: Seq<EntityId>)
    ensures
        interactions(cell).len() == cell.len(),
        forall|i: int| 0 <= i < cell.len() ==> #[trigger] interactions(cell)[i] == GameEvent::EntityInteracted(cell[i]),
{
}

/// The cell `entity` would step into, when it can move at all: it must be
/// live, movable, on the grid, have a position, and the next cell in
/// `dir` must lie on the grid.
pub open spec fn move_target(world: WorldGrid, entity: EntityId, dir: Direction) -> Option<GridPos> {
    if world.spec_satisfies(entity, ComponentID::Movable) && world.spec_satisfies(entity, ComponentID::OnGrid)
        && world.spec_satisfies(entity, ComponentID::Position)
        && can_advance(world.entities()[entity].position.unwrap().0, dir)
        && world.on_grid(advanced(world.entities()[entity].position.unwrap().0, dir).x, advanced(world.entities()[entity].position.unwrap().0, dir).y) {
        Some(advanced(world.entities()[entity].position.unwrap().0, dir))
    } else {
        None
    }
}

/// Whether a move with `opts` pushes: pushing is asked for and the target cell holds something pushable.
pub open spec fn pushes(world: WorldGrid, target: GridPos, opts: MoveOptions) -> bool {
    opts.can_push && world.cell_has(target.x, target.y, ComponentID::Pushable)
}

/// Two worlds hold the same entities on the same cells.
pub open spec fn same_world(a: WorldGrid, b: WorldGrid) -> bool {
    &&& a.entities() == b.entities()
    &&& a.cells() == b.cells()
    &&& a.spec_width() == b.spec_width()
    &&& a.spec_height() == b.spec_height()
}

/// Worlds with the same entities on the same cells answer the same questions.
pub proof fn lemma_same_world(a: WorldGrid, b: WorldGrid, entity: EntityId, dir: Direction, x: u32, y: u32, c: ComponentID)
    requires
        same_world(a, b),
    ensures
        a.cell_has(x, y, c) == b.cell_has(x, y, c),
        a.spec_satisfies(entity, c) == b.spec_satisfies(entity, c),
        a.on_grid(x, y) == b.on_grid(x, y),
        move_target(a, entity, dir) == move_target(b, entity, dir),
        a.cell_at(x, y) == b.cell_at(x, y),
{
    if a.cell_has(x, y, c) {
        let i = choose|i: int| 0 <= i < a.cell_at(x, y).len() && #[trigger] a.spec_satisfies(a.cell_at(x, y)[i], c);
        assert(b.spec_satisfies(b.cell_at(x, y)[i], c));
    }
    if b.cell_has(x, y, c) {
        let i = choose|i: int| 0 <= i < b.cell_at(x, y).len() && #[trigger] b.spec_satisfies(b.cell_at(x, y)[i], c);
        assert(a.spec_satisfies(a.cell_at(x, y)[i], c));
    }
}

/// The last step of a move, from `old` to `new`: `entity` steps into
/// `target` when no obstacle is there, leaving the cell it stands on and
/// starting a move animation from `start`, the cell it stood on when the
/// move began; otherwise it is despawned when `despawn`, or nothing happens.
pub open spec fn step_into(old: WorldGrid, new: WorldGrid, entity: EntityId, start: GridPos, target: GridPos, despawn: bool) -> bool {
    let pos = old.entities()[entity].position.unwrap().0;
    &&& new.spec_width() == old.spec_width()
    &&& new.spec_height() == old.spec_height()
    &&& if !old.cell_has(target.x, target.y, ComponentID::Obstacle) {
        &&& new.entities() == old.entities().insert(entity, EntityData {
            position: Some(Position(target)),
            animation: Some(Animation::fresh(AnimationKind::Move { start: Position(start), end: Position(target) })),
            ..old.entities()[entity]
        })
        &&& new.cells() == placed(unplaced(old.cells(), old.spec_width(), old.spec_height(), entity, pos), old.spec_width(), old.spec_height(), entity, target)
    } else if despawn {
        &&& new.entities().dom() == old.entities().dom().remove(entity)
        &&& forall|k: EntityId| #[trigger] new.entities().dom().contains(k) ==> unlinked_from(old.entities()[k], new.entities()[k], entity)
        &&& new.cells() == unplaced(old.cells(), old.spec_width(), old.spec_height(), entity, pos)
    } else {
        same_world(old, new)
    }
}

/// The outcome of a move without pushing from `old` to `new`: the entity
/// steps into `target` from where it stands (see `step_into`).
pub open spec fn plain_move(old: WorldGrid, new: WorldGrid, entity: EntityId, opts: MoveOptions, target: GridPos) -> bool {
    step_into(old, new, entity, old.entities()[entity].position.unwrap().0, target, opts.despawn_if_collided)
}

/// `new` differs from `old` only in the moving entity `entity`: every other
/// entity keeps its components, and `entity` keeps all of its components
/// but its position and its animation; or else `entity` was despawned, which
/// `despawn` must allow, and the others at most lost it from their linked
/// entities.
pub open spec fn only_mover_changed(old: WorldGrid, new: WorldGrid, entity: EntityId, despawn: bool) -> bool {
    &&& new.spec_width() == old.spec_width()
    &&& new.spec_height() == old.spec_height()
    &&& if new.entities().dom().contains(entity) || !old.entities().dom().contains(entity) {
        &&& new.entities().dom() == old.entities().dom()
        &&& forall|k: EntityId| k != entity && #[trigger] new.entities().dom().contains(k) ==> new.entities()[k] == old.entities()[k]
        &&& new.entities().dom().contains(entity) ==> new.entities()[entity] == (EntityData {
            position: new.entities()[entity].position,
            animation: new.entities()[entity].animation,
            ..old.entities()[entity]
        })
    } else {
        &&& despawn
        &&& new.entities().dom() == old.entities().dom().remove(entity)
        &&& forall|k: EntityId| #[trigger] new.entities().dom().contains(k) ==> unlinked_from(old.entities()[k], new.entities()[k], entity)
    }
}

/// A step that may not despawn the mover, followed by any step of the same
/// mover, changes no more than one step does.
proof fn lemma_only_mover_changed_trans(a: WorldGrid, b: WorldGrid, c: WorldGrid, entity: EntityId, despawn: bool)
    requires
        only_mover_changed(a, b, entity, false),
        only_mover_changed(b, c, entity, despawn),
    ensures
        only_mover_changed(a, c, entity, despawn),
{
    if c.entities().dom().contains(entity) || !a.entities().dom().contains(entity) {
        assert(c.entities().dom() =~= a.entities().dom());
    } else {
        assert(b.entities().dom().contains(entity));
        assert forall|k: EntityId| #[trigger] c.entities().dom().contains(k) implies unlinked_from(a.entities()[k], c.entities()[k], entity) by {
            assert(b.entities().dom().contains(k));
            assert(b.entities()[k] == a.entities()[k]);
        }
    }
}

/// A world that does not change changes no more than one step does.
proof fn lemma_only_mover_changed_refl(a: WorldGrid, b: WorldGrid, entity: EntityId, despawn: bool)
    requires
        same_world(a, b),
    ensures
        only_mover_changed(a, b, entity, despawn),
{
    if b.entities().dom().contains(entity) {
        let d = a.entities()[entity];
        assert(d == (EntityData { position: d.position, animation: d.animation, ..d }));
    }
}

/// What every move of `entity` with `opts` does to the world (`old_w` to
/// `new_w`) and to the pending events (`old_ev` to `new_ev`): events are only
/// appended, and only interactions; an entity that cannot move changes
/// nothing; a move that does not push is a `plain_move` that raises the
/// mover's interactions with the target cell when it is intelligent; a move
/// into an obstacle that may not despawn leaves the world as it was; only
/// the mover changes; and a consistent world stays consistent.
pub open spec fn move_basics(old_w: WorldGrid, new_w: WorldGrid, old_ev: Seq<GameEvent>, new_ev: Seq<GameEvent>, entity: EntityId, opts: MoveOptions) -> bool {
    &&& new_ev.len() >= old_ev.len()
    &&& new_ev.take(old_ev.len() as int) == old_ev
    &&& forall|i: int| old_ev.len() <= i < new_ev.len() ==> #[trigger] new_ev[i] is EntityInteracted
    &&& move_target(old_w, entity, opts.dir) is None ==> same_world(old_w, new_w) && new_ev == old_ev
    &&& move_target(old_w, entity, opts.dir) matches Some(t) ==> !pushes(old_w, t, opts) ==> {
        &&& plain_move(old_w, new_w, entity, opts, t)
        &&& new_ev == old_ev + if old_w.spec_satisfies(entity, ComponentID::Intelligent) {
            interactions(old_w.cell_at(t.x, t.y))
        } else {
            Seq::<GameEvent>::empty()
        }
    }
    &&& move_target(old_w, entity, opts.dir) matches Some(t) ==> (old_w.cell_has(t.x, t.y, ComponentID::Obstacle) && !opts.despawn_if_collided ==> same_world(old_w, new_w))
    &&& only_mover_changed(old_w, new_w, entity, opts.despawn_if_collided)
    &&& consistent(old_w) ==> consistent(new_w)
}

/// While pushing, the visit of `c`, an entity of the target cell, from
/// `old_w` to `new_w`: the mover raises an interaction with `c` when it is
/// intelligent, then, when `c` is pushable, makes a plain move in `dir`.
pub open spec fn push_visit(old_w: WorldGrid, new_w: WorldGrid, old_ev: Seq<GameEvent>, new_ev: Seq<GameEvent>, entity: EntityId, dir: Direction, c: EntityId) -> bool {
    let raised = old_ev + if old_w.spec_satisfies(entity, ComponentID::Intelligent) {
        seq![GameEvent::EntityInteracted(c)]
    } else {
        Seq::<GameEvent>::empty()
    };
    if old_w.spec_satisfies(c, ComponentID::Pushable) {
        move_basics(old_w, new_w, raised, new_ev, entity, MoveOptions { dir, can_push: false, despawn_if_collided: false })
    } else {
        new_w == old_w && new_ev == raised
    }
}

/// A pushing move of `entity` into `target`, through the states `worlds`
/// and `events`: one visit of each entity the target cell held at the
/// start, in the cell's order, then the last step into `target`, with its
/// animation starting where the mover stood at the start.
pub open spec fn pushed_through(
    old_w: WorldGrid,
    new_w: WorldGrid,
    old_ev: Seq<GameEvent>,
    new_ev: Seq<GameEvent>,
    entity: EntityId,
    opts: MoveOptions,
    target: GridPos,
    worlds: Seq<WorldGrid>,
    events: Seq<Seq<GameEvent>>,
) -> bool {
    let cell = old_w.cell_at(target.x, target.y);
    &&& worlds.len() == cell.len() + 1
    &&& events.len() == cell.len() + 1
    &&& worlds[0] == old_w
    &&& events[0] == old_ev
    &&& forall|i: int| 0 <= i < cell.len() ==> #[trigger] push_visit(worlds[i], worlds[i + 1], events[i], events[i + 1], entity, opts.dir, cell[i])
    &&& step_into(worlds.last(), new_w, entity, old_w.entities()[entity].position.unwrap().0, target, opts.despawn_if_collided)
    &&& new_ev == events.last()
}

/// What one move of `entity` with `opts` does: the facts of `move_basics`,
/// and, for a pushing move, the states it passes through.
pub open spec fn moved_by(old_w: WorldGrid, new_w: WorldGrid, old_ev: Seq<GameEvent>, new_ev: Seq<GameEvent>, entity: EntityId, opts: MoveOptions) -> bool {
    &&& move_basics(old_w, new_w, old_ev, new_ev, entity, opts)
    &&& move_target(old_w, entity, opts.dir) matches Some(t) ==> pushes(old_w, t, opts) ==> exists|worlds: Seq<WorldGrid>, events: Seq<Seq<GameEvent>>|
        #[trigger] pushed_through(old_w, new_w, old_ev, new_ev, entity, opts, t, worlds, events)
}

/// The actions waiting at the front of the queues of the entities listed in
/// `ids`, in the order of `ids`: one per entity of `world` that has an
/// action waiting.
pub open spec fn pending_actions(world: WorldGrid, ids: Seq<EntityId>) -> Seq<(EntityId, ActionKind)>
    decreases ids.len(),
{
    if ids.len() == 0 {
        Seq::empty()
    } else {
        let k = ids.last();
        let rest = pending_actions(world, ids.drop_last());
        if world.entities().dom().contains(k) && has_pending(world.entities()[k]) {
            rest.push((k, first_action(world.entities()[k])))
        } else {
            rest
        }
    }
}

/// `new` is `old` with the first waiting action taken from every queue that
/// has one, and nothing else changed.
pub open spec fn popped(old: WorldGrid, new: WorldGrid) -> bool {
    &&& new.cells() == old.cells()
    &&& new.spec_width() == old.spec_width()
    &&& new.spec_height() == old.spec_height()
    &&& new.entities().dom() == old.entities().dom()
    &&& forall|k: EntityId| #[trigger] new.entities().dom().contains(k) ==> if has_pending(old.entities()[k]) {
        &&& new.entities()[k].action_queue is Some
        &&& new.entities()[k].action_queue.unwrap().0@ == old.entities()[k].action_queue.unwrap().0@.drop_first()
        &&& new.entities()[k] == EntityData { action_queue: new.entities()[k].action_queue, ..old.entities()[k] }
    } else {
        new.entities()[k] == old.entities()[k]
    }
}

/// One action of an entity carried out, as `Gameplay::move_entity` does it.
pub open spec fn action_step(old_w: WorldGrid, new_w: WorldGrid, old_ev: Seq<GameEvent>, new_ev: Seq<GameEvent>, action: (EntityId, ActionKind)) -> bool {
    match action.1 {
        ActionKind::Move(opts) => moved_by(old_w, new_w, old_ev, new_ev, action.0, opts),
    }
}

/// `worlds` and `events` are the states a turn passes through: first
/// `start` with every waiting action taken from its queue, then the state
/// after each of `actions` in turn, carried out one after the other; the
/// last of them is `end`.
pub open spec fn carried_out(
    start: WorldGrid,
    start_ev: Seq<GameEvent>,
    end: WorldGrid,
    end_ev: Seq<GameEvent>,
    actions: Seq<(EntityId, ActionKind)>,
    worlds: Seq<WorldGrid>,
    events: Seq<Seq<GameEvent>>,
) -> bool {
    &&& worlds.len() == actions.len() + 1
    &&& events.len() == actions.len() + 1
    &&& popped(start, worlds[0])
    &&& events[0] == start_ev
    &&& worlds.last() == end
    &&& events.last() == end_ev
    &&& forall|i: int| 0 <= i < actions.len() ==> #[trigger] action_step(worlds[i], worlds[i + 1], events[i], events[i + 1], actions[i])
}

/// A plain move keeps the mover in the world, with a position.
proof fn lemma_plain_move_keeps_position(old_w: WorldGrid, new_w: WorldGrid, old_ev: Seq<GameEvent>, new_ev: Seq<GameEvent>, entity: EntityId, dir: Direction)
    requires
        move_basics(old_w, new_w, old_ev, new_ev, entity, MoveOptions { dir, can_push: false, despawn_if_collided: false }),
        old_w.spec_satisfies(entity, ComponentID::Position),
    ensures
        new_w.spec_satisfies(entity, ComponentID::Position),
        new_w.entities().dom().contains(entity),
{
    match move_target(old_w, entity, dir) {
        None => {},
        Some(t) => {
            if !old_w.cell_has(t.x, t.y, ComponentID::Obstacle) {
                assert(new_w.entities()[entity].position == Some(Position(t)));
            }
        },
    }
}

/// The linked entities of `after` are those of `before` or fewer.
pub open spec fn links_within(before: EntityData, after: EntityData) -> bool {
    match (links(before), links(after)) {
        (Some(s0), Some(s1)) => forall|e: EntityId| #[trigger] s1.contains(e) ==> s0.contains(e),
        (None, None) => true,
        _ => false,
    }
}

/// `after` is `before` with, at most, fewer linked entities and, when
/// `moved`, another position and animation.
pub open spec fn changed_at_most(before: EntityData, after: EntityData, moved: bool) -> bool {
    &&& links_within(before, after)
    &&& after == (EntityData {
        position: if moved { after.position } else { before.position },
        animation: if moved { after.animation } else { before.animation },
        linked_entities: after.linked_entities,
        ..before
    })
}

/// Whether the components `d` hold an action queue with an action waiting.
pub open spec fn has_pending(d: EntityData) -> bool {
    d.action_queue is Some && d.action_queue.unwrap().0@.len() > 0
}

/// The first waiting action of the components `d`.
pub open spec fn first_action(d: EntityData) -> ActionKind {
    d.action_queue.unwrap().0@[0]
}

/// `after` is the entity `before` once a turn of actions was performed: an
/// entity with an action waiting lost it from its queue and may have moved;
/// any entity may have lost despawned entities from its linked entities.
pub open spec fn performed(before: EntityData, after: EntityData) -> bool {
    if has_pending(before) {
        &&& after.action_queue is Some
        &&& after.action_queue.unwrap().0@ == before.action_queue.unwrap().0@.drop_first()
        &&& changed_at_most(EntityData { action_queue: after.action_queue, ..before }, after, true)
    } else {
        changed_at_most(before, after, false)
    }
}

proof fn lemma_changed_at_most_trans(a: EntityData, b: EntityData, c: EntityData, m1: bool, m2: bool)
    requires
        changed_at_most(a, b, m1),
        changed_at_most(b, c, m2),
    ensures
        changed_at_most(a, c, m1 || m2),
{
}

proof fn lemma_unlinked_changes_at_most(before: EntityData, after: EntityData, entity: EntityId)
    requires
        unlinked_from(before, after, entity),
    ensures
        changed_at_most(before, after, false),
{
    match links(before) {
        Some(s0) => {
            assert forall|e: EntityId| #[trigger] s0.filter(crate::grid::other_than(entity)).contains(e) implies s0.contains(e) by {
                s0.lemma_filter_contains_rev(crate::grid::other_than(entity), e);
            }
        },
        None => {},
    }
}

proof fn lemma_changed_at_most_refl(d: EntityData, moved: bool)
    ensures
        changed_at_most(d, d, moved),
{
    match links(d) {
        Some(s) => {
            assert(forall|e: EntityId| #[trigger] s.contains(e) ==> s.contains(e));
        },
        None => {},
    }
}

/// What the player can press while waiting for an action.
#[derive(Clone, Copy, PartialEq, Eq, Debug, Structural)]
pub enum InputKey {
    W,
    A,
    S,
    D,
    Other,
}

/// The move direction a key stands for.
pub open spec fn key_direction(key: InputKey) -> Option<Direction> {
    match key {
        InputKey::W => Some(Direction::North),
        InputKey::A => Some(Direction::West),
        InputKey::S => Some(Direction::South),
        InputKey::D => Some(Direction::East),
        InputKey::Other => None,
    }
}

/// `new` is `old` once the key `key` was read for the players `players`:
/// when a key was pressed, no animation plays and the key stands for a
/// direction, every player with an action queue gets a pushing move that
/// way appended to its queue and nothing else changes; otherwise nothing
/// changes at all.
pub open spec fn input_queued(old: WorldGrid, new: WorldGrid, players: Seq<EntityId>, key: Option<InputKey>) -> bool {
    if key is Some && !any_animation_active(old) && key_direction(key.unwrap()) is Some {
        &&& new.entities().dom() == old.entities().dom()
        &&& new.cells() == old.cells()
        &&& new.spec_width() == old.spec_width()
        &&& new.spec_height() == old.spec_height()
        &&& forall|k: EntityId| #[trigger] new.entities().dom().contains(k) ==> if players.contains(k) && old.spec_satisfies(k, ComponentID::ActionQueue) {
            let before = old.entities()[k];
            let after = new.entities()[k];
            &&& after == EntityData { action_queue: after.action_queue, ..before }
            &&& after.action_queue is Some
            &&& after.action_queue.unwrap().0@ == before.action_queue.unwrap().0@.push(ActionKind::Move(MoveOptions {
                dir: key_direction(key.unwrap()).unwrap(),
                can_push: true,
                despawn_if_collided: false,
            }))
        } else {
            new.entities()[k] == old.entities()[k]
        }
    } else {
        new == old
    }
}

/// Reading W, A, S or D while no animation plays appends to the queue of
/// every player with an action queue a pushing move north, west, south or
/// east respectively, which never despawns, and changes nothing else; any
/// other key, or any key while an animation plays, changes nothing.
pub proof fn law_keys_queue_player_moves(old: WorldGrid, new: WorldGrid, players: Seq<EntityId>, key: InputKey)
    requires
        input_queued(old, new, players, Some(key)),
    ensures
        key == InputKey::Other || any_animation_active(old) ==> new == old,
        key != InputKey::Other && !any_animation_active(old) ==> {
            &&& new.entities().dom() == old.entities().dom()
            &&& new.cells() == old.cells()
            &&& forall|k: EntityId| #[trigger] new.entities().dom().contains(k) && players.contains(k) && old.spec_satisfies(k, ComponentID::ActionQueue)
                ==> new.entities()[k].action_queue is Some && new.entities()[k].action_queue.unwrap().0@
                    == old.entities()[k].action_queue.unwrap().0@.push(ActionKind::Move(MoveOptions {
                        dir: match key {
                            InputKey::W => Direction::North,
                            InputKey::A => Direction::West,
                            InputKey::S => Direction::South,
                            _ => Direction::East,
                        },
                        can_push: true,
                        despawn_if_collided: false,
                    }))
            &&& forall|k: EntityId| #[trigger] new.entities().dom().contains(k) && !(players.contains(k) && old.spec_satisfies(k, ComponentID::ActionQueue))
                ==> new.entities()[k] == old.entities()[k]
        },
{
}

/// The state of a running level.
pub struct Gameplay {
    world_grid: WorldGrid,
    game_events: GameEventManager,
    player_entities: Vec<EntityId>,
    tick_state: TickState,
    is_level_finished: bool,
    should_return_to_menu: bool,
}

impl Gameplay {
    pub closed spec fn wf(self) -> bool {
        &&& self.world_grid.wf()
        &&& self.player_entities@.no_duplicates()
    }

    /// The world of the level.
    pub closed spec fn world(self) -> WorldGrid {
        self.world_grid
    }

    /// The pending game events, oldest first.
    pub closed spec fn events(self) -> Seq<GameEvent> {
        self.game_events.view()
    }

    pub closed spec fn players(self) -> Seq<EntityId> {
        self.player_entities@
    }

    pub closed spec fn spec_tick_state(self) -> TickState {
        self.tick_state
    }

    pub closed spec fn spec_level_finished(self) -> bool {
        self.is_level_finished
    }

    pub closed spec fn spec_return_to_menu(self) -> bool {
        self.should_return_to_menu
    }

    /// Moves `entity` one cell in `opts.dir`, as the gameplay rules have it:
    /// an intelligent entity raises an interaction with everything on the
    /// target cell; when pushing is asked for, each pushable entity there
    /// makes the mover try a plain step first; then the mover steps in
    /// unless an obstacle is there, in which case it is despawned when
    /// `opts.despawn_if_collided`.
    pub fn move_entity(&mut self, entity: EntityId, opts: MoveOptions)
        requires
            old(self).wf(),
        ensures
            final(self).wf(),
            final(self).players() == old(self).players(),
            final(self).spec_tick_state() == old(self).spec_tick_state(),
            final(self).spec_level_finished() == old(self).spec_level_finished(),
            final(self).spec_return_to_menu() == old(self).spec_return_to_menu(),
            moved_by(old(self).world(), final(self).world(), old(self).events(), final(self).events(), entity, opts),
        decreases if opts.can_push { 1int } else { 0int },
    {
        let ghost g0 = self.world_grid;
        let ghost e0 = self.game_events.view();
        proof {
            lemma_only_mover_changed_refl(g0, g0, entity, opts.despawn_if_collided);
            lemma_only_mover_changed_refl(g0, g0, entity, false);
            assert(e0.take(e0.len() as int) =~= e0);
        }
        if !self.world_grid.satisfies(entity, ComponentID::Movable) || !self.world_grid.satisfies(entity, ComponentID::OnGrid) {
            return;
        }
        let pos = match self.world_grid.get_pos(entity) {
            Some(p) => p,
            None => return,
        };
        let advances = match opts.dir {
            Direction::East => pos.x < u32::MAX,
            Direction::South => pos.y < u32::MAX,
            _ => true,
        };
        if !advances {
            return;
        }
        let new_pos = advance_pos_in_direction(pos, opts.dir);
        let cell = match self.world_grid.get_cell_owned(new_pos.x, new_pos.y) {
            Some(cell) => cell,
            None => return,
        };
        assert(move_target(g0, entity, opts.dir) == Some(new_pos));
        let ghost simple = !pushes(g0, new_pos, opts);
        let ghost blocked = g0.cell_has(new_pos.x, new_pos.y, ComponentID::Obstacle);
        let ghost intelligent = g0.spec_satisfies(entity, ComponentID::Intelligent);
        let ghost mut worlds: Seq<WorldGrid> = seq![g0];
        let ghost mut states: Seq<Seq<GameEvent>> = seq![e0];
        let mut i: usize = 0;
        while i < cell.len()
            invariant
                worlds.len() == i + 1,
                states.len() == i + 1,
                worlds[0] == g0,
                states[0] == e0,
                worlds.last() == self.world_grid,
                states.last() == self.game_events.view(),
                opts.can_push ==> forall|j: int| 0 <= j < i ==> #[trigger] push_visit(worlds[j], worlds[j + 1], states[j], states[j + 1], entity, opts.dir, cell@[j]),
                self.world_grid.spec_satisfies(entity, ComponentID::Position),
                self.world_grid.entities()[entity].position.unwrap().0 == pos || !simple,
                self.wf(),
                self.players() == old(self).players(),
                self.spec_tick_state() == old(self).spec_tick_state(),
                self.spec_level_finished() == old(self).spec_level_finished(),
                self.spec_return_to_menu() == old(self).spec_return_to_menu(),
                g0 == old(self).world(),
                e0 == old(self).events(),
                i <= cell@.len(),
                cell@ == g0.cell_at(new_pos.x, new_pos.y),
                move_target(g0, entity, opts.dir) == Some(new_pos),
                simple == !pushes(g0, new_pos, opts),
                blocked == g0.cell_has(new_pos.x, new_pos.y, ComponentID::Obstacle),
                intelligent == g0.spec_satisfies(entity, ComponentID::Intelligent),
                self.game_events.view().len() >= e0.len(),
                self.game_events.view().take(e0.len() as int) == e0,
                forall|j: int| e0.len() <= j < self.game_events.view().len() ==> #[trigger] self.game_events.view()[j] is EntityInteracted,
                (simple || blocked) ==> same_world(g0, self.world_grid),
                simple ==> self.game_events.view() == e0 + if intelligent { interactions(cell@.take(i as int)) } else { Seq::<GameEvent>::empty() },
                opts.can_push || simple,
                only_mover_changed(g0, self.world_grid, entity, false),
                g0.entities().dom().contains(entity),
                consistent(g0) ==> consistent(self.world_grid),
            decreases cell@.len() - i,
        {
            let c = cell[i];
            let ghost before = self.game_events.view();
            let ghost w_i = self.world_grid;
            if self.world_grid.satisfies(entity, ComponentID::Intelligent) {
                self.game_events.add(GameEvent::EntityInteracted(c));
            }
            let ghost raised = self.game_events.view();
            proof {
                assert(raised =~= before + if w_i.spec_satisfies(entity, ComponentID::Intelligent) {
                    seq![GameEvent::EntityInteracted(c)]
                } else {
                    Seq::<GameEvent>::empty()
                });
                assert(self.game_events.view().take(e0.len() as int) =~= e0) by {
                    assert(before.take(e0.len() as int) == e0);
                }
                if simple {
                    assert(cell@.take(i + 1) =~= cell@.take(i as int).push(c));
                    assert(interactions(cell@.take(i + 1)) =~= interactions(cell@.take(i as int)).push(GameEvent::EntityInteracted(c)));
                    if intelligent {
                        assert(self.game_events.view() =~= e0 + interactions(cell@.take(i + 1)));
                    } else {
                        assert(self.game_events.view() =~= e0);
                    }
                }
            }
            if opts.can_push && self.world_grid.satisfies(c, ComponentID::Pushable) {
                proof {
                    assert(cell@[i as int] == c);
                    if same_world(g0, self.world_grid) {
                        lemma_same_world(g0, self.world_grid, c, opts.dir, new_pos.x, new_pos.y, ComponentID::Pushable);
                        assert(g0.spec_satisfies(cell@[i as int], ComponentID::Pushable));
                    }
                    assert(!simple);
                }
                let ghost before_inner = self.world_grid;
                let ghost events_inner = self.game_events.view();
                self.move_entity(entity, MoveOptions::new(opts.dir));
                proof {
                    lemma_only_mover_changed_trans(g0, before_inner, self.world_grid, entity, false);
                    assert(self.game_events.view().take(e0.len() as int) =~= e0) by {
                        assert(self.game_events.view().take(events_inner.len() as int) == events_inner);
                        assert(events_inner.take(e0.len() as int) == e0);
                    }
                    assert forall|j: int| e0.len() <= j < self.game_events.view().len() implies #[trigger] self.game_events.view()[j] is EntityInteracted by {
                        if j < events_inner.len() {
                            assert(self.game_events.view()[j] == self.game_events.view().take(events_inner.len() as int)[j]);
                        }
                    }
                    if blocked {
                        assert(same_world(g0, before_inner));
                        lemma_same_world(g0, before_inner, entity, opts.dir, new_pos.x, new_pos.y, ComponentID::Obstacle);
                        assert(move_target(before_inner, entity, opts.dir) == Some(new_pos));
                        assert(before_inner.cell_has(new_pos.x, new_pos.y, ComponentID::Obstacle));
                    }
                    lemma_plain_move_keeps_position(before_inner, self.world_grid, events_inner, self.game_events.view(), entity, opts.dir);
                }
            }
            proof {
                let ghost worlds_before = worlds;
                let ghost states_before = states;
                worlds = worlds.push(self.world_grid);
                states = states.push(self.game_events.view());
                if opts.can_push {
                    assert forall|j: int| 0 <= j < i + 1 implies #[trigger] push_visit(worlds[j], worlds[j + 1], states[j], states[j + 1], entity, opts.dir, cell@[j]) by {
                        if j < i {
                            assert(worlds[j] == worlds_before[j] && worlds[j + 1] == worlds_before[j + 1]);
                            assert(states[j] == states_before[j] && states[j + 1] == states_before[j + 1]);
                        } else {
                            assert(worlds[j] == w_i && states[j] == before);
                            assert(cell@[j] == c);
                        }
                    }
                }
            }
            i = i + 1;
        }
        proof {
            assert(cell@.take(cell@.len() as int) =~= cell@);
        }
        let ghost before_step = self.world_grid;
        proof {
            if simple || blocked {
                lemma_same_world(g0, before_step, entity, opts.dir, new_pos.x, new_pos.y, ComponentID::Obstacle);
                lemma_same_world(g0, before_step, entity, opts.dir, new_pos.x, new_pos.y, ComponentID::Movable);
                lemma_same_world(g0, before_step, entity, opts.dir, new_pos.x, new_pos.y, ComponentID::OnGrid);
                lemma_same_world(g0, before_step, entity, opts.dir, new_pos.x, new_pos.y, ComponentID::Position);
            }
            assert(before_step.entities()[entity] == (EntityData {
                position: before_step.entities()[entity].position,
                animation: before_step.entities()[entity].animation,
                ..g0.entities()[entity]
            }));
            assert(before_step.spec_satisfies(entity, ComponentID::Movable));
            assert(before_step.spec_satisfies(entity, ComponentID::OnGrid));
            assert(before_step.on_grid(new_pos.x, new_pos.y));
        }
        let success = self.world_grid.move_entity_to_pos(entity, new_pos.x, new_pos.y);
        if success {
            let anim = Animation::new(AnimationKind::Move { start: Position(pos), end: Position(new_pos) });
            let ghost after_step = self.world_grid;
            self.world_grid.insert_animation(entity, anim);
            proof {
                if consistent(g0) {
                    law_move_keeps_consistent(before_step, after_step, entity, new_pos.x, new_pos.y);
                    assert(after_step.entities().dom().contains(entity));
                    assert(self.world_grid.entities().dom() =~= after_step.entities().dom());
                    law_same_places_keep_consistent(after_step, self.world_grid);
                }
                assert(self.world_grid.entities().dom() =~= before_step.entities().dom());
                assert(only_mover_changed(before_step, self.world_grid, entity, opts.despawn_if_collided));
                lemma_only_mover_changed_trans(g0, before_step, self.world_grid, entity, opts.despawn_if_collided);
                assert(self.world_grid.entities() =~= before_step.entities().insert(entity, EntityData {
                    position: Some(Position(new_pos)),
                    animation: Some(Animation::fresh(AnimationKind::Move { start: Position(pos), end: Position(new_pos) })),
                    ..before_step.entities()[entity]
                }));
            }
        } else if opts.despawn_if_collided {
            let _ = self.world_grid.despawn_entity(entity);
            proof {
                if consistent(g0) {
                    law_despawn_keeps_consistent(before_step, self.world_grid, entity);
                }
                assert(before_step.entities().dom().contains(entity));
                assert(!self.world_grid.entities().dom().contains(entity));
                assert(only_mover_changed(before_step, self.world_grid, entity, opts.despawn_if_collided));
                lemma_only_mover_changed_trans(g0, before_step, self.world_grid, entity, opts.despawn_if_collided);
            }
        } else {
            proof {
                lemma_only_mover_changed_refl(before_step, self.world_grid, entity, opts.despawn_if_collided);
                lemma_only_mover_changed_trans(g0, before_step, self.world_grid, entity, opts.despawn_if_collided);
            }
        }
        proof {
            assert(step_into(before_step, self.world_grid, entity, pos, new_pos, opts.despawn_if_collided));
            if pushes(g0, new_pos, opts) {
                assert(pushed_through(g0, self.world_grid, e0, self.game_events.view(), entity, opts, new_pos, worlds, states));
            }
        }
    }

    /// Whether `world` gives `entity` a queue of actions with at least one waiting.
    pub open spec fn has_pending_action(world: WorldGrid, entity: EntityId) -> bool {
        world.spec_satisfies(entity, ComponentID::ActionQueue) && world.entities()[entity].action_queue.unwrap().0@.len() > 0
    }

    /// A level holding `entities` on a grid of the size `info` gives; its
    /// players are the entities that have the `Player` component.
    pub fn new(info: &WorldInfo, entities: Vec<(EntityId, EntityData)>) -> (r: Gameplay)
        requires
            info.width * info.height <= u32::MAX,
            forall|i: int| 0 <= i < entities@.len() ==> (#[trigger] entities@[i]).0 >= 0x1_0000_0000u64,
            forall|i: int, j: int| 0 <= i < entities@.len() && 0 <= j < entities@.len() && i != j
                ==> (#[trigger] entities@[i]).0 % 0x1_0000_0000u64 != (#[trigger] entities@[j]).0 % 0x1_0000_0000u64,
        ensures
            r.wf(),
            r.world().spec_width() == info.width,
            r.world().spec_height() == info.height,
            r.world().entities() == entity_map(entities@),
            r.world().cells() == cells_after_loading(Seq::new((info.width * info.height) as nat, |i: int| Seq::<EntityId>::empty()), info.width, info.height, entities@),
            r.events() == Seq::<GameEvent>::empty(),
            forall|k: EntityId| r.players().contains(k) <==> r.world().spec_satisfies(k, ComponentID::Player),
            r.spec_tick_state() == TickState::ProcessingLogic,
            !r.spec_level_finished(),
            !r.spec_return_to_menu(),
            consistent(r.world()),
    {
        let ghost list = entities@;
        let world_grid = WorldGrid::new(info, entities);
        proof {
            law_loading_is_consistent(world_grid, *info, list);
        }
        let ids = world_grid.entity_ids();
        let mut players: Vec<EntityId> = Vec::new();
        let mut i: usize = 0;
        while i < ids.len()
            invariant
                world_grid.wf(),
                i <= ids@.len(),
                ids@.no_duplicates(),
                forall|k: EntityId| ids@.contains(k) <==> world_grid.entities().dom().contains(k),
                players@.no_duplicates(),
                forall|k: EntityId| players@.contains(k) <==> (ids@.take(i as int).contains(k) && world_grid.spec_satisfies(k, ComponentID::Player)),
            decreases ids@.len() - i,
        {
            let k = ids[i];
            assert(ids@.take(i + 1) =~= ids@.take(i as int).push(k));
            assert(!ids@.take(i as int).contains(k)) by {
                if ids@.take(i as int).contains(k) {
                    let j = choose|j: int| 0 <= j < i && ids@.take(i as int)[j] == k;
                    assert(ids@[j] == ids@[i as int]);
                }
            }
            let ghost prev = players@;
            if world_grid.satisfies(k, ComponentID::Player) {
                players.push(k);
            }
            proof {
                broadcast use vstd::seq_lib::group_seq_properties;
                assert forall|m: EntityId| players@.contains(m) <==> (ids@.take(i + 1).contains(m) && world_grid.spec_satisfies(m, ComponentID::Player)) by {
                    assert(ids@.take(i + 1).contains(m) <==> (ids@.take(i as int).contains(m) || m == k));
                }
            }
            i = i + 1;
        }
        proof {
            assert(ids@.take(ids@.len() as int) =~= ids@);
            assert forall|k: EntityId| world_grid.spec_satisfies(k, ComponentID::Player) implies players@.contains(k) by {
                assert(ids@.contains(k));
            }
        }
        Gameplay {
            world_grid,
            game_events: GameEventManager::new(),
            player_entities: players,
            tick_state: TickState::ProcessingLogic,
            is_level_finished: false,
            should_return_to_menu: false,
        }
    }

    /// The world of the level.
    pub fn world_grid(&self) -> (r: &WorldGrid)
        ensures
            *r == self.world(),
    {
        &self.world_grid
    }

    /// The pending events.
    pub fn game_events(&self) -> (r: &GameEventManager)
        ensures
            r.view() == self.events(),
    {
        &self.game_events
    }

    /// The world and the events, both to be changed by a script.
    pub fn parts_mut(&mut self) -> (r: (&mut WorldGrid, &mut GameEventManager))
        ensures
            *r.0 == old(self).world(),
            r.1.view() == old(self).events(),
            final(self).world() == *final(r.0),
            final(self).events() == final(r.1).view(),
            final(self).players() == old(self).players(),
            final(self).spec_tick_state() == old(self).spec_tick_state(),
            final(self).spec_level_finished() == old(self).spec_level_finished(),
            final(self).spec_return_to_menu() == old(self).spec_return_to_menu(),
    {
        (&mut self.world_grid, &mut self.game_events)
    }

    pub fn tick_state(&self) -> (r: TickState)
        ensures
            r == self.spec_tick_state(),
    {
        self.tick_state
    }

    pub fn is_level_finished(&self) -> (r: bool)
        ensures
            r == self.spec_level_finished(),
    {
        self.is_level_finished
    }

    /// The player asked to leave the level.
    pub fn return_to_menu(&mut self)
        ensures
            final(self).spec_return_to_menu(),
            final(self).world() == old(self).world(),
            final(self).events() == old(self).events(),
            final(self).players() == old(self).players(),
            final(self).spec_tick_state() == old(self).spec_tick_state(),
            final(self).spec_level_finished() == old(self).spec_level_finished(),
    {
        self.should_return_to_menu = true;
    }

    /// The screen to switch to: the menu once the player asked for it.
    pub fn planned(&self) -> (r: Option<PlannedGameState>)
        ensures
            self.spec_return_to_menu() ==> r == Some(PlannedGameState::Menu),
            !self.spec_return_to_menu() ==> r is None,
    {
        if self.should_return_to_menu {
            return Some(PlannedGameState::Menu);
        }
        None
    }

    /// Appends `action` to the queue of every player entity that has one.
    pub fn push_player_action(&mut self, action: ActionKind)
        requires
            old(self).wf(),
        ensures
            final(self).wf(),
            final(self).events() == old(self).events(),
            final(self).players() == old(self).players(),
            final(self).spec_tick_state() == old(self).spec_tick_state(),
            final(self).spec_level_finished() == old(self).spec_level_finished(),
            final(self).spec_return_to_menu() == old(self).spec_return_to_menu(),
            final(self).world().cells() == old(self).world().cells(),
            final(self).world().spec_width() == old(self).world().spec_width(),
            final(self).world().spec_height() == old(self).world().spec_height(),
            final(self).world().entities().dom() == old(self).world().entities().dom(),
            forall|k: EntityId| #[trigger] final(self).world().entities().dom().contains(k) ==> if old(self).players().contains(k) && old(self).world().spec_satisfies(k, ComponentID::ActionQueue) {
                let before = old(self).world().entities()[k];
                let after = final(self).world().entities()[k];
                &&& after == EntityData { action_queue: after.action_queue, ..before }
                &&& after.action_queue is Some
                &&& after.action_queue.unwrap().0@ == before.action_queue.unwrap().0@.push(action)
            } else {
                final(self).world().entities()[k] == old(self).world().entities()[k]
            },
            consistent(old(self).world()) ==> consistent(final(self).world()),
    {
        let ghost start = self.world_grid;
        let mut i: usize = 0;
        while i < self.player_entities.len()
            invariant
                self.wf(),
                self.events() == old(self).events(),
                self.players() == old(self).players(),
                self.spec_tick_state() == old(self).spec_tick_state(),
                self.spec_level_finished() == old(self).spec_level_finished(),
                self.spec_return_to_menu() == old(self).spec_return_to_menu(),
                start == old(self).world(),
                i <= self.players().len(),
                self.world().cells() == start.cells(),
                self.world().spec_width() == start.spec_width(),
                self.world().spec_height() == start.spec_height(),
                self.world().entities().dom() == start.entities().dom(),
                forall|k: EntityId| #[trigger] self.world().entities().dom().contains(k) ==> if self.players().take(i as int).contains(k) && start.spec_satisfies(k, ComponentID::ActionQueue) {
                    let before = start.entities()[k];
                    let after = self.world().entities()[k];
                    &&& after == EntityData { action_queue: after.action_queue, ..before }
                &&& after.action_queue is Some
                    &&& after.action_queue.unwrap().0@ == before.action_queue.unwrap().0@.push(action)
                } else {
                    self.world().entities()[k] == start.entities()[k]
                },
            decreases self.players().len() - i,
        {
            let k = self.player_entities[i];
            let ghost players = self.players();
            assert(players.take(i + 1) =~= players.take(i as int).push(k));
            assert(!players.take(i as int).contains(k)) by {
                if players.take(i as int).contains(k) {
                    let j = choose|j: int| 0 <= j < i && players.take(i as int)[j] == k;
                    assert(players[j] == players[i as int]);
                }
            }
            let ghost before = self.world_grid;
            self.world_grid.add_action(k, action);
            proof {
                broadcast use vstd::seq_lib::group_seq_properties;
                assert forall|m: EntityId| #[trigger] self.world().entities().dom().contains(m) implies (if players.take(i + 1).contains(m) && start.spec_satisfies(m, ComponentID::ActionQueue) {
                    let b = start.entities()[m];
                    let a = self.world().entities()[m];
                    &&& a == EntityData { action_queue: a.action_queue, ..b }
                    &&& a.action_queue is Some
                    &&& a.action_queue.unwrap().0@ == b.action_queue.unwrap().0@.push(action)
                } else {
                    self.world().entities()[m] == start.entities()[m]
                }) by {
                    assert(players.take(i + 1).contains(m) <==> (players.take(i as int).contains(m) || m == k));
                    if m == k {
                        assert(before.entities()[k] == start.entities()[k]);
                    }
                }
            }
            i = i + 1;
        }
        proof {
            assert(self.players().take(self.players().len() as int) =~= self.players());
        }
    }

    /// Takes the first waiting action of every entity and performs them in
    /// turn; returns whether there was any.
    pub fn process_actions(&mut self) -> (r: bool)
        requires
            old(self).wf(),
        ensures
            final(self).wf(),
            r == exists|k: EntityId| #[trigger] Gameplay::has_pending_action(old(self).world(), k),
            !r ==> same_world(old(self).world(), final(self).world()) && final(self).events() == old(self).events(),
            final(self).players() == old(self).players(),
            final(self).spec_tick_state() == old(self).spec_tick_state(),
            final(self).spec_level_finished() == old(self).spec_level_finished(),
            final(self).spec_return_to_menu() == old(self).spec_return_to_menu(),
            final(self).events().len() >= old(self).events().len(),
            final(self).events().take(old(self).events().len() as int) == old(self).events(),
            forall|i: int| old(self).events().len() <= i < final(self).events().len() ==> #[trigger] final(self).events()[i] is EntityInteracted,
            final(self).world().spec_width() == old(self).world().spec_width(),
            final(self).world().spec_height() == old(self).world().spec_height(),
            forall|k: EntityId| #[trigger] final(self).world().entities().dom().contains(k) ==> old(self).world().entities().dom().contains(k)
                && performed(old(self).world().entities()[k], final(self).world().entities()[k]),
            forall|k: EntityId| old(self).world().entities().dom().contains(k) && !#[trigger] final(self).world().entities().dom().contains(k)
                ==> has_pending(old(self).world().entities()[k])
                && (first_action(old(self).world().entities()[k]) matches ActionKind::Move(o) && o.despawn_if_collided),
            consistent(old(self).world()) ==> consistent(final(self).world()),
            r ==> exists|worlds: Seq<WorldGrid>, events: Seq<Seq<GameEvent>>| #[trigger] carried_out(old(self).world(), old(self).events(),
                final(self).world(), final(self).events(), pending_actions(old(self).world(), old(self).world().order()), worlds, events),
    {
        let ghost start = self.world_grid;
        let ids = self.world_grid.entity_ids();
        let mut actions: Vec<(EntityId, ActionKind)> = Vec::new();
        let mut i: usize = 0;
        while i < ids.len()
            invariant
                self.wf(),
                start == old(self).world(),
                self.events() == old(self).events(),
                self.players() == old(self).players(),
                self.spec_tick_state() == old(self).spec_tick_state(),
                self.spec_level_finished() == old(self).spec_level_finished(),
                self.spec_return_to_menu() == old(self).spec_return_to_menu(),
                i <= ids@.len(),
                ids@.no_duplicates(),
                forall|k: EntityId| ids@.contains(k) <==> start.entities().dom().contains(k),
                ids@ == start.order(),
                actions@ == pending_actions(start, ids@.take(i as int)),
                self.world().cells() == start.cells(),
                actions@.len() == 0 ==> same_world(start, self.world()),
                actions@.len() == 0 <==> forall|j: int| 0 <= j < i ==> !Gameplay::has_pending_action(start, #[trigger] ids@[j]),
                self.world().entities().dom() == start.entities().dom(),
                self.world().spec_width() == start.spec_width(),
                self.world().spec_height() == start.spec_height(),
                forall|k: EntityId| #[trigger] self.world().entities().dom().contains(k) ==> if ids@.take(i as int).contains(k) && has_pending(start.entities()[k]) {
                    &&& self.world().entities()[k].action_queue is Some
                    &&& self.world().entities()[k].action_queue.unwrap().0@ == start.entities()[k].action_queue.unwrap().0@.drop_first()
                    &&& self.world().entities()[k] == EntityData { action_queue: self.world().entities()[k].action_queue, ..start.entities()[k] }
                } else {
                    self.world().entities()[k] == start.entities()[k]
                },
                forall|j: int| 0 <= j < actions@.len() ==> start.entities().dom().contains(#[trigger] actions@[j].0)
                    && has_pending(start.entities()[actions@[j].0])
                    && actions@[j].1 == first_action(start.entities()[actions@[j].0])
                    && ids@.take(i as int).contains(actions@[j].0),
                forall|k: EntityId| #[trigger] start.entities().dom().contains(k) && ids@.take(i as int).contains(k) && has_pending(start.entities()[k])
                    ==> exists|j: int| 0 <= j < actions@.len() && #[trigger] actions@[j].0 == k,
                consistent(start) ==> consistent(self.world()),
            decreases ids@.len() - i,
        {
            let k = ids[i];
            assert(ids@.contains(k)) by {
                assert(ids@[i as int] == k);
            }
            assert(ids@.take(i + 1) =~= ids@.take(i as int).push(k));
            assert(ids@.take(i + 1).drop_last() =~= ids@.take(i as int));
            assert(!ids@.take(i as int).contains(k)) by {
                if ids@.take(i as int).contains(k) {
                    let j = choose|j: int| 0 <= j < i && ids@.take(i as int)[j] == k;
                    assert(ids@[j] == ids@[i as int]);
                }
            }
            let ghost before = self.world_grid;
            let ghost actions_before = actions@;
            let ghost listed = pending_actions(start, ids@.take(i + 1));
            assert(listed == if start.entities().dom().contains(k) && has_pending(start.entities()[k]) {
                actions_before.push((k, first_action(start.entities()[k])))
            } else {
                actions_before
            });
            if actions.len() == 0 {
                proof {
                    lemma_same_world(start, before, k, Direction::North, 0, 0, ComponentID::ActionQueue);
                }
            }
            assert(before.entities()[k] == start.entities()[k]);
            match self.world_grid.get_entity(k) {
                Some(mut d) => {
                    let ghost d0 = d;
                    let mut popped: Option<ActionKind> = None;
                    if let Some(queue) = &mut d.action_queue {
                        popped = queue.0.pop_front();
                    }
                    match popped {
                        Some(action) => {
                            assert(has_pending(d0));
                            assert(d == EntityData { action_queue: d.action_queue, ..d0 });
                            let ghost w_pre = self.world_grid;
                            self.world_grid.replace_entity(k, d);
                            proof {
                                if consistent(start) {
                                    assert(self.world().entities().dom() =~= w_pre.entities().dom());
                                    assert forall|m: EntityId| #[trigger] self.world().entities().dom().contains(m)
                                        implies grid_position(self.world().entities()[m]) == grid_position(w_pre.entities()[m]) by {}
                                    law_same_places_keep_consistent(w_pre, self.world_grid);
                                }
                            }
                            actions.push((k, action));
                        },
                        None => {
                            assert(!has_pending(d0));
                        },
                    }
                },
                None => {},
            }
            proof {
                broadcast use vstd::seq_lib::group_seq_properties;
                assert forall|m: EntityId| #[trigger] self.world().entities().dom().contains(m) implies (if ids@.take(i + 1).contains(m) && has_pending(start.entities()[m]) {
                    &&& self.world().entities()[m].action_queue is Some
                    &&& self.world().entities()[m].action_queue.unwrap().0@ == start.entities()[m].action_queue.unwrap().0@.drop_first()
                    &&& self.world().entities()[m] == EntityData { action_queue: self.world().entities()[m].action_queue, ..start.entities()[m] }
                } else {
                    self.world().entities()[m] == start.entities()[m]
                }) by {
                    assert(ids@.take(i + 1).contains(m) <==> (ids@.take(i as int).contains(m) || m == k));
                    if m != k {
                        assert(self.world().entities()[m] == before.entities()[m]);
                    }
                }
                assert forall|j: int| 0 <= j < actions@.len() implies start.entities().dom().contains(#[trigger] actions@[j].0)
                    && has_pending(start.entities()[actions@[j].0])
                    && actions@[j].1 == first_action(start.entities()[actions@[j].0])
                    && ids@.take(i + 1).contains(actions@[j].0) by {
                    if j < actions_before.len() {
                        assert(actions@[j] == actions_before[j]);
                        assert(ids@.take(i as int).contains(actions@[j].0));
                    }
                }
                assert forall|m: EntityId| #[trigger] start.entities().dom().contains(m) && ids@.take(i + 1).contains(m) && has_pending(start.entities()[m])
                    implies exists|j: int| 0 <= j < actions@.len() && #[trigger] actions@[j].0 == m by {
                    if m == k {
                        assert(actions@[actions@.len() - 1].0 == k);
                    } else {
                        assert(ids@.take(i as int).contains(m));
                        let j = choose|j: int| 0 <= j < actions_before.len() && #[trigger] actions_before[j].0 == m;
                        assert(actions@[j] == actions_before[j]);
                    }
                }
            }
            i = i + 1;
        }
        if actions.len() == 0 {
            proof {
                assert forall|k: EntityId| !#[trigger] Gameplay::has_pending_action(start, k) by {
                    if start.entities().dom().contains(k) {
                        assert(ids@.contains(k));
                        let j = choose|j: int| 0 <= j < ids@.len() && ids@[j] == k;
                    }
                }
                assert forall|k: EntityId| #[trigger] self.world().entities().dom().contains(k) implies performed(start.entities()[k], self.world().entities()[k]) by {
                    assert(ids@.contains(k));
                    let j = choose|j: int| 0 <= j < ids@.len() && ids@[j] == k;
                    assert(!Gameplay::has_pending_action(start, ids@[j]));
                    lemma_changed_at_most_refl(start.entities()[k], false);
                }
            }
            return false;
        }
        proof {
            assert(ids@.take(ids@.len() as int) =~= ids@);
            let j = choose|j: int| 0 <= j < ids@.len() && #[trigger] Gameplay::has_pending_action(start, ids@[j]);
            assert(Gameplay::has_pending_action(start, ids@[j]));
        }
        let ghost popped_world = self.world_grid;
        let ghost e0 = self.events();
        proof {
            assert(ids@.take(ids@.len() as int) =~= ids@);
            assert forall|k: EntityId| #[trigger] popped_world.entities().dom().contains(k) implies (if has_pending(start.entities()[k]) {
                &&& popped_world.entities()[k].action_queue is Some
                &&& popped_world.entities()[k].action_queue.unwrap().0@ == start.entities()[k].action_queue.unwrap().0@.drop_first()
                &&& popped_world.entities()[k] == EntityData { action_queue: popped_world.entities()[k].action_queue, ..start.entities()[k] }
            } else {
                popped_world.entities()[k] == start.entities()[k]
            }) by {
                assert(ids@.contains(k));
            }
            assert(popped(start, popped_world));
        }
        let ghost mut worlds: Seq<WorldGrid> = seq![popped_world];
        let ghost mut states: Seq<Seq<GameEvent>> = seq![e0];
        let mut n: usize = 0;
        while n < actions.len()
            invariant
                self.wf(),
                actions@ == pending_actions(old(self).world(), old(self).world().order()),
                popped(old(self).world(), popped_world),
                worlds.len() == n + 1,
                states.len() == n + 1,
                worlds[0] == popped_world,
                states[0] == e0,
                worlds.last() == self.world(),
                states.last() == self.events(),
                forall|j: int| 0 <= j < n ==> #[trigger] action_step(worlds[j], worlds[j + 1], states[j], states[j + 1], actions@[j]),
                self.players() == old(self).players(),
                self.spec_tick_state() == old(self).spec_tick_state(),
                self.spec_level_finished() == old(self).spec_level_finished(),
                self.spec_return_to_menu() == old(self).spec_return_to_menu(),
                e0 == old(self).events(),
                n <= actions@.len(),
                self.events().len() >= old(self).events().len(),
                self.events().take(old(self).events().len() as int) == old(self).events(),
                forall|i: int| old(self).events().len() <= i < self.events().len() ==> #[trigger] self.events()[i] is EntityInteracted,
                self.world().spec_width() == popped_world.spec_width(),
                self.world().spec_height() == popped_world.spec_height(),
                forall|k: EntityId| #[trigger] self.world().entities().dom().contains(k) ==> popped_world.entities().dom().contains(k),
                forall|k: EntityId| popped_world.entities().dom().contains(k) && !#[trigger] self.world().entities().dom().contains(k)
                    ==> exists|j: int| 0 <= j < n && #[trigger] actions@[j].0 == k && (actions@[j].1 matches ActionKind::Move(o) && o.despawn_if_collided),
                forall|k: EntityId| #[trigger] self.world().entities().dom().contains(k)
                    ==> changed_at_most(popped_world.entities()[k], self.world().entities()[k], exists|j: int| 0 <= j < n && #[trigger] actions@[j].0 == k),
                consistent(old(self).world()) ==> consistent(self.world()),
            decreases actions@.len() - n,
        {
            proof {
                if n == 0 {
                    assert forall|k: EntityId| #[trigger] self.world().entities().dom().contains(k)
                        implies changed_at_most(popped_world.entities()[k], self.world().entities()[k], exists|j: int| 0 <= j < n && #[trigger] actions@[j].0 == k) by {
                        lemma_changed_at_most_refl(popped_world.entities()[k], false);
                    }
                }
            }
            let (entity, action) = actions[n];
            let ghost before = self.events();
            let ghost w_before = self.world_grid;
            let ghost opts_despawn = match action {
                ActionKind::Move(o) => o.despawn_if_collided,
            };
            match action {
                ActionKind::Move(opts) => self.move_entity(entity, opts),
            }
            proof {
                let ghost worlds_before = worlds;
                let ghost states_before = states;
                worlds = worlds.push(self.world_grid);
                states = states.push(self.events());
                assert(actions@[n as int] == (entity, action));
                assert forall|j: int| 0 <= j < n + 1 implies #[trigger] action_step(worlds[j], worlds[j + 1], states[j], states[j + 1], actions@[j]) by {
                    if j < n {
                        assert(worlds[j] == worlds_before[j] && worlds[j + 1] == worlds_before[j + 1]);
                        assert(states[j] == states_before[j] && states[j + 1] == states_before[j + 1]);
                    } else {
                        assert(worlds[j] == w_before && states[j] == before);
                    }
                }
            }
            proof {
                assert(self.events().take(old(self).events().len() as int) =~= old(self).events()) by {
                    assert(self.events().take(before.len() as int) == before);
                    assert(before.take(old(self).events().len() as int) == old(self).events());
                }
                assert forall|i: int| old(self).events().len() <= i < self.events().len() implies #[trigger] self.events()[i] is EntityInteracted by {
                    if i < before.len() {
                        assert(self.events()[i] == self.events().take(before.len() as int)[i]);
                        assert(before[i] is EntityInteracted);
                    }
                }
                assert(only_mover_changed(w_before, self.world_grid, entity, opts_despawn));
                assert(actions@[n as int] == (entity, action));
                assert forall|k: EntityId| popped_world.entities().dom().contains(k) && !#[trigger] self.world().entities().dom().contains(k)
                    implies exists|j: int| 0 <= j < n + 1 && #[trigger] actions@[j].0 == k && (actions@[j].1 matches ActionKind::Move(o) && o.despawn_if_collided) by {
                    if w_before.entities().dom().contains(k) {
                        assert(k == entity);
                        assert(opts_despawn);
                        assert(actions@[n as int].0 == k);
                    } else {
                        let j = choose|j: int| 0 <= j < n && #[trigger] actions@[j].0 == k && (actions@[j].1 matches ActionKind::Move(o) && o.despawn_if_collided);
                        assert(0 <= j < n + 1 && actions@[j].0 == k);
                    }
                }
                assert forall|k: EntityId| #[trigger] self.world().entities().dom().contains(k)
                    implies changed_at_most(popped_world.entities()[k], self.world().entities()[k], exists|j: int| 0 <= j < n + 1 && #[trigger] actions@[j].0 == k) by {
                    assert(w_before.entities().dom().contains(k));
                    let was = exists|j: int| 0 <= j < n && #[trigger] actions@[j].0 == k;
                    let is = exists|j: int| 0 <= j < n + 1 && #[trigger] actions@[j].0 == k;
                    if k == entity {
                        assert(actions@[n as int].0 == k);
                        assert(is);
                        let d = w_before.entities()[k];
                        lemma_changed_at_most_refl(d, true);
                        assert(changed_at_most(d, self.world().entities()[k], true)) by {
                            assert(links(self.world().entities()[k]) == links(d));
                        }
                        lemma_changed_at_most_trans(popped_world.entities()[k], d, self.world().entities()[k], was, true);
                    } else {
                        assert(is == was) by {
                            if is {
                                let j = choose|j: int| 0 <= j < n + 1 && #[trigger] actions@[j].0 == k;
                                assert(j < n);
                            }
                        }
                        if self.world().entities().dom().contains(entity) || !w_before.entities().dom().contains(entity) {
                            assert(self.world().entities()[k] == w_before.entities()[k]);
                            lemma_changed_at_most_refl(w_before.entities()[k], false);
                        } else {
                            lemma_unlinked_changes_at_most(w_before.entities()[k], self.world().entities()[k], entity);
                        }
                        lemma_changed_at_most_trans(popped_world.entities()[k], w_before.entities()[k], self.world().entities()[k], was, false);
                    }
                }
            }
            n = n + 1;
        }
        proof {
            assert(carried_out(old(self).world(), old(self).events(), self.world(), self.events(),
                pending_actions(old(self).world(), old(self).world().order()), worlds, states));
            assert forall|k: EntityId| #[trigger] self.world().entities().dom().contains(k) implies old(self).world().entities().dom().contains(k)
                && performed(old(self).world().entities()[k], self.world().entities()[k]) by {
                let moved = exists|j: int| 0 <= j < actions@.len() && #[trigger] actions@[j].0 == k;
                assert(popped_world.entities().dom().contains(k));
                assert(ids@.contains(k));
                if has_pending(start.entities()[k]) {
                    assert(moved);
                    let pk = popped_world.entities()[k];
                    let fk = self.world().entities()[k];
                    assert(fk.action_queue == pk.action_queue);
                } else {
                    assert(!moved) by {
                        if moved {
                            let j = choose|j: int| 0 <= j < actions@.len() && #[trigger] actions@[j].0 == k;
                            assert(has_pending(start.entities()[actions@[j].0]));
                        }
                    }
                    assert(popped_world.entities()[k] == start.entities()[k]);
                }
            }
            assert forall|k: EntityId| old(self).world().entities().dom().contains(k) && !#[trigger] self.world().entities().dom().contains(k)
                implies has_pending(old(self).world().entities()[k])
                && (first_action(old(self).world().entities()[k]) matches ActionKind::Move(o) && o.despawn_if_collided) by {
                assert(popped_world.entities().dom().contains(k));
                let j = choose|j: int| 0 <= j < actions@.len() && #[trigger] actions@[j].0 == k && (actions@[j].1 matches ActionKind::Move(o) && o.despawn_if_collided);
                assert(actions@[j].1 == first_action(start.entities()[k]));
            }
        }
        true
    }

    /// Adds the deaths the world calls for (see `systems::mark_dead`).
    pub fn mark_dead(&mut self)
        requires
            old(self).wf(),
        ensures
            final(self).wf(),
            final(self).world() == old(self).world(),
            final(self).players() == old(self).players(),
            final(self).spec_tick_state() == old(self).spec_tick_state(),
            final(self).spec_level_finished() == old(self).spec_level_finished(),
            final(self).spec_return_to_menu() == old(self).spec_return_to_menu(),
            final(self).events().len() >= old(self).events().len(),
            final(self).events().take(old(self).events().len() as int) == old(self).events(),
            final(self).events().skip(old(self).events().len() as int).no_duplicates(),
            forall|ev: GameEvent| #[trigger] final(self).events().skip(old(self).events().len() as int).contains(ev) <==> is_due_death(old(self).world(), ev),
            final(self).events() == old(self).events() + deaths(old(self).world(), old(self).world().order()),
            consistent(old(self).world()) ==> consistent(final(self).world()),
    {
        mark_dead(&self.world_grid, &mut self.game_events);
    }

    /// Handles the event added last: doors lock, unlock and open, an entity
    /// going downstairs leaves and finishes the level, a killed entity
    /// leaves; returns what happened, `None` when no event was pending.
    pub fn process_next_event(&mut self) -> (r: Option<EventOutcome>)
        requires
            old(self).wf(),
        ensures
            final(self).wf(),
            final(self).players() == old(self).players(),
            final(self).spec_tick_state() == old(self).spec_tick_state(),
            final(self).spec_return_to_menu() == old(self).spec_return_to_menu(),
            old(self).events().len() == 0 ==> r is None && final(self).events() == old(self).events()
                && final(self).world() == old(self).world() && final(self).spec_level_finished() == old(self).spec_level_finished(),
            old(self).events().len() > 0 ==> final(self).events() == old(self).events().drop_last(),
            old(self).events().len() > 0 ==> r is Some,
            old(self).events().len() > 0 ==> handled(old(self).world(), final(self).world(), old(self).events().last(), r->Some_0),
            old(self).events().len() > 0 ==> final(self).spec_level_finished() == (old(self).spec_level_finished() || old(self).events().last() is EntityWentDowntairs),
            consistent(old(self).world()) ==> consistent(final(self).world()),
    {
        let event = match self.game_events.take_last() {
            Some(e) => e,
            None => return None,
        };
        let ghost w0 = self.world_grid;
        let out = match event {
            GameEvent::DoorLock(entity) => {
                let _ = self.world_grid.set_locked(entity, Some(Locked(LockKind::Basic)));
                EventOutcome::DoorLocked(entity)
            },
            GameEvent::DoorUnlock(entity) => {
                let _ = self.world_grid.set_locked(entity, None);
                proof {
                    if w0.entities().dom().contains(entity) && w0.entities()[entity].locked is None {
                        assert(w0.entities().insert(entity, EntityData { locked: None, ..w0.entities()[entity] }) =~= w0.entities());
                    }
                }
                EventOutcome::DoorUnlocked(entity)
            },
            GameEvent::DoorOpen(entity) => {
                let _ = self.world_grid.despawn_entity(entity);
                EventOutcome::DoorOpened(entity)
            },
            GameEvent::EntityWentDowntairs(entity) => {
                let name = entity_sprite_text_default(&self.world_grid, entity);
                let _ = self.world_grid.despawn_entity(entity);
                self.is_level_finished = true;
                EventOutcome::WentDownstairs { entity, name }
            },
            GameEvent::EntityInteracted(entity) => EventOutcome::Interacted(entity),
            GameEvent::EntityDeath { target, attacker } => {
                let target_name = entity_sprite_text_default(&self.world_grid, target);
                let attacker_name = entity_sprite_text_default(&self.world_grid, attacker);
                let _ = self.world_grid.despawn_entity(target);
                EventOutcome::Died { target, target_name, attacker_name }
            },
        };
        assert(handled(w0, self.world_grid, event, out));
        proof {
            if consistent(w0) {
                match event {
                    GameEvent::DoorLock(e) => {
                        assert(self.world_grid.entities().dom() =~= w0.entities().dom());
                        law_same_places_keep_consistent(w0, self.world_grid);
                    },
                    GameEvent::DoorUnlock(e) => {
                        assert(self.world_grid.entities().dom() =~= w0.entities().dom());
                        law_same_places_keep_consistent(w0, self.world_grid);
                    },
                    GameEvent::DoorOpen(e) => law_despawn_keeps_consistent(w0, self.world_grid, e),
                    GameEvent::EntityWentDowntairs(e) => law_despawn_keeps_consistent(w0, self.world_grid, e),
                    GameEvent::EntityInteracted(e) => {},
                    GameEvent::EntityDeath { target, attacker } => law_despawn_keeps_consistent(w0, self.world_grid, target),
                }
            }
        }
        Some(out)
    }

    /// Advances the turn: doors take their lock sprites, then the turn's
    /// phase says what comes next.
    pub fn update(&mut self) -> (r: UpdateRequest)
        requires
            old(self).wf(),
        ensures
            final(self).wf(),
            final(self).events() == old(self).events(),
            final(self).players() == old(self).players(),
            final(self).spec_level_finished() == old(self).spec_level_finished(),
            final(self).spec_return_to_menu() == old(self).spec_return_to_menu(),
            final(self).world().entities().dom() == old(self).world().entities().dom(),
            forall|k: EntityId| #[trigger] final(self).world().entities().dom().contains(k) ==> final(self).world().entities()[k] == sprite_updated(old(self).world().entities()[k]),
            final(self).world().cells() == old(self).world().cells(),
            old(self).spec_tick_state() == TickState::ProcessingLogic ==> r == UpdateRequest::RunLogicalTick && final(self).spec_tick_state() == TickState::WaitingForAction,
            old(self).spec_tick_state() == TickState::WaitingForAction ==> r == UpdateRequest::PollInput && final(self).spec_tick_state() == TickState::WaitingForAction,
            old(self).spec_tick_state() == TickState::Animating ==> if any_animation_active(final(self).world()) {
                r == UpdateRequest::AdvanceAnimations && final(self).spec_tick_state() == TickState::Animating
            } else {
                r == UpdateRequest::Nothing && final(self).spec_tick_state() == TickState::ProcessingLogic
            },
            consistent(old(self).world()) ==> consistent(final(self).world()),
    {
        update_sprites(&mut self.world_grid);
        match self.tick_state {
            TickState::ProcessingLogic => {
                self.tick_state = TickState::WaitingForAction;
                UpdateRequest::RunLogicalTick
            },
            TickState::WaitingForAction => UpdateRequest::PollInput,
            TickState::Animating => {
                if is_any_animation_active(&self.world_grid) {
                    UpdateRequest::AdvanceAnimations
                } else {
                    self.tick_state = TickState::ProcessingLogic;
                    UpdateRequest::Nothing
                }
            },
        }
    }

    /// Reads the key pressed while waiting for an action: without a key, or
    /// while an animation plays, nothing happens and the result is false;
    /// W, A, S, D queue a pushing move north, west, south, east for the
    /// players; any key gives true.
    pub fn update_input(&mut self, key: Option<InputKey>) -> (r: bool)
        requires
            old(self).wf(),
        ensures
            final(self).wf(),
            r == (key is Some && !any_animation_active(old(self).world())),
            final(self).events() == old(self).events(),
            final(self).players() == old(self).players(),
            final(self).spec_tick_state() == old(self).spec_tick_state(),
            final(self).spec_level_finished() == old(self).spec_level_finished(),
            final(self).spec_return_to_menu() == old(self).spec_return_to_menu(),
            input_queued(old(self).world(), final(self).world(), old(self).players(), key),
            consistent(old(self).world()) ==> consistent(final(self).world()),
    {
        let key = match key {
            Some(k) => k,
            None => return false,
        };
        if is_any_animation_active(&self.world_grid) {
            return false;
        }
        let dir = match key {
            InputKey::W => Some(Direction::North),
            InputKey::A => Some(Direction::West),
            InputKey::S => Some(Direction::South),
            InputKey::D => Some(Direction::East),
            InputKey::Other => None,
        };
        if let Some(dir) = dir {
            self.push_player_action(ActionKind::Move(MoveOptions { dir, can_push: true, despawn_if_collided: false }));
        }
        true
    }

    /// The waiting phase: when a key was read and some action got performed,
    /// the turn moves on to animating.
    pub fn handle_input(&mut self, key: Option<InputKey>)
        requires
            old(self).wf(),
            old(self).spec_tick_state() == TickState::WaitingForAction,
        ensures
            final(self).wf(),
            final(self).players() == old(self).players(),
            final(self).spec_level_finished() == old(self).spec_level_finished(),
            final(self).spec_return_to_menu() == old(self).spec_return_to_menu(),
            key is None ==> final(self).world() == old(self).world() && final(self).events() == old(self).events()
                && final(self).spec_tick_state() == TickState::WaitingForAction,
            final(self).spec_tick_state() == TickState::Animating || final(self).spec_tick_state() == TickState::WaitingForAction,
            final(self).spec_tick_state() == TickState::Animating <==> (key is Some && !any_animation_active(old(self).world())
                && ((exists|k: EntityId| #[trigger] Gameplay::has_pending_action(old(self).world(), k))
                    || (key_direction(key.unwrap()) is Some && exists|k: EntityId| old(self).players().contains(k)
                        && #[trigger] old(self).world().spec_satisfies(k, ComponentID::ActionQueue)))),
            consistent(old(self).world()) ==> consistent(final(self).world()),
            exists|queued: WorldGrid| #[trigger] input_queued(old(self).world(), queued, old(self).players(), key)
                && (final(self).spec_tick_state() == TickState::Animating ==> exists|worlds: Seq<WorldGrid>, events: Seq<Seq<GameEvent>>|
                    #[trigger] carried_out(queued, old(self).events(), final(self).world(), final(self).events(), pending_actions(queued, queued.order()), worlds, events))
                && (final(self).spec_tick_state() == TickState::WaitingForAction ==> same_world(queued, final(self).world()) && final(self).events() == old(self).events()),
    {
        let ghost w0 = self.world_grid;
        let read = self.update_input(key);
        let ghost w1 = self.world_grid;
        proof {
            assert(input_queued(w0, w1, old(self).players(), key));
        }
        proof {
            if read {
                let wanted = (exists|k: EntityId| #[trigger] Gameplay::has_pending_action(w0, k))
                    || (key_direction(key.unwrap()) is Some && exists|k: EntityId| old(self).players().contains(k)
                        && #[trigger] w0.spec_satisfies(k, ComponentID::ActionQueue));
                if key_direction(key.unwrap()) is Some {
                    if exists|k: EntityId| old(self).players().contains(k) && #[trigger] w0.spec_satisfies(k, ComponentID::ActionQueue) {
                        let k = choose|k: EntityId| old(self).players().contains(k) && #[trigger] w0.spec_satisfies(k, ComponentID::ActionQueue);
                        assert(w1.entities().dom().contains(k));
                        assert(Gameplay::has_pending_action(w1, k));
                    }
                    if exists|k: EntityId| #[trigger] Gameplay::has_pending_action(w0, k) {
                        let k = choose|k: EntityId| #[trigger] Gameplay::has_pending_action(w0, k);
                        assert(w1.entities().dom().contains(k));
                        assert(Gameplay::has_pending_action(w1, k));
                    }
                    if exists|k: EntityId| #[trigger] Gameplay::has_pending_action(w1, k) {
                        let k = choose|k: EntityId| #[trigger] Gameplay::has_pending_action(w1, k);
                        if !(old(self).players().contains(k) && w0.spec_satisfies(k, ComponentID::ActionQueue)) {
                            assert(Gameplay::has_pending_action(w0, k));
                        }
                    }
                } else {
                    assert(w1 == w0);
                }
                assert((exists|k: EntityId| #[trigger] Gameplay::has_pending_action(w1, k)) == wanted);
            }
        }
        let ghost e1 = self.events();
        assert(e1 == old(self).events());
        if read {
            if self.process_actions() {
                self.tick_state = TickState::Animating;
                proof {
                    let (worlds, events) = choose|worlds: Seq<WorldGrid>, events: Seq<Seq<GameEvent>>|
                        #[trigger] carried_out(w1, e1, self.world(), self.events(), pending_actions(w1, w1.order()), worlds, events);
                    assert(carried_out(w1, old(self).events(), self.world(), self.events(), pending_actions(w1, w1.order()), worlds, events));
                }
            }
        } else {
            proof {
                assert(same_world(w1, self.world()));
            }
        }
        proof {
            assert(input_queued(w0, w1, old(self).players(), key));
        }
    }

    /// Plays all animations `delta_ms` further (see `systems::update_animations`).
    pub fn advance_animations(&mut self, delta_ms: u32)
        requires
            old(self).wf(),
        ensures
            final(self).wf(),
            final(self).events() == old(self).events(),
            final(self).players() == old(self).players(),
            final(self).spec_tick_state() == old(self).spec_tick_state(),
            final(self).spec_level_finished() == old(self).spec_level_finished(),
            final(self).spec_return_to_menu() == old(self).spec_return_to_menu(),
            final(self).world().cells() == old(self).world().cells(),
            final(self).world().entities().dom() == old(self).world().entities().dom(),
            forall|k: EntityId| #[trigger] final(self).world().entities().dom().contains(k) ==> final(self).world().entities()[k] == animation_advanced(old(self).world().entities()[k], delta_ms),
            consistent(old(self).world()) ==> consistent(final(self).world()),
    {
        update_animations(&mut self.world_grid, delta_ms);
    }
}

/// What the gameplay loop is asked to do after `Gameplay::update`.
#[derive(Clone, Copy, PartialEq, Eq, Debug, Structural)]
pub enum UpdateRequest {
    /// Run the scripts, then `mark_dead`, then handle the events.
    RunLogicalTick,
    /// Read a key and pass it to `handle_input`.
    PollInput,
    /// Pass the frame's animation time to `advance_animations`.
    AdvanceAnimations,
    /// Nothing this frame.
    Nothing,
}

/// What handling one game event did.
pub enum EventOutcome {
    DoorLocked(EntityId),
    DoorUnlocked(EntityId),
    DoorOpened(EntityId),
    WentDownstairs { entity: EntityId, name: String },
    Interacted(EntityId),
    Died { target: EntityId, target_name: String, attacker_name: String },
}

impl EventOutcome {
    /// The sound that goes with the outcome.
    pub open spec fn spec_sound(&self) -> Option<SoundID> {
        match self {
            EventOutcome::DoorLocked(_) => Some(SoundID::Lock),
            EventOutcome::DoorUnlocked(_) => Some(SoundID::Unlock),
            EventOutcome::DoorOpened(_) => Some(SoundID::DoorOpen),
            EventOutcome::WentDownstairs { .. } => Some(SoundID::LevelFinished),
            EventOutcome::Interacted(_) => None,
            EventOutcome::Died { .. } => Some(SoundID::Death),
        }
    }

    /// The sound that goes with the outcome.
    pub fn sound(&self) -> (r: Option<SoundID>)
        ensures
            r == self.spec_sound(),
    {
        match self {
            EventOutcome::DoorLocked(_) => Some(SoundID::Lock),
            EventOutcome::DoorUnlocked(_) => Some(SoundID::Unlock),
            EventOutcome::DoorOpened(_) => Some(SoundID::DoorOpen),
            EventOutcome::WentDownstairs { .. } => Some(SoundID::LevelFinished),
            EventOutcome::Interacted(_) => None,
            EventOutcome::Died { .. } => Some(SoundID::Death),
        }
    }

    /// Whether the outcome is a hit that flashes the screen.
    pub fn is_hit(&self) -> (r: bool)
        ensures
            r == (self is Died),
    {
        match self {
            EventOutcome::Died { .. } => true,
            _ => false,
        }
    }
}

/// The humanized sprite name of a live entity that has a sprite.
pub open spec fn sprite_text(world: WorldGrid, entity: EntityId) -> Option<Seq<char>> {
    if world.entities().dom().contains(entity) && world.entities()[entity].sprite is Some {
        Some(spaced_lower(sprite_name(world.entities()[entity].sprite.unwrap().0)))
    } else {
        None
    }
}

/// The humanized sprite name of `entity`, `None` when it is not live or has no sprite.
pub fn entity_sprite_text(world: &WorldGrid, entity: EntityId) -> (r: Option<String>)
    requires
        world.wf(),
    ensures
        r is Some <==> sprite_text(*world, entity) is Some,
        r matches Some(t) ==> t@ == sprite_text(*world, entity)->Some_0,
{
    match world.get_entity(entity) {
        Some(d) => match d.sprite {
            Some(sprite) => Some(sprite.0.humanize()),
            None => None,
        },
        None => None,
    }
}

/// The humanized sprite name of `entity`, or "Unknown".
pub fn entity_sprite_text_default(world: &WorldGrid, entity: EntityId) -> (r: String)
    requires
        world.wf(),
    ensures
        r@ == match sprite_text(*world, entity) {
            Some(t) => t,
            None => "Unknown"@,
        },
{
    match entity_sprite_text(world, entity) {
        Some(t) => t,
        None => String::from_str("Unknown"),
    }
}

/// `outcome` reports `event`, and `new` is `old` after the event took effect.
pub open spec fn handled(old: WorldGrid, new: WorldGrid, event: GameEvent, outcome: EventOutcome) -> bool {
    match event {
        GameEvent::DoorLock(e) => {
            &&& outcome == EventOutcome::DoorLocked(e)
            &&& new.cells() == old.cells()
            &&& new.entities() == if old.entities().dom().contains(e) {
                old.entities().insert(e, EntityData { locked: Some(Locked(LockKind::Basic)), ..old.entities()[e] })
            } else {
                old.entities()
            }
        },
        GameEvent::DoorUnlock(e) => {
            &&& outcome == EventOutcome::DoorUnlocked(e)
            &&& new.cells() == old.cells()
            &&& new.entities() == if old.entities().dom().contains(e) {
                old.entities().insert(e, EntityData { locked: None, ..old.entities()[e] })
            } else {
                old.entities()
            }
        },
        GameEvent::DoorOpen(e) => {
            &&& outcome == EventOutcome::DoorOpened(e)
            &&& WorldGrid::despawned(old, new, e)
        },
        GameEvent::EntityWentDowntairs(e) => {
            &&& outcome matches EventOutcome::WentDownstairs { entity, name } && entity == e && name@ == match sprite_text(old, e) {
                Some(t) => t,
                None => "Unknown"@,
            }
            &&& WorldGrid::despawned(old, new, e)
        },
        GameEvent::EntityInteracted(e) => {
            &&& outcome == EventOutcome::Interacted(e)
            &&& new == old
        },
        GameEvent::EntityDeath { target, attacker } => {
            &&& outcome matches EventOutcome::Died { target: t, target_name, attacker_name } && t == target
                && target_name@ == match sprite_text(old, target) {
                Some(s) => s,
                None => "Unknown"@,
            } && attacker_name@ == match sprite_text(old, attacker) {
                Some(s) => s,
                None => "Unknown"@,
            }
            &&& WorldGrid::despawned(old, new, target)
        },
    }
}

/// What handling one event does: a lock event locks a live door and an
/// unlock event unlocks it, both keeping every entity; opening a door, going
/// downstairs and dying remove that entity (the door, the one going down,
/// the victim) and no other; an interaction changes nothing. Each outcome
/// plays its own sound: lock, unlock, door opening, level finished and
/// death; an interaction plays none.
pub proof fn law_events_do_what_they_name(old: WorldGrid, new: WorldGrid, event: GameEvent, outcome: EventOutcome)
    requires
        handled(old, new, event, outcome),
    ensures
        event matches GameEvent::DoorLock(e) ==> (outcome.spec_sound() == Some(SoundID::Lock)
            && new.entities().dom() == old.entities().dom()
            && (old.entities().dom().contains(e) ==> new.entities()[e].locked == Some(Locked(LockKind::Basic)))),
        event matches GameEvent::DoorUnlock(e) ==> (outcome.spec_sound() == Some(SoundID::Unlock)
            && new.entities().dom() == old.entities().dom()
            && (old.entities().dom().contains(e) ==> new.entities()[e].locked is None)),
        event matches GameEvent::DoorOpen(e) ==> (outcome.spec_sound() == Some(SoundID::DoorOpen)
            && new.entities().dom() == old.entities().dom().remove(e)),
        event matches GameEvent::EntityWentDowntairs(e) ==> (outcome.spec_sound() == Some(SoundID::LevelFinished)
            && new.entities().dom() == old.entities().dom().remove(e)),
        event matches GameEvent::EntityDeath { target, attacker } ==> (outcome.spec_sound() == Some(SoundID::Death)
            && new.entities().dom() == old.entities().dom().remove(target)),
        event is EntityInteracted ==> (outcome.spec_sound() is None && new == old),
{
}

} // verus!
