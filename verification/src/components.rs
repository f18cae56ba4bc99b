use vstd::prelude::*;

use crate::geometry::{Direction, GridPos};
use crate::grid::EntityId;
use crate::resources::{ScriptID, SpriteID};
use std::collections::VecDeque;

verus! {

/// How a door is locked.
#[derive(Clone, Copy, PartialEq, Eq, Debug, Structural)]
pub enum LockKind {
    Basic,
}

/// What an animation shows.
#[derive(Clone, Copy, PartialEq, Eq, Debug, Structural)]
pub enum AnimationKind {
    Move { start: Position, end: Position },
}

/// Length of every animation, in milliseconds of animation time.
pub const ANIMATION_DURATION_MS: u32 = 500;

/// A running animation; time is counted in whole milliseconds.
#[derive(Clone, Copy, PartialEq, Eq, Debug, Structural)]
pub struct Animation {
    kind: AnimationKind,
    elapsed_ms: u32,
    duration_ms: u32,
}

impl Animation {
    pub closed spec fn spec_kind(self) -> AnimationKind {
        self.kind
    }

    pub closed spec fn spec_elapsed_ms(self) -> u32 {
        self.elapsed_ms
    }

    pub closed spec fn spec_duration_ms(self) -> u32 {
        self.duration_ms
    }

    /// The animation after `delta_ms` more milliseconds (saturating).
    pub closed spec fn after(self, delta_ms: u32) -> Animation {
        Animation {
            kind: self.kind,
            elapsed_ms: if self.elapsed_ms + delta_ms > u32::MAX { u32::MAX } else { (self.elapsed_ms + delta_ms) as u32 },
            duration_ms: self.duration_ms,
        }
    }

    /// Playing an animation keeps its kind and its length and adds the time
    /// played to the time elapsed, stopping at `u32::MAX`.
    pub proof fn law_playing_adds_time(self, delta_ms: u32)
        ensures
            self.after(delta_ms).spec_kind() == self.spec_kind(),
            self.after(delta_ms).spec_duration_ms() == self.spec_duration_ms(),
            self.after(delta_ms).spec_elapsed_ms() == if self.spec_elapsed_ms() + delta_ms > u32::MAX {
                u32::MAX as int
            } else {
                self.spec_elapsed_ms() + delta_ms
            },
    {
    }

    /// Whether the animation has played to its end.
    pub open spec fn finished(self) -> bool {
        self.spec_elapsed_ms() >= self.spec_duration_ms()
    }

    /// An animation that has finished stays finished however long it keeps playing.
    pub proof fn law_finished_stays_finished(self, delta_ms: u32)
        requires
            self.finished(),
        ensures
            self.after(delta_ms).finished(),
    {
    }

    /// Playing `first` and then `second` milliseconds is playing their
    /// (saturating) sum at once.
    pub proof fn law_play_times_add_up(self, first: u32, second: u32)
        ensures
            self.after(first).after(second) == self.after(
                if first + second > u32::MAX { u32::MAX } else { (first + second) as u32 },
            ),
    {
    }

    /// A new animation has not finished, and has once it played its whole duration.
    pub proof fn law_fresh_plays_its_duration(kind: AnimationKind, delta_ms: u32)
        ensures
            !Animation::fresh(kind).finished(),
            Animation::fresh(kind).after(delta_ms).finished() <==> delta_ms >= ANIMATION_DURATION_MS,
    {
    }

    /// A new animation of `kind` that has not started playing.
    pub closed spec fn fresh(kind: AnimationKind) -> Animation {
        Animation { kind, elapsed_ms: 0, duration_ms: ANIMATION_DURATION_MS }
    }

    /// A new animation that has not started playing.
    pub fn new(kind: AnimationKind) -> (r: Animation)
        ensures
            r == Animation::fresh(kind),
            r.spec_kind() == kind,
            r.spec_elapsed_ms() == 0,
            r.spec_duration_ms() == ANIMATION_DURATION_MS,
    {
        Animation { kind, elapsed_ms: 0, duration_ms: ANIMATION_DURATION_MS }
    }

    pub fn kind(&self) -> (r: &AnimationKind)
        ensures
            *r == self.spec_kind(),
    {
        &self.kind
    }

    pub fn elapsed_ms(&self) -> (r: u32)
        ensures
            r == self.spec_elapsed_ms(),
    {
        self.elapsed_ms
    }

    pub fn duration_ms(&self) -> (r: u32)
        ensures
            r == self.spec_duration_ms(),
    {
        self.duration_ms
    }

    pub fn is_finished(&self) -> (r: bool)
        ensures
            r == self.finished(),
    {
        self.elapsed_ms >= self.duration_ms
    }

    /// Plays `delta_ms` more milliseconds (saturating); returns whether the
    /// animation has finished.
    pub fn update(&mut self, delta_ms: u32) -> (r: bool)
        ensures
            *final(self) == old(self).after(delta_ms),
            r == final(self).finished(),
    {
        self.elapsed_ms = self.elapsed_ms.saturating_add(delta_ms);
        self.is_finished()
    }
}

/// Options of a move.
#[derive(Clone, Copy, PartialEq, Eq, Debug, Structural)]
pub struct MoveOptions {
    pub dir: Direction,
    pub can_push: bool,
    pub despawn_if_collided: bool,
}

impl MoveOptions {
    /// A plain move in `dir`: no pushing, no despawning.
    pub fn new(dir: Direction) -> (r: MoveOptions)
        ensures
            r == (MoveOptions { dir, can_push: false, despawn_if_collided: false }),
    {
        MoveOptions { dir, can_push: false, despawn_if_collided: false }
    }
}

/// An action an entity can be asked to perform.
#[derive(Clone, Copy, PartialEq, Eq, Debug, Structural)]
pub enum ActionKind {
    Move(MoveOptions),
}

/// Actions waiting to be performed, oldest first.
#[derive(Clone)]
pub struct ActionQueue(pub VecDeque<ActionKind>);

impl ActionQueue {
    pub fn new() -> (r: ActionQueue)
        ensures
            r.0@ == Seq::<ActionKind>::empty(),
    {
        ActionQueue(VecDeque::new())
    }
}

/// Objects drawn with a sprite that depends on their state.
#[derive(Clone, Copy, PartialEq, Eq, Debug, Structural)]
pub enum StatefulObjectKind {
    Door,
}

/// The cell an entity stands on.
#[derive(Clone, Copy, PartialEq, Eq, Debug, Structural)]
pub struct Position(pub GridPos);

impl Position {
    pub fn into_inner(self) -> (r: GridPos)
        ensures
            r == self.0,
    {
        self.0
    }
}

/// Drawing order; higher is drawn later.
#[derive(Clone, Copy, PartialEq, Eq, Debug, Structural)]
pub struct ZIndex(pub u32);

#[derive(Clone, Copy, PartialEq, Eq, Debug, Structural)]
pub struct Sprite(pub SpriteID);

#[derive(Clone, Copy, PartialEq, Eq, Debug, Structural)]
pub struct Script(pub ScriptID);

/// A saw moving back and forth between two directions.
#[derive(Clone, Copy, PartialEq, Eq, Debug, Structural)]
pub struct Bouncing {
    pub from: Direction,
    pub to: Direction,
}

/// The entities a pressure plate controls, without repetition.
#[derive(Clone)]
pub struct LinkedEntities(Vec<EntityId>);

impl LinkedEntities {
    pub closed spec fn view(self) -> Seq<EntityId> {
        self.0@
    }

    /// The set of `entities`, each kept once in the order of first occurrence.
    pub fn new(entities: Vec<EntityId>) -> (r: LinkedEntities)
        ensures
            r.view().no_duplicates(),
            forall|e: EntityId| r.view().contains(e) <==> entities@.contains(e),
    {
        let mut kept: Vec<EntityId> = Vec::new();
        let mut i: usize = 0;
        while i < entities.len()
            invariant
                i <= entities@.len(),
                kept@.no_duplicates(),
                forall|e: EntityId| kept@.contains(e) <==> entities@.take(i as int).contains(e),
            decreases entities@.len() - i,
        {
            let e = entities[i];
            assert(entities@.take(i + 1) =~= entities@.take(i as int).push(e));
            let ghost prev = kept@;
            if !crate::grid::contains_entity(&kept, e) {
                kept.push(e);
            }
            proof {
                broadcast use vstd::seq_lib::group_seq_properties;

                assert forall|x: EntityId| kept@.contains(x) <==> entities@.take(i + 1).contains(x) by {
                    assert(entities@.take(i as int).push(e).contains(x) <==> (entities@.take(
                        i as int,
                    ).contains(x) || x == e));
                    assert(prev.push(e).contains(x) <==> (prev.contains(x) || x == e));
                }
            }
            i = i + 1;
        }
        assert(entities@.take(entities@.len() as int) =~= entities@);
        LinkedEntities(kept)
    }

    pub fn get(&self) -> (r: &Vec<EntityId>)
        ensures
            r@ == self.view(),
    {
        &self.0
    }

    /// Takes `entity` out of the set.
    pub fn remove(&mut self, entity: EntityId)
        ensures
            final(self).view() == old(self).view().filter(crate::grid::other_than(entity)),
    {
        let kept = crate::grid::without_entity(&self.0, entity);
        self.0 = kept;
    }
}

#[derive(Clone, Copy, PartialEq, Eq, Debug, Structural)]
pub struct Facing(pub Direction);

#[derive(Clone, Copy, PartialEq, Eq, Debug, Structural)]
pub struct Locked(pub LockKind);

/// Can be moved by actions.
#[derive(Clone, Copy, PartialEq, Eq, Debug, Structural)]
pub struct Movable;

/// Can be pushed by others.
#[derive(Clone, Copy, PartialEq, Eq, Debug, Structural)]
pub struct Pushable;

/// Is tracked by the grid.
#[derive(Clone, Copy, PartialEq, Eq, Debug, Structural)]
pub struct OnGrid;

/// Blocks movement into its cell.
#[derive(Clone, Copy, PartialEq, Eq, Debug, Structural)]
pub struct Obstacle;

/// Presses pressure plates.
#[derive(Clone, Copy, PartialEq, Eq, Debug, Structural)]
pub struct Solid;

/// Kills mortal entities on its cell.
#[derive(Clone, Copy, PartialEq, Eq, Debug, Structural)]
pub struct CausesDeath;

/// Can be killed.
#[derive(Clone, Copy, PartialEq, Eq, Debug, Structural)]
pub struct Mortal;

/// Controlled by the player.
#[derive(Clone, Copy, PartialEq, Eq, Debug, Structural)]
pub struct Player;

/// The level's exit.
#[derive(Clone, Copy, PartialEq, Eq, Debug, Structural)]
pub struct Downstairs;

/// Interacts with the entities it walks into.
#[derive(Clone, Copy, PartialEq, Eq, Debug, Structural)]
pub struct Intelligent;

/// Names of the component kinds.
#[derive(Clone, Copy, PartialEq, Eq, Debug, Structural)]
pub enum ComponentID {
    Animation,
    ActionQueue,
    StatefulObjectKind,
    Position,
    ZIndex,
    Sprite,
    Facing,
    Locked,
    Movable,
    Pushable,
    OnGrid,
    Solid,
    Player,
    Bouncing,
    CausesDeath,
    Mortal,
    Obstacle,
    Downstairs,
    LinkedEntities,
    Intelligent,
}

/// All components of one entity; `None` means the entity lacks that component.
#[derive(Clone)]
pub struct EntityData {
    pub animation: Option<Animation>,
    pub action_queue: Option<ActionQueue>,
    pub stateful: Option<StatefulObjectKind>,
    pub position: Option<Position>,
    pub z_index: Option<ZIndex>,
    pub sprite: Option<Sprite>,
    pub script: Option<Script>,
    pub facing: Option<Facing>,
    pub locked: Option<Locked>,
    pub movable: Option<Movable>,
    pub pushable: Option<Pushable>,
    pub on_grid: Option<OnGrid>,
    pub solid: Option<Solid>,
    pub player: Option<Player>,
    pub bouncing: Option<Bouncing>,
    pub causes_death: Option<CausesDeath>,
    pub mortal: Option<Mortal>,
    pub obstacle: Option<Obstacle>,
    pub downstairs: Option<Downstairs>,
    pub linked_entities: Option<LinkedEntities>,
    pub intelligent: Option<Intelligent>,
}

impl EntityData {
    /// Whether the entity has the component `c`.
    pub open spec fn has(self, c: ComponentID) -> bool {
        match c {
            ComponentID::Animation => self.animation is Some,
            ComponentID::ActionQueue => self.action_queue is Some,
            ComponentID::StatefulObjectKind => self.stateful is Some,
            ComponentID::Position => self.position is Some,
            ComponentID::ZIndex => self.z_index is Some,
            ComponentID::Sprite => self.sprite is Some,
            ComponentID::Facing => self.facing is Some,
            ComponentID::Locked => self.locked is Some,
            ComponentID::Movable => self.movable is Some,
            ComponentID::Pushable => self.pushable is Some,
            ComponentID::OnGrid => self.on_grid is Some,
            ComponentID::Solid => self.solid is Some,
            ComponentID::Player => self.player is Some,
            ComponentID::Bouncing => self.bouncing is Some,
            ComponentID::CausesDeath => self.causes_death is Some,
            ComponentID::Mortal => self.mortal is Some,
            ComponentID::Obstacle => self.obstacle is Some,
            ComponentID::Downstairs => self.downstairs is Some,
            ComponentID::LinkedEntities => self.linked_entities is Some,
            ComponentID::Intelligent => self.intelligent is Some,
        }
    }

    /// Whether the entity has the component `c`.
    pub fn has_component(&self, c: ComponentID) -> (r: bool)
        ensures
            r == self.has(c),
    {
        match c {
            ComponentID::Animation => self.animation.is_some(),
            ComponentID::ActionQueue => self.action_queue.is_some(),
            ComponentID::StatefulObjectKind => self.stateful.is_some(),
            ComponentID::Position => self.position.is_some(),
            ComponentID::ZIndex => self.z_index.is_some(),
            ComponentID::Sprite => self.sprite.is_some(),
            ComponentID::Facing => self.facing.is_some(),
            ComponentID::Locked => self.locked.is_some(),
            ComponentID::Movable => self.movable.is_some(),
            ComponentID::Pushable => self.pushable.is_some(),
            ComponentID::OnGrid => self.on_grid.is_some(),
            ComponentID::Solid => self.solid.is_some(),
            ComponentID::Player => self.player.is_some(),
            ComponentID::Bouncing => self.bouncing.is_some(),
            ComponentID::CausesDeath => self.causes_death.is_some(),
            ComponentID::Mortal => self.mortal.is_some(),
            ComponentID::Obstacle => self.obstacle.is_some(),
            ComponentID::Downstairs => self.downstairs.is_some(),
            ComponentID::LinkedEntities => self.linked_entities.is_some(),
            ComponentID::Intelligent => self.intelligent.is_some(),
        }
    }

    /// An entity without components.
    pub open spec fn spec_empty() -> EntityData {
        EntityData {
            animation: None,
            action_queue: None,
            stateful: None,
            position: None,
            z_index: None,
            sprite: None,
            script: None,
            facing: None,
            locked: None,
            movable: None,
            pushable: None,
            on_grid: None,
            solid: None,
            player: None,
            bouncing: None,
            causes_death: None,
            mortal: None,
            obstacle: None,
            downstairs: None,
            linked_entities: None,
            intelligent: None,
        }
    }

    /// An entity without components.
    pub fn empty() -> (r: EntityData)
        ensures
            r == EntityData::spec_empty(),
    {
        EntityData {
            animation: None,
            action_queue: None,
            stateful: None,
            position: None,
            z_index: None,
            sprite: None,
            script: None,
            facing: None,
            locked: None,
            movable: None,
            pushable: None,
            on_grid: None,
            solid: None,
            player: None,
            bouncing: None,
            causes_death: None,
            mortal: None,
            obstacle: None,
            downstairs: None,
            linked_entities: None,
            intelligent: None,
        }
    }
}


/// The entity has an action queue and it is empty.
pub open spec fn has_empty_queue(d: EntityData) -> bool {
    d.action_queue matches Some(q) && q.0@ == Seq::<ActionKind>::empty()
}

/// The components of a level exit.
pub open spec fn downstairs_bundle(pos: GridPos, sprite_id: SpriteID) -> EntityData {
    EntityData {
        sprite: Some(Sprite(sprite_id)),
        downstairs: Some(Downstairs),
        on_grid: Some(OnGrid),
        position: Some(Position(pos)),
        script: Some(Script(ScriptID::Downstairs)),
        ..EntityData::spec_empty()
    }
}

/// The components of a saw, but for its action queue.
pub open spec fn saw_bundle(pos: GridPos, from: Direction, to: Direction, queue: Option<ActionQueue>) -> EntityData {
    EntityData {
        sprite: Some(Sprite(SpriteID::Saw)),
        movable: Some(Movable),
        on_grid: Some(OnGrid),
        causes_death: Some(CausesDeath),
        position: Some(Position(pos)),
        action_queue: queue,
        bouncing: Some(Bouncing { from, to }),
        script: Some(Script(ScriptID::Saw)),
        ..EntityData::spec_empty()
    }
}

/// The components of the player, but for its action queue.
pub open spec fn player_bundle(pos: GridPos, queue: Option<ActionQueue>) -> EntityData {
    EntityData {
        sprite: Some(Sprite(SpriteID::Player)),
        z_index: Some(ZIndex(1)),
        solid: Some(Solid),
        movable: Some(Movable),
        on_grid: Some(OnGrid),
        player: Some(Player),
        mortal: Some(Mortal),
        intelligent: Some(Intelligent),
        position: Some(Position(pos)),
        action_queue: queue,
        ..EntityData::spec_empty()
    }
}

/// The components of a wall piece.
pub open spec fn wall_bundle(pos: GridPos, sprite_id: SpriteID) -> EntityData {
    EntityData {
        sprite: Some(Sprite(sprite_id)),
        on_grid: Some(OnGrid),
        obstacle: Some(Obstacle),
        position: Some(Position(pos)),
        ..EntityData::spec_empty()
    }
}

/// The components of a crate.
pub open spec fn crate_bundle(pos: GridPos) -> EntityData {
    EntityData {
        sprite: Some(Sprite(SpriteID::Crate)),
        z_index: Some(ZIndex(1)),
        on_grid: Some(OnGrid),
        solid: Some(Solid),
        obstacle: Some(Obstacle),
        movable: Some(Movable),
        pushable: Some(Pushable),
        position: Some(Position(pos)),
        ..EntityData::spec_empty()
    }
}

/// The components of a fireball, but for its action queue.
pub open spec fn fireball_bundle(pos: GridPos, facing_dir: Direction, queue: Option<ActionQueue>) -> EntityData {
    EntityData {
        sprite: Some(Sprite(SpriteID::Fireball)),
        movable: Some(Movable),
        on_grid: Some(OnGrid),
        causes_death: Some(CausesDeath),
        position: Some(Position(pos)),
        action_queue: queue,
        facing: Some(Facing(facing_dir)),
        script: Some(Script(ScriptID::Fireball)),
        ..EntityData::spec_empty()
    }
}

/// The components of a fireball thrower.
pub open spec fn fireball_thrower_bundle(pos: GridPos, facing_dir: Direction) -> EntityData {
    EntityData {
        sprite: Some(Sprite(SpriteID::FireballThrower)),
        on_grid: Some(OnGrid),
        position: Some(Position(pos)),
        facing: Some(Facing(facing_dir)),
        script: Some(Script(ScriptID::FireballThrower)),
        ..EntityData::spec_empty()
    }
}

/// The components of a pressure plate.
pub open spec fn pressure_plate_bundle(pos: GridPos) -> EntityData {
    EntityData {
        sprite: Some(Sprite(SpriteID::PressurePlate)),
        on_grid: Some(OnGrid),
        position: Some(Position(pos)),
        script: Some(Script(ScriptID::PressurePlate)),
        ..EntityData::spec_empty()
    }
}

/// The sprite of a door in the given lock state.
pub open spec fn door_sprite(is_locked: bool) -> SpriteID {
    if is_locked {
        SpriteID::DoorLocked
    } else {
        SpriteID::DoorUnlocked
    }
}

/// The components of a door.
pub open spec fn door_bundle(pos: GridPos, is_locked: bool) -> EntityData {
    EntityData {
        stateful: Some(StatefulObjectKind::Door),
        sprite: Some(Sprite(door_sprite(is_locked))),
        on_grid: Some(OnGrid),
        obstacle: Some(Obstacle),
        position: Some(Position(pos)),
        script: Some(Script(ScriptID::Door)),
        ..EntityData::spec_empty()
    }
}

pub fn downstairs_template(pos: GridPos, sprite_id: SpriteID) -> (r: EntityData)
    ensures
        r == downstairs_bundle(pos, sprite_id),
{
    EntityData {
        sprite: Some(Sprite(sprite_id)),
        downstairs: Some(Downstairs),
        on_grid: Some(OnGrid),
        position: Some(Position(pos)),
        script: Some(Script(ScriptID::Downstairs)),
        ..EntityData::empty()
    }
}

pub fn saw_template(pos: GridPos, from: Direction, to: Direction) -> (r: EntityData)
    ensures
        has_empty_queue(r),
        r == saw_bundle(pos, from, to, r.action_queue),
{
    EntityData {
        sprite: Some(Sprite(SpriteID::Saw)),
        movable: Some(Movable),
        on_grid: Some(OnGrid),
        causes_death: Some(CausesDeath),
        position: Some(Position(pos)),
        action_queue: Some(ActionQueue::new()),
        bouncing: Some(Bouncing { from, to }),
        script: Some(Script(ScriptID::Saw)),
        ..EntityData::empty()
    }
}

pub fn player_template(pos: GridPos) -> (r: EntityData)
    ensures
        has_empty_queue(r),
        r == player_bundle(pos, r.action_queue),
{
    EntityData {
        sprite: Some(Sprite(SpriteID::Player)),
        z_index: Some(ZIndex(1)),
        solid: Some(Solid),
        movable: Some(Movable),
        on_grid: Some(OnGrid),
        player: Some(Player),
        mortal: Some(Mortal),
        intelligent: Some(Intelligent),
        position: Some(Position(pos)),
        action_queue: Some(ActionQueue::new()),
        ..EntityData::empty()
    }
}

pub fn wall_template(pos: GridPos, sprite_id: SpriteID) -> (r: EntityData)
    ensures
        r == wall_bundle(pos, sprite_id),
{
    EntityData {
        sprite: Some(Sprite(sprite_id)),
        on_grid: Some(OnGrid),
        obstacle: Some(Obstacle),
        position: Some(Position(pos)),
        ..EntityData::empty()
    }
}

pub fn crate_template(pos: GridPos) -> (r: EntityData)
    ensures
        r == crate_bundle(pos),
{
    EntityData {
        sprite: Some(Sprite(SpriteID::Crate)),
        z_index: Some(ZIndex(1)),
        on_grid: Some(OnGrid),
        solid: Some(Solid),
        obstacle: Some(Obstacle),
        movable: Some(Movable),
        pushable: Some(Pushable),
        position: Some(Position(pos)),
        ..EntityData::empty()
    }
}

pub fn fireball_template(pos: GridPos, facing_dir: Direction) -> (r: EntityData)
    ensures
        has_empty_queue(r),
        r == fireball_bundle(pos, facing_dir, r.action_queue),
{
    EntityData {
        sprite: Some(Sprite(SpriteID::Fireball)),
        movable: Some(Movable),
        on_grid: Some(OnGrid),
        causes_death: Some(CausesDeath),
        position: Some(Position(pos)),
        action_queue: Some(ActionQueue::new()),
        facing: Some(Facing(facing_dir)),
        script: Some(Script(ScriptID::Fireball)),
        ..EntityData::empty()
    }
}

pub fn fireball_thrower_template(pos: GridPos, facing_dir: Direction) -> (r: EntityData)
    ensures
        r == fireball_thrower_bundle(pos, facing_dir),
{
    EntityData {
        sprite: Some(Sprite(SpriteID::FireballThrower)),
        on_grid: Some(OnGrid),
        position: Some(Position(pos)),
        facing: Some(Facing(facing_dir)),
        script: Some(Script(ScriptID::FireballThrower)),
        ..EntityData::empty()
    }
}

pub fn pressure_plate_template(pos: GridPos) -> (r: EntityData)
    ensures
        r == pressure_plate_bundle(pos),
{
    EntityData {
        sprite: Some(Sprite(SpriteID::PressurePlate)),
        on_grid: Some(OnGrid),
        position: Some(Position(pos)),
        script: Some(Script(ScriptID::PressurePlate)),
        ..EntityData::empty()
    }
}

pub fn door_template(pos: GridPos, is_locked: bool) -> (r: EntityData)
    ensures
        r == door_bundle(pos, is_locked),
{
    EntityData {
        stateful: Some(StatefulObjectKind::Door),
        sprite: Some(Sprite(if is_locked { SpriteID::DoorLocked } else { SpriteID::DoorUnlocked })),
        on_grid: Some(OnGrid),
        obstacle: Some(Obstacle),
        position: Some(Position(pos)),
        script: Some(Script(ScriptID::Door)),
        ..EntityData::empty()
    }
}

/// A door is a door-kind stateful object on the grid at `pos`, an
/// obstacle, run by the door script, showing the locked sprite exactly
/// when it is made locked, and has no other component.
pub proof fn law_door_template(pos: GridPos, is_locked: bool)
    ensures
        door_bundle(pos, is_locked).obstacle is Some,
        door_bundle(pos, is_locked).stateful == Some(StatefulObjectKind::Door),
        door_bundle(pos, is_locked).position == Some(Position(pos)),
        door_bundle(pos, is_locked).script == Some(Script(ScriptID::Door)),
        door_bundle(pos, is_locked).sprite == Some(Sprite(if is_locked { SpriteID::DoorLocked } else { SpriteID::DoorUnlocked })),
        forall|c: ComponentID| #[trigger] door_bundle(pos, is_locked).has(c) <==> (c == ComponentID::StatefulObjectKind
            || c == ComponentID::Sprite || c == ComponentID::OnGrid || c == ComponentID::Obstacle || c == ComponentID::Position),
{
}

/// A level exit stands on the grid at `pos` with the given sprite, is
/// marked as downstairs, is run by the downstairs script, blocks nothing
/// and has no other component.
pub proof fn law_downstairs_template(pos: GridPos, sprite_id: SpriteID)
    ensures
        downstairs_bundle(pos, sprite_id).downstairs is Some,
        downstairs_bundle(pos, sprite_id).obstacle is None,
        downstairs_bundle(pos, sprite_id).position == Some(Position(pos)),
        downstairs_bundle(pos, sprite_id).sprite == Some(Sprite(sprite_id)),
        downstairs_bundle(pos, sprite_id).script == Some(Script(ScriptID::Downstairs)),
        forall|c: ComponentID| #[trigger] downstairs_bundle(pos, sprite_id).has(c) <==> (c == ComponentID::Sprite
            || c == ComponentID::Downstairs || c == ComponentID::OnGrid || c == ComponentID::Position),
{
}

/// A saw is a movable, deadly, bouncing entity on the grid at `pos`, run
/// by the saw script, bouncing from `from` to `to`; it is not mortal and
/// blocks nothing.
pub proof fn law_saw_template(pos: GridPos, from: Direction, to: Direction, queue: Option<ActionQueue>)
    ensures
        saw_bundle(pos, from, to, queue).bouncing == Some(Bouncing { from, to }),
        saw_bundle(pos, from, to, queue).position == Some(Position(pos)),
        saw_bundle(pos, from, to, queue).sprite == Some(Sprite(SpriteID::Saw)),
        saw_bundle(pos, from, to, queue).script == Some(Script(ScriptID::Saw)),
        saw_bundle(pos, from, to, queue).action_queue == queue,
        forall|c: ComponentID| #[trigger] saw_bundle(pos, from, to, queue).has(c) <==> (c == ComponentID::Sprite
            || c == ComponentID::Movable || c == ComponentID::OnGrid || c == ComponentID::CausesDeath
            || c == ComponentID::Position || c == ComponentID::Bouncing || (c == ComponentID::ActionQueue && queue is Some)),
{
}

/// The player is a movable, solid, mortal, intelligent player entity on
/// the grid at `pos`, drawn above the floor at depth 1; it blocks nothing
/// and kills nothing.
pub proof fn law_player_template(pos: GridPos, queue: Option<ActionQueue>)
    ensures
        player_bundle(pos, queue).position == Some(Position(pos)),
        player_bundle(pos, queue).sprite == Some(Sprite(SpriteID::Player)),
        player_bundle(pos, queue).z_index == Some(ZIndex(1)),
        player_bundle(pos, queue).script is None,
        player_bundle(pos, queue).action_queue == queue,
        forall|c: ComponentID| #[trigger] player_bundle(pos, queue).has(c) <==> (c == ComponentID::Sprite
            || c == ComponentID::ZIndex || c == ComponentID::Solid || c == ComponentID::Movable || c == ComponentID::OnGrid
            || c == ComponentID::Player || c == ComponentID::Mortal || c == ComponentID::Intelligent
            || c == ComponentID::Position || (c == ComponentID::ActionQueue && queue is Some)),
{
}

/// A wall piece is an obstacle on the grid at `pos` with the given sprite,
/// and has no other component.
pub proof fn law_wall_template(pos: GridPos, sprite_id: SpriteID)
    ensures
        wall_bundle(pos, sprite_id).obstacle is Some,
        wall_bundle(pos, sprite_id).position == Some(Position(pos)),
        wall_bundle(pos, sprite_id).sprite == Some(Sprite(sprite_id)),
        wall_bundle(pos, sprite_id).script is None,
        forall|c: ComponentID| #[trigger] wall_bundle(pos, sprite_id).has(c) <==> (c == ComponentID::Sprite
            || c == ComponentID::OnGrid || c == ComponentID::Obstacle || c == ComponentID::Position),
{
}

/// A crate is a pushable, movable, solid obstacle on the grid at `pos`,
/// drawn at depth 1, and has no other component.
pub proof fn law_crate_template(pos: GridPos)
    ensures
        crate_bundle(pos).position == Some(Position(pos)),
        crate_bundle(pos).sprite == Some(Sprite(SpriteID::Crate)),
        crate_bundle(pos).z_index == Some(ZIndex(1)),
        crate_bundle(pos).script is None,
        forall|c: ComponentID| #[trigger] crate_bundle(pos).has(c) <==> (c == ComponentID::Sprite
            || c == ComponentID::ZIndex || c == ComponentID::OnGrid || c == ComponentID::Solid || c == ComponentID::Obstacle
            || c == ComponentID::Movable || c == ComponentID::Pushable || c == ComponentID::Position),
{
}

/// A fireball is a movable, deadly entity on the grid at `pos`, facing
/// `facing_dir` and run by the fireball script; it blocks nothing.
pub proof fn law_fireball_template(pos: GridPos, facing_dir: Direction, queue: Option<ActionQueue>)
    ensures
        fireball_bundle(pos, facing_dir, queue).facing == Some(Facing(facing_dir)),
        fireball_bundle(pos, facing_dir, queue).position == Some(Position(pos)),
        fireball_bundle(pos, facing_dir, queue).sprite == Some(Sprite(SpriteID::Fireball)),
        fireball_bundle(pos, facing_dir, queue).script == Some(Script(ScriptID::Fireball)),
        fireball_bundle(pos, facing_dir, queue).action_queue == queue,
        forall|c: ComponentID| #[trigger] fireball_bundle(pos, facing_dir, queue).has(c) <==> (c == ComponentID::Sprite
            || c == ComponentID::Movable || c == ComponentID::OnGrid || c == ComponentID::CausesDeath
            || c == ComponentID::Position || c == ComponentID::Facing || (c == ComponentID::ActionQueue && queue is Some)),
{
}

/// A fireball thrower stands on the grid at `pos`, facing `facing_dir`, run
/// by its script; it does not move, kill or block.
pub proof fn law_fireball_thrower_template(pos: GridPos, facing_dir: Direction)
    ensures
        fireball_thrower_bundle(pos, facing_dir).facing == Some(Facing(facing_dir)),
        fireball_thrower_bundle(pos, facing_dir).position == Some(Position(pos)),
        fireball_thrower_bundle(pos, facing_dir).sprite == Some(Sprite(SpriteID::FireballThrower)),
        fireball_thrower_bundle(pos, facing_dir).script == Some(Script(ScriptID::FireballThrower)),
        forall|c: ComponentID| #[trigger] fireball_thrower_bundle(pos, facing_dir).has(c) <==> (c == ComponentID::Sprite
            || c == ComponentID::OnGrid || c == ComponentID::Position || c == ComponentID::Facing),
{
}

/// A pressure plate stands on the grid at `pos`, run by its script; it
/// does not move, kill or block.
pub proof fn law_pressure_plate_template(pos: GridPos)
    ensures
        pressure_plate_bundle(pos).position == Some(Position(pos)),
        pressure_plate_bundle(pos).sprite == Some(Sprite(SpriteID::PressurePlate)),
        pressure_plate_bundle(pos).script == Some(Script(ScriptID::PressurePlate)),
        forall|c: ComponentID| #[trigger] pressure_plate_bundle(pos).has(c) <==> (c == ComponentID::Sprite
            || c == ComponentID::OnGrid || c == ComponentID::Position),
{
}

} // verus!
