//! Requests for changes to the structure of the world, which the stages of a
//! tick hand to the orchestrator instead of making them on their own.

use crate::ai::{chase, chase_in_range, AiMoveToPlayerSystem};
use crate::combat::{
    apply_damage, clear_damage, damage_in_range, dead_entities, drop_damage, engage,
    engagement_in_range, ClearDeadSystem, DamageSystem, MeleeCombatSystem,
};
use crate::components::Position;
use crate::game::{
    apply_input, input_in_range, movement_in_range, player_moves, resolve_movement, take_intents,
    with_commands,
    with_exit_taken, ApplyPlayerMovementInputSystem, CurrentRoom, ExitTriggerSystem,
    MovementSystem, PlayerTextCommandSystem,
};
use crate::input::{with_key_pressed, Key, PlayerInputSystem};
use crate::inventory::{with_pickups, PickupTriggerSystem};
use crate::room::{
    add_room_redirection, after_room_change, room_change_error, try_change_room, ExitDirection,
    RoomChangeError,
};
use crate::store::{delete_entity, views_of, without_entity, Entity, EntityView};
use crate::world::{RoomRedirection, SessionRequest, World, WorldView};
use vstd::prelude::*;

verus! {

/// A structural change that a stage asks for.
#[derive(Debug)]
pub enum StateAction {
    /// Nothing is asked for.
    Idle,
    DeleteEntities { entities: Vec<Entity> },
    ChangeRoom { direction: ExitDirection, to_room: i32 },
    RedirectRoom { original_room: i32, new_room: i32 },
    Quit,
    DebugSave,
    DebugLoad,
}

/// What a [`StateAction`] holds.
pub enum StateActionView {
    Idle,
    DeleteEntities { entities: Seq<Entity> },
    ChangeRoom { direction: ExitDirection, to_room: i32 },
    RedirectRoom { original_room: i32, new_room: i32 },
    Quit,
    DebugSave,
    DebugLoad,
}

impl View for StateAction {
    type V = StateActionView;

    open spec fn view(&self) -> StateActionView {
        match self {
            StateAction::Idle => StateActionView::Idle,
            StateAction::DeleteEntities { entities } => StateActionView::DeleteEntities {
                entities: entities@,
            },
            StateAction::ChangeRoom { direction, to_room } => StateActionView::ChangeRoom {
                direction: *direction,
                to_room: *to_room,
            },
            StateAction::RedirectRoom { original_room, new_room } => StateActionView::RedirectRoom {
                original_room: *original_room,
                new_room: *new_room,
            },
            StateAction::Quit => StateActionView::Quit,
            StateAction::DebugSave => StateActionView::DebugSave,
            StateAction::DebugLoad => StateActionView::DebugLoad,
        }
    }
}

impl Clone for StateAction {
    fn clone(&self) -> (r: Self)
        ensures
            r@ == self@,
    {
        match self {
            StateAction::Idle => StateAction::Idle,
            StateAction::DeleteEntities { entities } => {
                let mut copy: Vec<Entity> = Vec::new();
                let mut i: usize = 0;
                while i < entities.len()
                    invariant
                        i <= entities.len(),
                        copy@ == entities@.take(i as int),
                    decreases entities.len() - i,
                {
                    copy.push(entities[i]);
                    assert(entities@.take(i + 1) =~= entities@.take(i as int).push(entities@[i as int]));
                    i += 1;
                }
                assert(entities@.take(i as int) =~= entities@);
                StateAction::DeleteEntities { entities: copy }
            },
            StateAction::ChangeRoom { direction, to_room } => StateAction::ChangeRoom {
                direction: *direction,
                to_room: *to_room,
            },
            StateAction::RedirectRoom { original_room, new_room } => StateAction::RedirectRoom {
                original_room: *original_room,
                new_room: *new_room,
            },
            StateAction::Quit => StateAction::Quit,
            StateAction::DebugSave => StateAction::DebugSave,
            StateAction::DebugLoad => StateAction::DebugLoad,
        }
    }
}

/// A stage of the tick that computes with numbers of a limited range.
#[derive(Debug, Copy, Clone, PartialEq, Eq, Structural)]
pub enum Stage {
    /// The player's input becomes movement intent.
    Input,
    /// The chasers add their step towards the player.
    Chase,
    /// The movers move.
    Movement,
    /// The blocked fighters pick their targets.
    Engagement,
    /// The damage is applied.
    Damage,
}

/// How a tick, or a part of one, ended.
#[derive(Debug, Copy, Clone, PartialEq, Eq, Structural)]
pub enum TickOutcome {
    /// Everything was carried out.
    Completed,
    /// The end of the game was asked for; nothing after that was carried
    /// out.
    Quit,
    /// A stage would have left the range of its numbers: nobody was moved
    /// or hurt by it, and nothing after it was carried out.
    OutOfRange(Stage),
    /// A change of room could not take place; nothing after it was carried
    /// out.
    RoomChangeFailed(RoomChangeError),
}

/// An entity after the player has arrived in a new room: a player stands at
/// the edge opposite to the direction of travel.
pub open spec fn arrived(e: EntityView, direction: ExitDirection) -> EntityView {
    if e.alive && e.player is Some && e.position is Some {
        let p = e.position->0;
        EntityView {
            position: Some(
                match direction {
                    ExitDirection::North => Position { x: p.x, y: 17 },
                    ExitDirection::South => Position { x: p.x, y: 0 },
                    ExitDirection::East => Position { x: 0, y: p.y },
                    ExitDirection::West => Position { x: 23, y: p.y },
                    _ => p,
                },
            ),
            ..e
        }
    } else {
        e
    }
}

/// The store after the player has arrived in a new room.
pub open spec fn with_arrival(entities: Seq<EntityView>, direction: ExitDirection) -> Seq<EntityView> {
    Seq::new(entities.len(), |i: int| arrived(entities[i], direction))
}

/// How an attempt to change the room ends.
pub open spec fn room_change_outcome(error: Option<RoomChangeError>) -> TickOutcome {
    match error {
        None => TickOutcome::Completed,
        Some(e) => TickOutcome::RoomChangeFailed(e),
    }
}

/// The world after the player has travelled to a room: where the room can
/// be changed, the room that is left is the current one, the new room is
/// the current one afterwards, and the player has arrived at its edge.
pub open spec fn travel(w: WorldView, to_room: i32, direction: ExitDirection) -> (
    WorldView,
    TickOutcome,
) {
    let error = room_change_error(w, to_room, w.current_room);
    let changed = after_room_change(w, to_room, w.current_room);
    (
        match error {
            None => WorldView {
                current_room: to_room,
                entities: with_arrival(changed.entities, direction),
                ..changed
            },
            Some(_) => changed,
        },
        room_change_outcome(error),
    )
}

/// A player that travels arrives at the edge opposite to the direction of
/// travel: after travelling north it stands in row 17, after travelling
/// south in row 0, after travelling east in column 0, after travelling west
/// in column 23, and otherwise where it stood. This holds of every player
/// that is not part of the room that is left.
pub proof fn lemma_player_arrives_at_the_edge(
    w: WorldView,
    to_room: i32,
    direction: ExitDirection,
    i: int,
)
    requires
        0 <= i < w.entities.len(),
        w.entities[i].alive,
        w.entities[i].player is Some,
        w.entities[i].position is Some,
        !w.entities[i].in_room(w.current_room),
        travel(w, to_room, direction).1 == TickOutcome::Completed,
    ensures
        travel(w, to_room, direction).0.entities[i] == arrived(w.entities[i], direction),
        direction == ExitDirection::North ==> travel(w, to_room, direction).0.entities[i].position
            == Some(Position { x: w.entities[i].position->0.x, y: 17 }),
        travel(w, to_room, direction).0.current_room == to_room,
{
    crate::room::round_trip::lemma_room_change_spares_the_rest(w, to_room, w.current_room);
    crate::room::round_trip::lemma_room_change_keeps_the_slots(w, to_room, w.current_room);
}

/// The world after a room has been redirected: the redirection is added,
/// and the current room is set up anew where it is the redirected one.
pub open spec fn redirect(w: WorldView, original_room: i32, new_room: i32) -> (
    WorldView,
    TickOutcome,
) {
    let added = WorldView {
        redirections: w.redirections.push(RoomRedirection { original_room, new_room }),
        ..w
    };
    if w.current_room == original_room {
        (
            after_room_change(added, original_room, original_room),
            room_change_outcome(room_change_error(added, original_room, original_room)),
        )
    } else {
        (added, TickOutcome::Completed)
    }
}

/// The store without the entities of the first `n` handles.
pub open spec fn without_entities(entities: Seq<EntityView>, handles: Seq<Entity>, n: int) -> Seq<
    EntityView,
>
    decreases n,
{
    if n <= 0 {
        entities
    } else {
        without_entity(without_entities(entities, handles, n - 1), handles[n - 1])
    }
}

/// The world after a structural change has been carried out.
pub open spec fn handle_action(w: WorldView, action: StateActionView) -> (WorldView, TickOutcome) {
    match action {
        StateActionView::DeleteEntities { entities } => (
            WorldView {
                entities: without_entities(w.entities, entities, entities.len() as int),
                ..w
            },
            TickOutcome::Completed,
        ),
        StateActionView::ChangeRoom { direction, to_room } => travel(w, to_room, direction),
        StateActionView::RedirectRoom { original_room, new_room } => redirect(
            w,
            original_room,
            new_room,
        ),
        StateActionView::Quit => (w, TickOutcome::Quit),
        StateActionView::DebugSave => (
            WorldView { session_requests: w.session_requests.push(SessionRequest::Save), ..w },
            TickOutcome::Completed,
        ),
        StateActionView::DebugLoad => (
            WorldView { session_requests: w.session_requests.push(SessionRequest::Load), ..w },
            TickOutcome::Completed,
        ),
        StateActionView::Idle => (w, TickOutcome::Completed),
    }
}

/// The world after the first `n` of some structural changes have been
/// carried out in their order, as far as each was completed.
pub open spec fn handle_upto(w: WorldView, actions: Seq<StateActionView>, n: int) -> (
    WorldView,
    TickOutcome,
)
    decreases n,
{
    if n <= 0 {
        (w, TickOutcome::Completed)
    } else {
        let before = handle_upto(w, actions, n - 1);
        if before.1 == TickOutcome::Completed {
            handle_action(before.0, actions[n - 1])
        } else {
            before
        }
    }
}

/// The world after the pending structural changes have been carried out:
/// none is pending any more.
pub open spec fn handle_pending(w: WorldView) -> (WorldView, TickOutcome) {
    handle_upto(
        WorldView { pending_actions: Seq::empty(), ..w },
        w.pending_actions,
        w.pending_actions.len() as int,
    )
}

/// The world after the stages that gather intent, whether the player asked
/// for a move, and the stage that left the range of its numbers, if one
/// did: the key is taken, the player's input becomes movement intent, and
/// if the player asked for a move the chasers add their step.
pub open spec fn intent_stage(w: WorldView, key: Option<Key>) -> (WorldView, bool, TickOutcome) {
    let keyed = WorldView { entities: with_key_pressed(w.entities, key), ..w };
    if !input_in_range(keyed.entities) {
        (keyed, false, TickOutcome::OutOfRange(Stage::Input))
    } else {
        let steered = WorldView { entities: apply_input(keyed.entities), ..keyed };
        if !player_moves(keyed.entities) {
            (steered, false, TickOutcome::Completed)
        } else if !chase_in_range(steered.entities) {
            (steered, true, TickOutcome::OutOfRange(Stage::Chase))
        } else {
            (
                WorldView { entities: chase(steered.entities), ..steered },
                true,
                TickOutcome::Completed,
            )
        }
    }
}

/// The world after the movement and pickup stages. Where the movement
/// stage would leave the range of its numbers, nobody moves; either way the
/// intent of every mover is taken.
pub open spec fn movement_stage(w: WorldView) -> (WorldView, TickOutcome) {
    if !movement_in_range(w.entities) {
        (
            WorldView { entities: take_intents(w.entities), ..w },
            TickOutcome::OutOfRange(Stage::Movement),
        )
    } else {
        handle_pending(with_pickups(WorldView { entities: resolve_movement(w.entities), ..w }))
    }
}

/// The world after the stages of combat and the exit stage. Where one of
/// the stages of combat would leave the range of its numbers, nobody is
/// hurt; either way no attack and no damage is left waiting.
pub open spec fn combat_stage(w: WorldView) -> (WorldView, TickOutcome) {
    if !engagement_in_range(w.entities) {
        (
            WorldView { entities: drop_damage(w.entities), ..w },
            TickOutcome::OutOfRange(Stage::Engagement),
        )
    } else {
        let engaged = engage(w.entities);
        if !damage_in_range(engaged) {
            (
                WorldView { entities: drop_damage(engaged), ..w },
                TickOutcome::OutOfRange(Stage::Damage),
            )
        } else {
            let damaged = WorldView { entities: apply_damage(engaged), ..w };
            let cleaned = handle_pending(
                damaged.with_action(
                    StateActionView::DeleteEntities {
                        entities: dead_entities(damaged.entities, damaged.entities.len() as int),
                    },
                ),
            );
            if cleaned.1 != TickOutcome::Completed {
                cleaned
            } else {
                handle_pending(with_exit_taken(cleaned.0))
            }
        }
    }
}

/// The world after one tick, and how the tick ended. The stages run in this
/// order: input, movement intent of the player, movement intent of the
/// chasers, the player's commands, movement, pickups, engagement, damage,
/// cleanup of the dead, exits. The chasers and the stages from engagement
/// on run only in a tick in which the player asked for a move. The
/// structural changes that a stage asks for are carried out before the next
/// stage runs.
pub open spec fn tick(w: WorldView, key: Option<Key>) -> (WorldView, TickOutcome) {
    let intent = intent_stage(w, key);
    if intent.2 != TickOutcome::Completed {
        (intent.0, intent.2)
    } else {
        let commanded = handle_pending(with_commands(intent.0));
        if commanded.1 != TickOutcome::Completed {
            commanded
        } else {
            let moved = movement_stage(commanded.0);
            if moved.1 != TickOutcome::Completed || !intent.1 {
                moved
            } else {
                combat_stage(moved.0)
            }
        }
    }
}

/// The game: the world, and the stages that make it tick.
pub struct State {
    pub world: World,
}

impl State {
    /// Moves the player to a room: the room is changed, and the player is
    /// put at the edge opposite to the direction of travel.
    pub fn change_room(&mut self, to_room: i32, direction: ExitDirection) -> (outcome: TickOutcome)
        ensures
            (final(self).world@, outcome) == travel(old(self).world@, to_room, direction),
    {
        let old_room = self.world.current_room.get_room_index();
        match try_change_room(&mut self.world, to_room, old_room) {
            Ok(_) => {},
            Err(e) => {
                return TickOutcome::RoomChangeFailed(e);
            },
        }
        self.world.current_room = CurrentRoom(to_room);
        let ghost middle = self.world;
        let ghost changed = views_of(self.world.slots@);
        let n = self.world.slots.len();
        let mut i: usize = 0;
        while i < n
            invariant
                i <= n,
                n == self.world.slots@.len(),
                n == changed.len(),
                self.world == (World { slots: self.world.slots, ..middle }),
                forall|k: int|
                    0 <= k < i ==> #[trigger] views_of(self.world.slots@)[k] == arrived(
                        changed[k],
                        direction,
                    ),
                forall|k: int| i <= k < n ==> #[trigger] views_of(self.world.slots@)[k] == changed[k],
            decreases n - i,
        {
            let ghost before = views_of(self.world.slots@);
            assert(before[i as int] == changed[i as int]);
            if self.world.slots[i].alive && self.world.slots[i].player.is_some() {
                match self.world.slots[i].position {
                    Some(position) => {
                        let mut position = position;
                        match direction {
                            ExitDirection::North => {
                                position.y = 17;
                            },
                            ExitDirection::South => {
                                position.y = 0;
                            },
                            ExitDirection::East => {
                                position.x = 0;
                            },
                            ExitDirection::West => {
                                position.x = 23;
                            },
                            _ => {},
                        }
                        self.world.slots[i].position = Some(position);
                        assert(views_of(self.world.slots@) =~= before.update(
                            i as int,
                            arrived(changed[i as int], direction),
                        ));
                    },
                    None => {},
                }
            }
            i += 1;
        }
        assert(views_of(self.world.slots@) =~= with_arrival(changed, direction));
        TickOutcome::Completed
    }
}

impl State {
    /// A game around a world.
    pub fn new(world: World) -> (r: Self)
        ensures
            r.world == world,
    {
        Self { world }
    }

    /// Redirects a room, and sets the current room up anew where it is the
    /// redirected one. The player stays where it is.
    pub fn redirect_room(&mut self, original_room: i32, new_room: i32) -> (outcome: TickOutcome)
        ensures
            (final(self).world@, outcome) == redirect(old(self).world@, original_room, new_room),
    {
        add_room_redirection(&mut self.world, original_room, new_room);
        let room = self.world.current_room.0;
        if room == original_room {
            match try_change_room(&mut self.world, original_room, original_room) {
                Ok(_) => TickOutcome::Completed,
                Err(e) => TickOutcome::RoomChangeFailed(e),
            }
        } else {
            TickOutcome::Completed
        }
    }

    /// Carries out one structural change.
    pub fn handle_state_action(&mut self, action: StateAction) -> (outcome: TickOutcome)
        ensures
            (final(self).world@, outcome) == handle_action(old(self).world@, action@),
    {
        match action {
            StateAction::DeleteEntities { entities } => {
                let ghost start = views_of(self.world.slots@);
                let mut i: usize = 0;
                while i < entities.len()
                    invariant
                        i <= entities.len(),
                        self.world == (World { slots: self.world.slots, ..old(self).world }),
                        start == old(self).world@.entities,
                        views_of(self.world.slots@) == without_entities(start, entities@, i as int),
                    decreases entities.len() - i,
                {
                    delete_entity(&mut self.world.slots, entities[i]);
                    i += 1;
                }
                TickOutcome::Completed
            },
            StateAction::ChangeRoom { direction, to_room } => self.change_room(to_room, direction),
            StateAction::RedirectRoom { original_room, new_room } => self.redirect_room(
                original_room,
                new_room,
            ),
            StateAction::Quit => TickOutcome::Quit,
            StateAction::DebugSave => {
                self.debug_save();
                TickOutcome::Completed
            },
            StateAction::DebugLoad => {
                self.debug_load();
                TickOutcome::Completed
            },
            StateAction::Idle => TickOutcome::Completed,
        }
    }

    /// Carries out the pending structural changes in their order, up to the
    /// first that is not completed. None is pending afterwards.
    pub fn handle_pending_state_actions(&mut self) -> (outcome: TickOutcome)
        ensures
            (final(self).world@, outcome) == handle_pending(old(self).world@),
    {
        let ghost w = self.world@;
        let mut pending_actions: Vec<StateAction> = Vec::new();
        core::mem::swap(&mut pending_actions, &mut self.world.pending_actions);
        let ghost actions = views_of(pending_actions@);
        assert(actions == w.pending_actions);
        assert(self.world@.pending_actions =~= Seq::empty());
        let ghost start = self.world@;
        assert(start == (WorldView { pending_actions: Seq::empty(), ..w }));
        let mut i: usize = 0;
        while i < pending_actions.len()
            invariant
                i <= pending_actions.len(),
                actions == views_of(pending_actions@),
                actions == old(self).world@.pending_actions,
                start == (WorldView { pending_actions: Seq::empty(), ..old(self).world@ }),
                (self.world@, TickOutcome::Completed) == handle_upto(start, actions, i as int),
            ensures
                i == pending_actions.len(),
                actions == views_of(pending_actions@),
                (self.world@, TickOutcome::Completed) == handle_upto(start, actions, i as int),
            decreases pending_actions.len() - i,
        {
            let state_action = pending_actions[i].clone();
            assert(state_action@ == actions[i as int]);
            let outcome = self.handle_state_action(state_action);
            if outcome != TickOutcome::Completed {
                proof {
                    lemma_handle_upto_stops(start, actions, i + 1, actions.len() as int);
                }
                return outcome;
            }
            i += 1;
        }
        TickOutcome::Completed
    }

    /// Forgets the pending structural changes.
    pub fn reset_pending_actions(&mut self)
        ensures
            final(self).world@ == (WorldView {
                pending_actions: Seq::empty(),
                ..old(self).world@
            }),
    {
        self.world.pending_actions.clear();
        assert(self.world@.pending_actions =~= Seq::empty());
    }

    /// Asks the caller to save the session once the tick is over.
    pub fn debug_save(&mut self)
        ensures
            final(self).world@ == (WorldView {
                session_requests: old(self).world@.session_requests.push(SessionRequest::Save),
                ..old(self).world@
            }),
    {
        self.world.session_requests.push(SessionRequest::Save);
    }

    /// Asks the caller to load the session once the tick is over.
    pub fn debug_load(&mut self)
        ensures
            final(self).world@ == (WorldView {
                session_requests: old(self).world@.session_requests.push(SessionRequest::Load),
                ..old(self).world@
            }),
    {
        self.world.session_requests.push(SessionRequest::Load);
    }
}

/// Once a structural change is not completed, no later one is carried out.
pub proof fn lemma_handle_upto_stops(w: WorldView, actions: Seq<StateActionView>, m: int, n: int)
    requires
        0 <= m <= n,
        handle_upto(w, actions, m).1 != TickOutcome::Completed,
    ensures
        handle_upto(w, actions, n) == handle_upto(w, actions, m),
    decreases n,
{
    if n > m {
        lemma_handle_upto_stops(w, actions, m, n - 1);
    }
}

impl State {
    /// Runs the stages that gather intent, and tells whether the player
    /// asked for a move.
    pub fn run_intent_stage(&mut self, key: Option<Key>) -> (r: (bool, TickOutcome))
        ensures
            (final(self).world@, r.0, r.1) == intent_stage(old(self).world@, key),
    {
        let mut player_input_system = PlayerInputSystem::new(key);
        player_input_system.run(&mut self.world);
        let mut apply_player_movement_input = ApplyPlayerMovementInputSystem::new();
        if !apply_player_movement_input.run(&mut self.world) {
            return (false, TickOutcome::OutOfRange(Stage::Input));
        }
        if apply_player_movement_input.player_moved {
            let mut ai = AiMoveToPlayerSystem::new();
            if !ai.run(&mut self.world) {
                return (true, TickOutcome::OutOfRange(Stage::Chase));
            }
        }
        (apply_player_movement_input.player_moved, TickOutcome::Completed)
    }

    /// Runs the movement and pickup stages.
    pub fn run_movement_stage(&mut self) -> (outcome: TickOutcome)
        ensures
            (final(self).world@, outcome) == movement_stage(old(self).world@),
    {
        let mut movement_system = MovementSystem::new();
        if !movement_system.run(&mut self.world) {
            return TickOutcome::OutOfRange(Stage::Movement);
        }
        let mut pickups = PickupTriggerSystem::new();
        pickups.run(&mut self.world);
        self.handle_pending_state_actions()
    }

    /// Runs the stages of combat and the exit stage.
    pub fn run_combat_stage(&mut self) -> (outcome: TickOutcome)
        ensures
            (final(self).world@, outcome) == combat_stage(old(self).world@),
    {
        let mut melee_system = MeleeCombatSystem {  };
        if !melee_system.run(&mut self.world) {
            clear_damage(&mut self.world.slots);
            return TickOutcome::OutOfRange(Stage::Engagement);
        }
        let mut damage_system = DamageSystem {  };
        if !damage_system.run(&mut self.world) {
            return TickOutcome::OutOfRange(Stage::Damage);
        }
        let mut dead_system = ClearDeadSystem::new();
        dead_system.run(&mut self.world);
        let cleaned = self.handle_pending_state_actions();
        if cleaned != TickOutcome::Completed {
            return cleaned;
        }
        let mut exit_trigger_system = ExitTriggerSystem::new();
        exit_trigger_system.run(&mut self.world);
        self.handle_pending_state_actions()
    }

    /// Runs one tick for the key that was pressed, if any, and tells how
    /// the tick ended.
    pub fn run_systems(&mut self, key: Option<Key>) -> (outcome: TickOutcome)
        ensures
            (final(self).world@, outcome) == tick(old(self).world@, key),
    {
        let (player_moved, intent) = self.run_intent_stage(key);
        if intent != TickOutcome::Completed {
            return intent;
        }
        let mut player_commands = PlayerTextCommandSystem::new();
        player_commands.run(&mut self.world);
        let commanded = self.handle_pending_state_actions();
        if commanded != TickOutcome::Completed {
            return commanded;
        }
        let moved = self.run_movement_stage();
        if moved != TickOutcome::Completed || !player_moved {
            return moved;
        }
        self.run_combat_stage()
    }
}

} // verus!
