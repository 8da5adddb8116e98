//! Entities that walk towards the player.

use crate::components::{
    AppliesDamage, ColliderComponent, CombatStats, DebugName, Description, DescriptionView,
    Movement, Position,
};
use crate::render::{cp437_index, red, Color, Renderable};
use crate::room::BelongsToRoom;
use crate::store::{views_of, EntityRecord, EntityView};
use crate::text::ascii_lower;
use crate::world::{World, WorldView};
use vstd::prelude::*;
use vstd::string::StringExecFns;

verus! {

/// Marks an entity that walks towards the nearest player.
#[derive(Debug, Copy, Clone, PartialEq, Eq, Structural)]
pub struct AiMoveToPlayer {}

/// The entity that a chaser is: it stands at `(x, y)`, blocks its cell, can
/// move, be hurt and deal damage, and walks towards the player.
pub open spec fn chaser_entity(
    x: i32,
    y: i32,
    glyph: char,
    health: i32,
    max_health: i32,
    damage: i32,
    name: Seq<char>,
) -> EntityView {
    EntityView {
        position: Some(Position { x, y }),
        renderable: Some(
            Renderable { glyph: cp437_index(glyph), color: Color { r: 255, g: 0, b: 0 }, zorder: 1 },
        ),
        movement: Some(
            Movement {
                cumulative_x_movement: 0,
                cumulative_y_movement: 0,
                moved_this_frame: false,
                attempted_x_movement: 0,
                attempted_y_movement: 0,
            },
        ),
        collider: Some(ColliderComponent {  }),
        ai_move_to_player: Some(AiMoveToPlayer {  }),
        combat_stats: Some(CombatStats { max_health, health }),
        applies_damage: Some(AppliesDamage { damage }),
        debug_name: Some(name),
        ..EntityView::vacant(0)
    }
}

/// Makes a chaser for trials: at `(4, 4)`, with 10 health and 1 damage.
pub fn create_test_ai(world: &mut World)
    ensures
        final(world)@ == old(world)@.spawn(chaser_entity(4, 4, '\u{2663}', 10, 10, 1, "ai"@)),
{
    let mut record = EntityRecord::new();
    record.position = Some(Position { x: 4, y: 4 });
    record.renderable = Some(Renderable::new_with_z('\u{2663}', red(), 1));
    record.movement = Some(Movement::new());
    record.collider = Some(ColliderComponent {  });
    record.ai_move_to_player = Some(AiMoveToPlayer {  });
    record.combat_stats = Some(CombatStats { max_health: 10, health: 10 });
    record.applies_damage = Some(AppliesDamage { damage: 1 });
    record.debug_name = Some(DebugName { text: String::from_str("ai") });
    world.create_entity(record);
}

/// Makes a chaser of a room, with a description and a stable identity.
pub fn create_enemy_ai(
    world: &mut World,
    room: i32,
    x: i32,
    y: i32,
    glyph: char,
    health: i32,
    max_health: i32,
    damage: i32,
    name: &str,
    desc: &str,
)
    ensures
        final(world)@ == old(world)@.spawn_marked(
            EntityView {
                description: Some(
                    DescriptionView {
                        input_name: ascii_lower(name@),
                        name: name@,
                        description: desc@,
                    },
                ),
                belongs_to_room: Some(BelongsToRoom { room }),
                ..chaser_entity(x, y, glyph, health, max_health, damage, name@)
            },
        ),
{
    let mut record = EntityRecord::new();
    record.position = Some(Position { x, y });
    record.renderable = Some(Renderable::new_with_z(glyph, red(), 1));
    record.movement = Some(Movement::new());
    record.collider = Some(ColliderComponent {  });
    record.ai_move_to_player = Some(AiMoveToPlayer {  });
    record.combat_stats = Some(CombatStats { max_health, health });
    record.applies_damage = Some(AppliesDamage { damage });
    record.debug_name = Some(DebugName { text: String::from_str(name) });
    record.description = Some(Description::new(name, desc));
    record.belongs_to_room = Some(BelongsToRoom { room });
    world.create_marked_entity(record);
}

/// Tells whether a slot holds a chaser that can walk: it stands somewhere
/// and has a movement intent.
pub open spec fn is_chaser(e: EntityView) -> bool {
    e.alive && e.ai_move_to_player is Some && e.position is Some && e.movement is Some
}

/// Tells whether a slot holds a player that stands somewhere.
pub open spec fn is_player_at(e: EntityView) -> bool {
    e.alive && e.player is Some && e.position is Some
}

/// The nearest player among the first `n` slots, seen from a position, with
/// its squared distance: the first of the nearest, as long as the squared
/// distance lies below the greatest number of the coordinate type.
pub open spec fn nearest_upto(entities: Seq<EntityView>, from: Position, n: int) -> (
    Option<Position>,
    int,
)
    decreases n,
{
    if n <= 0 {
        (None, i32::MAX as int)
    } else {
        let before = nearest_upto(entities, from, n - 1);
        let e = entities[n - 1];
        if is_player_at(e) && Position::spec_distance_sq(from, e.position->0) < before.1 {
            (e.position, Position::spec_distance_sq(from, e.position->0))
        } else {
            before
        }
    }
}

/// The position of the nearest player, seen from a position.
pub open spec fn nearest_player(entities: Seq<EntityView>, from: Position) -> Option<Position> {
    nearest_upto(entities, from, entities.len() as int).0
}

/// Tells whether the squared distance from a position to every player can
/// be computed within the coordinate type.
pub open spec fn players_in_reach(entities: Seq<EntityView>, from: Position) -> bool {
    forall|j: int|
        0 <= j < entities.len() && is_player_at(#[trigger] entities[j]) ==> Position::distance_fits(
            from,
            entities[j].position->0,
        )
}

/// Tells whether a chaser can take its step towards the nearest player
/// within the range of the types.
pub open spec fn chase_fits(entities: Seq<EntityView>, e: EntityView) -> bool {
    &&& players_in_reach(entities, e.position->0)
    &&& match nearest_player(entities, e.position->0) {
        Some(target) => e.movement->0.input_fits(
            target.x - e.position->0.x,
            target.y - e.position->0.y,
        ),
        None => true,
    }
}

/// Tells whether every chaser can take its step within the range of the
/// types.
pub open spec fn chase_in_range(entities: Seq<EntityView>) -> bool {
    forall|i: int|
        0 <= i < entities.len() && is_chaser(#[trigger] entities[i]) ==> chase_fits(
            entities,
            entities[i],
        )
}

/// A slot after the chase stage: a chaser has the displacement towards the
/// nearest player added to its movement intent.
pub open spec fn chasing(entities: Seq<EntityView>, i: int) -> EntityView {
    let e = entities[i];
    if is_chaser(e) {
        match nearest_player(entities, e.position->0) {
            Some(target) => EntityView {
                movement: Some(
                    e.movement->0.with_input(
                        target.x - e.position->0.x,
                        target.y - e.position->0.y,
                    ),
                ),
                ..e
            },
            None => e,
        }
    } else {
        e
    }
}

/// The store after the chase stage.
pub open spec fn chase(entities: Seq<EntityView>) -> Seq<EntityView> {
    Seq::new(entities.len(), |i: int| chasing(entities, i))
}

/// The nearest player does not depend on the movement intents.
pub proof fn lemma_same_nearest(a: Seq<EntityView>, b: Seq<EntityView>, from: Position, n: int)
    requires
        a.len() == b.len(),
        0 <= n <= a.len(),
        forall|k: int|
            0 <= k < a.len() ==> {
                &&& (#[trigger] a[k]).alive == b[k].alive
                &&& a[k].position == b[k].position
                &&& a[k].player == b[k].player
            },
    ensures
        nearest_upto(a, from, n) == nearest_upto(b, from, n),
    decreases n,
{
    if n > 0 {
        lemma_same_nearest(a, b, from, n - 1);
        assert(a[n - 1].alive == b[n - 1].alive);
    }
}

/// The chase stage of a tick.
pub struct AiMoveToPlayerSystem {}

impl AiMoveToPlayerSystem {
    /// The chase stage.
    pub fn new() -> Self {
        Self {  }
    }

    /// Finds the position of the player nearest to a position.
    pub fn find_nearest_player_position(my_position: &Position, slots: &Vec<EntityRecord>) -> (r:
        Option<Position>)
        requires
            players_in_reach(views_of(slots@), *my_position),
        ensures
            r == nearest_player(views_of(slots@), *my_position),
    {
        let mut found_position: Option<Position> = None;
        let mut shortest_distance_sq_so_far: i32 = i32::MAX;
        let mut i: usize = 0;
        while i < slots.len()
            invariant
                i <= slots.len(),
                players_in_reach(views_of(slots@), *my_position),
                (found_position, shortest_distance_sq_so_far as int) == nearest_upto(
                    views_of(slots@),
                    *my_position,
                    i as int,
                ),
            decreases slots.len() - i,
        {
            if slots[i].alive && slots[i].player.is_some() {
                match slots[i].position {
                    Some(position) => {
                        assert(is_player_at(views_of(slots@)[i as int]));
                        let distance = Position::distance_sq(my_position, &position);
                        if distance < shortest_distance_sq_so_far {
                            shortest_distance_sq_so_far = distance;
                            found_position = Some(position);
                        }
                    },
                    None => {},
                }
            }
            i += 1;
        }
        found_position
    }

    /// Tells whether the squared distance from a position to every player
    /// can be computed within the coordinate type.
    pub fn players_within_reach(my_position: &Position, slots: &Vec<EntityRecord>) -> (r: bool)
        ensures
            r == players_in_reach(views_of(slots@), *my_position),
    {
        let mut j: usize = 0;
        while j < slots.len()
            invariant
                j <= slots.len(),
                forall|k: int|
                    0 <= k < j && is_player_at(#[trigger] views_of(slots@)[k])
                        ==> Position::distance_fits(*my_position, views_of(slots@)[k].position->0),
            decreases slots.len() - j,
        {
            if slots[j].alive && slots[j].player.is_some() {
                match slots[j].position {
                    Some(position) => {
                        if !Position::distance_in_range(my_position, &position) {
                            assert(is_player_at(views_of(slots@)[j as int]));
                            return false;
                        }
                    },
                    None => {},
                }
            }
            j += 1;
        }
        true
    }

    /// Tells whether [`AiMoveToPlayerSystem::chase`] may be called on the
    /// store.
    pub fn in_range(slots: &Vec<EntityRecord>) -> (r: bool)
        ensures
            r == chase_in_range(views_of(slots@)),
    {
        let mut i: usize = 0;
        while i < slots.len()
            invariant
                i <= slots.len(),
                forall|k: int|
                    0 <= k < i && is_chaser(#[trigger] views_of(slots@)[k]) ==> chase_fits(
                        views_of(slots@),
                        views_of(slots@)[k],
                    ),
            decreases slots.len() - i,
        {
            if slots[i].alive && slots[i].ai_move_to_player.is_some() {
                match (slots[i].position, slots[i].movement) {
                    (Some(position), Some(movement)) => {
                        assert(is_chaser(views_of(slots@)[i as int]));
                        if !Self::players_within_reach(&position, slots) {
                            return false;
                        }
                        match Self::find_nearest_player_position(&position, slots) {
                            Some(target) => {
                                proof {
                                    lemma_nearest_is_player(
                                        views_of(slots@),
                                        position,
                                        slots@.len() as int,
                                    );
                                }
                                assert(Position::delta_fits(position, target));
                                let fits = match (
                                    target.x.checked_sub(position.x),
                                    target.y.checked_sub(position.y),
                                ) {
                                    (Some(dx), Some(dy)) => movement.can_add_movement_input(dx, dy),
                                    _ => false,
                                };
                                if !fits {
                                    return false;
                                }
                            },
                            None => {},
                        }
                    },
                    _ => {},
                }
            }
            i += 1;
        }
        true
    }

    /// Adds, for every chaser, the displacement towards the nearest player
    /// to its movement intent.
    pub fn chase(slots: &mut Vec<EntityRecord>)
        requires
            chase_in_range(views_of(old(slots)@)),
        ensures
            views_of(final(slots)@) == chase(views_of(old(slots)@)),
    {
        let ghost initial = views_of(slots@);
        let n = slots.len();
        let mut i: usize = 0;
        while i < n
            invariant
                i <= n,
                n == slots@.len(),
                n == initial.len(),
                chase_in_range(initial),
                forall|k: int| 0 <= k < i ==> #[trigger] views_of(slots@)[k] == chasing(initial, k),
                forall|k: int| i <= k < n ==> #[trigger] views_of(slots@)[k] == initial[k],
                forall|k: int|
                    0 <= k < n ==> {
                        &&& (#[trigger] views_of(slots@)[k]).alive == initial[k].alive
                        &&& views_of(slots@)[k].position == initial[k].position
                        &&& views_of(slots@)[k].player == initial[k].player
                    },
            decreases n - i,
        {
            let ghost before = views_of(slots@);
            assert(before[i as int] == initial[i as int]);
            if slots[i].alive && slots[i].ai_move_to_player.is_some() {
                match (slots[i].position, slots[i].movement) {
                    (Some(position), Some(movement)) => {
                        assert(is_chaser(initial[i as int]));
                        proof {
                            lemma_same_nearest(before, initial, position, n as int);
                            assert forall|j: int|
                                0 <= j < n && is_player_at(
                                    #[trigger] before[j],
                                ) implies Position::distance_fits(position, before[j].position->0) by {
                                assert(is_player_at(initial[j]));
                            }
                        }
                        match Self::find_nearest_player_position(&position, slots) {
                            Some(target_position) => {
                                assert(is_player_at_some(initial, target_position)) by {
                                    lemma_nearest_is_player(initial, position, n as int);
                                }
                                let (move_x, move_y) = Position::delta(&position, &target_position);
                                let mut movement = movement;
                                movement.add_movement_input(move_x, move_y);
                                slots[i].movement = Some(movement);
                                assert(views_of(slots@) =~= before.update(
                                    i as int,
                                    chasing(initial, i as int),
                                ));
                            },
                            None => {},
                        }
                    },
                    _ => {},
                }
            }
            i += 1;
        }
        assert(views_of(slots@) =~= chase(initial));
    }

    /// Runs the stage where every chaser can take its step within the range
    /// of the types, and tells whether it did; otherwise nothing changes.
    pub fn run(&mut self, world: &mut World) -> (done: bool)
        ensures
            done == chase_in_range(old(world)@.entities),
            final(world)@ == if done {
                WorldView { entities: chase(old(world)@.entities), ..old(world)@ }
            } else {
                old(world)@
            },
    {
        if Self::in_range(&world.slots) {
            Self::chase(&mut world.slots);
            true
        } else {
            false
        }
    }
}

/// Tells whether some player stands at a position.
pub open spec fn is_player_at_some(entities: Seq<EntityView>, target: Position) -> bool {
    exists|j: int|
        0 <= j < entities.len() && is_player_at(#[trigger] entities[j]) && entities[j].position
            == Some(target)
}

/// The nearest player, where there is one, is one of the players.
pub proof fn lemma_nearest_is_player(entities: Seq<EntityView>, from: Position, n: int)
    requires
        0 <= n <= entities.len(),
    ensures
        nearest_upto(entities, from, n).0 is Some ==> is_player_at_some(
            entities,
            nearest_upto(entities, from, n).0->0,
        ),
    decreases n,
{
    if n > 0 {
        lemma_nearest_is_player(entities, from, n - 1);
        let e = entities[n - 1];
        if is_player_at(e) && Position::spec_distance_sq(from, e.position->0) < nearest_upto(
            entities,
            from,
            n - 1,
        ).1 {
            assert(is_player_at(entities[n - 1]) && entities[n - 1].position == e.position);
        }
    }
}

} // verus!
