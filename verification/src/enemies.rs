//! Enemies: the catalogue that describes each kind, and how one is made.

use crate::ai::AiMoveToPlayer;
use crate::components::{
    described, AppliesDamage, ColliderComponent, CombatStats, DebugName, Description, Movement,
    Position,
};
use crate::render::{cp437_index, red, Color, Renderable};
use crate::room::BelongsToRoom;
use crate::store::{EntityRecord, EntityView};
use crate::text::{ascii_lower, to_ascii_lowercase};
use crate::world::World;
use vstd::prelude::*;
use vstd::string::StringExecFns;

verus! {

/// The catalogue entry of one kind of enemy.
pub struct EnemyData {
    pub name: String,
    pub input_name: Option<String>,
    pub description: String,
    pub glyph: char,
    pub health: i32,
    pub damage: Option<i32>,
}

/// What an [`EnemyData`] holds.
pub struct EnemyView {
    pub name: Seq<char>,
    pub input_name: Option<Seq<char>>,
    pub description: Seq<char>,
    pub glyph: char,
    pub health: i32,
    pub damage: Option<i32>,
}

impl View for EnemyData {
    type V = EnemyView;

    open spec fn view(&self) -> EnemyView {
        EnemyView {
            name: self.name@,
            input_name: match self.input_name {
                Some(n) => Some(n@),
                None => None,
            },
            description: self.description@,
            glyph: self.glyph,
            health: self.health,
            damage: self.damage,
        }
    }
}

impl Clone for EnemyData {
    fn clone(&self) -> (r: Self)
        ensures
            r@ == self@,
    {
        EnemyData {
            name: self.name.clone(),
            input_name: match &self.input_name {
                Some(n) => Some(n.clone()),
                None => None,
            },
            description: self.description.clone(),
            glyph: self.glyph,
            health: self.health,
            damage: self.damage,
        }
    }
}

impl EnemyView {
    /// Tells whether the entry goes by the given name: the name is the
    /// entry's lookup name, or the two names are equal but for the case of
    /// their ASCII letters.
    pub open spec fn goes_by(self, name: Seq<char>) -> bool {
        self.input_name == Some(name) || ascii_lower(self.name) == ascii_lower(name)
    }
}

/// The plain values of a catalogue of enemies.
pub open spec fn enemy_views(enemies: Seq<EnemyData>) -> Seq<EnemyView> {
    crate::store::views_of(enemies)
}

/// The index of the first entry from `from` on that goes by the given name,
/// or the number of entries where there is none.
pub open spec fn enemy_index_by_name(enemies: Seq<EnemyView>, name: Seq<char>, from: int) -> int
    decreases enemies.len() - from,
{
    if from < 0 || from >= enemies.len() {
        enemies.len() as int
    } else if enemies[from].goes_by(name) {
        from
    } else {
        enemy_index_by_name(enemies, name, from + 1)
    }
}

/// Tells whether the catalogue has an entry that goes by the given name.
pub open spec fn has_enemy_named(enemies: Seq<EnemyView>, name: Seq<char>) -> bool {
    enemy_index_by_name(enemies, name, 0) < enemies.len()
}

/// Finds the catalogue entry that goes by a name.
pub fn find_enemy_by_name(enemy_to_find: &str, enemies: &Vec<EnemyData>) -> (r: Option<usize>)
    ensures
        match r {
            Some(index) => index < enemies@.len() && index == enemy_index_by_name(
                enemy_views(enemies@),
                enemy_to_find@,
                0,
            ),
            None => enemy_index_by_name(enemy_views(enemies@), enemy_to_find@, 0) == enemies@.len(),
        },
{
    let wanted = String::from_str(enemy_to_find);
    let wanted_lower = to_ascii_lowercase(enemy_to_find);
    let mut i: usize = 0;
    while i < enemies.len()
        invariant
            i <= enemies.len(),
            wanted@ == enemy_to_find@,
            wanted_lower@ == ascii_lower(enemy_to_find@),
            enemy_index_by_name(enemy_views(enemies@), enemy_to_find@, 0) == enemy_index_by_name(
                enemy_views(enemies@),
                enemy_to_find@,
                i as int,
            ),
        decreases enemies.len() - i,
    {
        let by_input_name = match &enemies[i].input_name {
            Some(input_name) => *input_name == wanted,
            None => false,
        };
        if by_input_name {
            return Some(i);
        }
        if to_ascii_lowercase(enemies[i].name.as_str()) == wanted_lower {
            return Some(i);
        }
        i += 1;
    }
    None
}

/// The entity that an enemy of the catalogue is in a room: it stands at
/// `(x, y)`, blocks its cell, can move and be hurt, has the given health or
/// else the full health of its kind, belongs to the room, and carries the
/// entry's description. An enemy that deals damage walks towards the
/// player.
pub open spec fn enemy_entity(
    enemy: EnemyView,
    room: i32,
    x: i32,
    y: i32,
    health: Option<i32>,
) -> EntityView {
    EntityView {
        position: Some(Position { x, y }),
        renderable: Some(
            Renderable {
                glyph: cp437_index(enemy.glyph),
                color: Color { r: 255, g: 0, b: 0 },
                zorder: 1,
            },
        ),
        movement: Some(
            Movement {
                cumulative_x_movement: 0,
                cumulative_y_movement: 0,
                moved_this_frame: false,
                attempted_x_movement: 0,
                attempted_y_movement: 0,
            },
        ),
        collider: Some(ColliderComponent {  }),
        combat_stats: Some(
            CombatStats {
                max_health: enemy.health,
                health: match health {
                    Some(valid_health) => valid_health,
                    None => enemy.health,
                },
            },
        ),
        debug_name: Some(enemy.name),
        belongs_to_room: Some(BelongsToRoom { room }),
        description: Some(described(enemy.name, enemy.input_name, enemy.description)),
        applies_damage: match enemy.damage {
            Some(damage) => Some(AppliesDamage { damage }),
            None => None,
        },
        ai_move_to_player: match enemy.damage {
            Some(_) => Some(AiMoveToPlayer {  }),
            None => None,
        },
        ..EntityView::vacant(0)
    }
}

/// Puts an enemy of the given catalogue entry into a room.
pub fn spawn_enemy(
    world: &mut World,
    room: i32,
    item: &EnemyData,
    x: i32,
    y: i32,
    health: Option<i32>,
)
    ensures
        final(world)@ == old(world)@.spawn_marked(enemy_entity(item@, room, x, y, health)),
{
    let mut record = EntityRecord::new();
    record.position = Some(Position { x, y });
    record.renderable = Some(Renderable::new_with_z(item.glyph, red(), 1));
    record.movement = Some(Movement::new());
    record.collider = Some(ColliderComponent {  });
    record.combat_stats = Some(
        CombatStats {
            max_health: item.health,
            health: if let Some(valid_health) = health {
                valid_health
            } else {
                item.health
            },
        },
    );
    record.debug_name = Some(DebugName { text: item.name.clone() });
    record.belongs_to_room = Some(BelongsToRoom { room });
    record.description = Some(Description::of_entry(&item.name, &item.input_name, &item.description));
    if let Some(damage) = item.damage {
        record.applies_damage = Some(AppliesDamage { damage });
        record.ai_move_to_player = Some(AiMoveToPlayer {  });
    }
    world.create_marked_entity(record);
}

/// Puts the enemy that goes by the given name into a room.
pub fn create_enemy(
    world: &mut World,
    room: i32,
    enemy_name: &str,
    x: i32,
    y: i32,
    health: Option<i32>,
)
    requires
        has_enemy_named(old(world)@.enemies, enemy_name@),
    ensures
        final(world)@ == old(world)@.spawn_marked(
            enemy_entity(
                old(world)@.enemies[enemy_index_by_name(old(world)@.enemies, enemy_name@, 0)],
                room,
                x,
                y,
                health,
            ),
        ),
{
    match find_enemy_by_name(enemy_name, &world.enemies) {
        Some(index) => {
            let enemy = world.enemies[index].clone();
            spawn_enemy(world, room, &enemy, x, y, health);
        },
        None => {},
    }
}

/// Puts a catalogue of enemies in the place of the world's catalogue.
pub fn load_enemies(world: &mut World, enemies: Vec<EnemyData>)
    ensures
        final(world)@ == (crate::world::WorldView { enemies: enemy_views(enemies@), ..old(world)@ }),
{
    world.enemies = enemies;
}

} // verus!
