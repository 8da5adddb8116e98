use castle_adventure::combat::{
    add_damage, apply_damages, attack, collect_dead, engage_fighters, engagement_fits,
    find_target_at, get_entity_name, kill, try_apply_damages, ClearDeadSystem, DamageSystem,
    MeleeCombatSystem,
};
use castle_adventure::components::{
    AppliesDamage, ApplyDamageComponent, ColliderComponent, CombatLog, CombatStats, Description,
    Movement, Player, Position, WantsToAttack,
};
use castle_adventure::game::resolve_moves;
use castle_adventure::store::{create_entity, delete_entity, Entity, EntityRecord};
use castle_adventure::world::World;
use castle_adventure::StateAction;

fn fighter(x: i32, y: i32, dx: i32, dy: i32, health: i32, damage: i32) -> EntityRecord {
    let mut record = EntityRecord::new();
    record.position = Some(Position { x, y });
    record.collider = Some(ColliderComponent {});
    let mut movement = Movement::new();
    movement.add_movement_input(dx, dy);
    record.movement = Some(movement);
    record.combat_stats = Some(CombatStats { health, max_health: health });
    record.applies_damage = Some(AppliesDamage { damage });
    record
}

fn named(mut record: EntityRecord, name: &str) -> EntityRecord {
    record.description = Some(Description::new(name, "a thing"));
    record
}

fn player(mut record: EntityRecord) -> EntityRecord {
    record.player = Some(Player {});
    record.combat_log = Some(CombatLog::new());
    record
}

#[test]
fn a_blocked_fighter_attacks_the_entity_in_its_way() {
    let mut slots = Vec::new();
    let x = create_entity(&mut slots, fighter(0, 0, 1, 0, 10, 3));
    let y = create_entity(&mut slots, fighter(1, 0, 0, 0, 10, 1));
    resolve_moves(&mut slots);
    assert!(slots[0].movement.unwrap().was_move_blocked());
    engage_fighters(&mut slots);
    assert_eq!(slots[x.index].wants_to_attack, Some(WantsToAttack { target: y }));
    assert_eq!(slots[y.index].wants_to_attack, None);
}

#[test]
fn damage_takes_exactly_the_attackers_damage_off_the_health() {
    let mut slots = Vec::new();
    create_entity(&mut slots, fighter(0, 0, 1, 0, 10, 3));
    let y = create_entity(&mut slots, fighter(1, 0, 0, 0, 10, 1));
    resolve_moves(&mut slots);
    engage_fighters(&mut slots);
    apply_damages(&mut slots);
    assert_eq!(slots[y.index].combat_stats.unwrap().health, 7);
    assert_eq!(slots[y.index].combat_stats.unwrap().max_health, 10);
    assert!(slots[y.index].dead.is_none());
    assert!(slots[y.index].apply_damage.is_none());
    assert!(slots[0].wants_to_attack.is_none());
    assert_eq!(slots[0].combat_stats.unwrap().health, 10);
}

#[test]
fn several_attackers_deal_the_sum_of_their_damage() {
    let mut slots = Vec::new();
    create_entity(&mut slots, fighter(0, 1, 1, 0, 10, 3));
    create_entity(&mut slots, fighter(2, 1, -1, 0, 10, 4));
    let y = create_entity(&mut slots, fighter(1, 1, 0, 0, 10, 1));
    create_entity(&mut slots, fighter(1, 0, 0, 1, 10, 2));
    resolve_moves(&mut slots);
    engage_fighters(&mut slots);
    apply_damages(&mut slots);
    assert_eq!(slots[y.index].combat_stats.unwrap().health, 1);
    assert!(slots[y.index].dead.is_none());
}

#[test]
fn an_entity_is_dead_exactly_when_its_health_is_used_up() {
    let mut slots = Vec::new();
    create_entity(&mut slots, fighter(0, 0, 1, 0, 10, 10));
    let exact = create_entity(&mut slots, fighter(1, 0, 0, 0, 10, 1));
    create_entity(&mut slots, fighter(0, 5, 1, 0, 10, 15));
    let over = create_entity(&mut slots, fighter(1, 5, 0, 0, 10, 1));
    create_entity(&mut slots, fighter(0, 9, 1, 0, 10, 9));
    let alive = create_entity(&mut slots, fighter(1, 9, 0, 0, 10, 1));
    resolve_moves(&mut slots);
    engage_fighters(&mut slots);
    apply_damages(&mut slots);
    assert_eq!(slots[exact.index].combat_stats.unwrap().health, 0);
    assert!(slots[exact.index].dead.is_some());
    assert_eq!(slots[over.index].combat_stats.unwrap().health, -5);
    assert!(slots[over.index].dead.is_some());
    assert_eq!(slots[alive.index].combat_stats.unwrap().health, 1);
    assert!(slots[alive.index].dead.is_none());
    assert_eq!(collect_dead(&slots), vec![exact, over]);
}

#[test]
fn the_player_is_told_of_every_hit() {
    let mut slots = Vec::new();
    let p = create_entity(&mut slots, player(fighter(0, 0, 1, 0, 10, 3)));
    let ogre = create_entity(&mut slots, named(fighter(1, 0, -1, 0, 10, 2), "Ogre"));
    resolve_moves(&mut slots);
    engage_fighters(&mut slots);
    apply_damages(&mut slots);
    assert_eq!(slots[p.index].combat_stats.unwrap().health, 8);
    assert_eq!(slots[ogre.index].combat_stats.unwrap().health, 7);
    let logs = slots[p.index].combat_log.as_ref().unwrap().logs();
    assert_eq!(logs, vec!["you were hit".to_string(), "Ogre was hit!".to_string()]);
}

#[test]
fn a_nameless_target_is_logged_as_unknown() {
    let mut slots = Vec::new();
    let p = create_entity(&mut slots, player(fighter(0, 0, 1, 0, 10, 3)));
    create_entity(&mut slots, fighter(1, 0, 0, 0, 10, 2));
    resolve_moves(&mut slots);
    engage_fighters(&mut slots);
    apply_damages(&mut slots);
    let logs = slots[p.index].combat_log.as_ref().unwrap().logs();
    assert_eq!(logs, vec!["".to_string(), "unknown was hit!".to_string()]);
}

#[test]
fn the_combat_log_keeps_the_last_two_lines() {
    let mut log = CombatLog::new();
    assert_eq!(log.logs(), vec!["".to_string(), "".to_string()]);
    log.push("one".to_string());
    log.push("two".to_string());
    log.push("three".to_string());
    assert_eq!(log.logs(), vec!["two".to_string(), "three".to_string()]);
}

#[test]
fn an_entity_without_health_left_is_not_hurt_again() {
    let mut slots = Vec::new();
    create_entity(&mut slots, fighter(0, 0, 1, 0, 10, 3));
    let y = create_entity(&mut slots, fighter(1, 0, 0, 0, 0, 1));
    resolve_moves(&mut slots);
    engage_fighters(&mut slots);
    apply_damages(&mut slots);
    assert_eq!(slots[y.index].combat_stats.unwrap().health, 0);
    assert!(slots[y.index].dead.is_none());
    assert!(slots[y.index].apply_damage.is_none());
}

#[test]
fn a_damage_record_without_amounts_hurts_nobody() {
    let mut slots = Vec::new();
    let a = create_entity(&mut slots, player(fighter(0, 0, 0, 0, 5, 1)));
    slots[a.index].apply_damage = Some(ApplyDamageComponent { amounts: vec![], instigator: a });
    apply_damages(&mut slots);
    assert_eq!(slots[a.index].combat_stats.unwrap().health, 5);
    assert!(slots[a.index].apply_damage.is_none());
    assert_eq!(
        slots[a.index].combat_log.as_ref().unwrap().logs(),
        vec!["".to_string(), "".to_string()]
    );
}

#[test]
fn a_fighter_that_moved_does_not_attack() {
    let mut slots = Vec::new();
    let x = create_entity(&mut slots, fighter(0, 0, 1, 0, 10, 3));
    resolve_moves(&mut slots);
    engage_fighters(&mut slots);
    assert!(slots[x.index].wants_to_attack.is_none());
}

#[test]
fn the_first_entity_in_a_cell_is_the_target() {
    let mut slots = Vec::new();
    let first = create_entity(&mut slots, fighter(4, 4, 0, 0, 5, 1));
    create_entity(&mut slots, fighter(4, 4, 0, 0, 5, 1));
    assert_eq!(find_target_at(4, 4, &slots), Some(first));
    assert_eq!(find_target_at(5, 4, &slots), None);
    delete_entity(&mut slots, first);
    assert_eq!(find_target_at(4, 4, &slots).map(|e| e.index), Some(1));
}

#[test]
fn attack_replaces_an_earlier_decision() {
    let mut slots = Vec::new();
    let a = create_entity(&mut slots, fighter(0, 0, 0, 0, 5, 1));
    let b = create_entity(&mut slots, fighter(1, 0, 0, 0, 5, 1));
    let c = create_entity(&mut slots, fighter(2, 0, 0, 0, 5, 1));
    attack(a, b, &mut slots);
    attack(a, c, &mut slots);
    assert_eq!(slots[a.index].wants_to_attack, Some(WantsToAttack { target: c }));
    let stale = Entity { index: a.index, generation: a.generation + 1 };
    attack(stale, b, &mut slots);
    assert_eq!(slots[a.index].wants_to_attack, Some(WantsToAttack { target: c }));
}

#[test]
fn damage_adds_up_and_names_the_last_instigator() {
    let mut slots = Vec::new();
    let a = create_entity(&mut slots, fighter(0, 0, 0, 0, 5, 1));
    let b = create_entity(&mut slots, fighter(1, 0, 0, 0, 5, 1));
    let t = create_entity(&mut slots, fighter(2, 0, 0, 0, 5, 1));
    add_damage(a, t, 2, &mut slots);
    add_damage(b, t, 3, &mut slots);
    let pending: &ApplyDamageComponent = slots[t.index].apply_damage.as_ref().unwrap();
    assert_eq!(pending.amounts, vec![2, 3]);
    assert_eq!(pending.instigator, b);
    delete_entity(&mut slots, t);
    add_damage(a, t, 2, &mut slots);
    assert!(slots[t.index].apply_damage.is_none());
}

#[test]
fn kill_tags_a_living_entity() {
    let mut slots = Vec::new();
    let a = create_entity(&mut slots, fighter(0, 0, 0, 0, 5, 1));
    kill(a, &mut slots);
    assert!(slots[a.index].dead.is_some());
    assert_eq!(collect_dead(&slots), vec![a]);
}

#[test]
fn entity_name_is_the_shown_name() {
    let mut slots = Vec::new();
    let ogre = create_entity(&mut slots, named(fighter(0, 0, 0, 0, 5, 1), "Ogre"));
    let plain = create_entity(&mut slots, fighter(1, 0, 0, 0, 5, 1));
    assert_eq!(get_entity_name(ogre, &slots), Some("Ogre".to_string()));
    assert_eq!(get_entity_name(plain, &slots), None);
    delete_entity(&mut slots, ogre);
    assert_eq!(get_entity_name(ogre, &slots), None);
}

#[test]
fn damage_beyond_the_range_of_health_hurts_nobody_and_is_cleared() {
    let mut slots = Vec::new();
    let a = create_entity(&mut slots, fighter(0, 0, 0, 0, 5, i32::MIN));
    let t = create_entity(&mut slots, fighter(1, 0, 0, 0, 5, 1));
    attack(a, t, &mut slots);
    assert!(!try_apply_damages(&mut slots));
    assert_eq!(slots[t.index].combat_stats.unwrap().health, 5);
    assert!(slots[t.index].apply_damage.is_none());
    assert!(slots[t.index].dead.is_none());
    assert!(slots[a.index].wants_to_attack.is_none());
}

#[test]
fn only_a_player_is_told_that_it_was_hit() {
    let mut slots = Vec::new();
    let p = create_entity(&mut slots, player(fighter(5, 5, 0, 0, 10, 1)));
    let mut logged = named(fighter(1, 0, 0, 0, 10, 1), "Golem");
    logged.combat_log = Some(CombatLog::new());
    let golem = create_entity(&mut slots, logged);
    let a = create_entity(&mut slots, fighter(0, 0, 0, 0, 10, 2));
    attack(a, golem, &mut slots);
    apply_damages(&mut slots);
    assert_eq!(slots[golem.index].combat_stats.unwrap().health, 8);
    assert_eq!(
        slots[golem.index].combat_log.as_ref().unwrap().logs(),
        vec!["".to_string(), "".to_string()]
    );
    assert_eq!(
        slots[p.index].combat_log.as_ref().unwrap().logs(),
        vec!["".to_string(), "Golem was hit!".to_string()]
    );
}

#[test]
fn engagement_beyond_the_coordinate_range_is_not_run() {
    let mut world = World::new();
    let mut record = fighter(i32::MAX, 0, 0, 0, 5, 1);
    let mut movement = Movement::new();
    movement.add_movement_input(1, 0);
    movement.clear_movement();
    record.movement = Some(movement);
    world.create_entity(record);
    assert!(!engagement_fits(&world.slots));
    assert!(!(MeleeCombatSystem {}).run(&mut world));
}

#[test]
fn the_stages_of_combat_run_on_a_world() {
    let mut world = World::new();
    world.create_entity(fighter(0, 0, 1, 0, 10, 10));
    let y = world.create_entity(fighter(1, 0, 0, 0, 10, 1));
    resolve_moves(&mut world.slots);
    assert!((MeleeCombatSystem {}).run(&mut world));
    assert!((DamageSystem {}).run(&mut world));
    ClearDeadSystem::new().run(&mut world);
    assert_eq!(world.pending_actions.len(), 1);
    match &world.pending_actions[0] {
        StateAction::DeleteEntities { entities } => assert_eq!(entities, &vec![y]),
        other => panic!("unexpected action {:?}", other),
    }
}
