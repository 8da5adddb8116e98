use castle_adventure::components::{ColliderComponent, Movement, Position};
use castle_adventure::game::{moves_in_range, resolve_moves, MovementSystem};
use castle_adventure::store::{create_entity, EntityRecord};
use castle_adventure::world::World;

fn wall(x: i32, y: i32) -> EntityRecord {
    let mut record = EntityRecord::new();
    record.position = Some(Position { x, y });
    record.collider = Some(ColliderComponent {});
    record
}

fn mover(x: i32, y: i32, dx: i32, dy: i32) -> EntityRecord {
    let mut record = wall(x, y);
    let mut movement = Movement::new();
    movement.add_movement_input(dx, dy);
    record.movement = Some(movement);
    record
}

fn position(slots: &Vec<EntityRecord>, index: usize) -> (i32, i32) {
    let p = slots[index].position.unwrap();
    (p.x, p.y)
}

#[test]
fn a_mover_into_a_free_cell_moves() {
    let mut slots = Vec::new();
    create_entity(&mut slots, mover(3, 3, 1, 0));
    resolve_moves(&mut slots);
    assert_eq!(position(&slots, 0), (4, 3));
    let movement = slots[0].movement.unwrap();
    assert!(movement.did_move());
    assert!(!movement.was_move_blocked());
    assert_eq!(movement.get_movement_input(), (0, 0));
    assert_eq!(movement.get_attempted_move(), (1, 0));
}

#[test]
fn intent_is_clamped_to_one_step_per_axis() {
    let mut slots = Vec::new();
    create_entity(&mut slots, mover(3, 3, 7, -9));
    resolve_moves(&mut slots);
    assert_eq!(position(&slots, 0), (4, 2));
    assert_eq!(slots[0].movement.unwrap().get_attempted_move(), (1, -1));
}

#[test]
fn a_mover_into_a_wall_is_blocked_and_keeps_its_attempt() {
    let mut slots = Vec::new();
    create_entity(&mut slots, wall(4, 3));
    create_entity(&mut slots, mover(3, 3, 1, 0));
    resolve_moves(&mut slots);
    assert_eq!(position(&slots, 1), (3, 3));
    let movement = slots[1].movement.unwrap();
    assert!(!movement.did_move());
    assert!(movement.was_move_blocked());
    assert_eq!(movement.get_attempted_move(), (1, 0));
    assert_eq!(movement.get_movement_input(), (0, 0));
}

#[test]
fn the_follower_moves_into_the_cell_that_the_leader_leaves() {
    let mut slots = Vec::new();
    create_entity(&mut slots, mover(1, 0, 1, 0));
    create_entity(&mut slots, mover(0, 0, 1, 0));
    resolve_moves(&mut slots);
    assert_eq!(position(&slots, 0), (2, 0));
    assert_eq!(position(&slots, 1), (1, 0));
    assert!(slots[0].movement.unwrap().did_move());
    assert!(slots[1].movement.unwrap().did_move());
}

#[test]
fn a_third_mover_cannot_claim_the_cells_of_the_two() {
    let mut slots = Vec::new();
    create_entity(&mut slots, mover(1, 0, 1, 0));
    create_entity(&mut slots, mover(0, 0, 1, 0));
    create_entity(&mut slots, mover(2, 1, 0, -1));
    create_entity(&mut slots, mover(1, 1, 0, -1));
    resolve_moves(&mut slots);
    assert_eq!(position(&slots, 0), (2, 0));
    assert_eq!(position(&slots, 1), (1, 0));
    assert_eq!(position(&slots, 2), (2, 1));
    assert_eq!(position(&slots, 3), (1, 1));
    assert!(slots[2].movement.unwrap().was_move_blocked());
    assert!(slots[3].movement.unwrap().was_move_blocked());
}

#[test]
fn the_follower_moves_whichever_slot_comes_first() {
    let mut slots = Vec::new();
    create_entity(&mut slots, mover(0, 0, 1, 0));
    create_entity(&mut slots, mover(1, 0, 1, 0));
    resolve_moves(&mut slots);
    assert_eq!(position(&slots, 0), (1, 0));
    assert_eq!(position(&slots, 1), (2, 0));
    assert!(slots[0].movement.unwrap().did_move());
    assert!(slots[1].movement.unwrap().did_move());
    assert!(!slots[0].movement.unwrap().was_move_blocked());
}

#[test]
fn a_file_of_movers_moves_as_one_in_either_slot_order() {
    for reversed in [false, true] {
        let mut records = vec![
            mover(0, 5, 1, 0),
            mover(1, 5, 1, 0),
            mover(2, 5, 1, 0),
            mover(3, 5, 1, 0),
        ];
        if reversed {
            records.reverse();
        }
        let mut slots = Vec::new();
        for record in records {
            create_entity(&mut slots, record);
        }
        resolve_moves(&mut slots);
        let mut cells: Vec<(i32, i32)> = (0..4).map(|i| position(&slots, i)).collect();
        cells.sort();
        assert_eq!(cells, vec![(1, 5), (2, 5), (3, 5), (4, 5)]);
        assert!(slots.iter().all(|e| e.movement.unwrap().did_move()));
    }
}

#[test]
fn a_file_behind_a_wall_stays_as_one() {
    let mut slots = Vec::new();
    create_entity(&mut slots, mover(0, 5, 1, 0));
    create_entity(&mut slots, mover(1, 5, 1, 0));
    create_entity(&mut slots, wall(2, 5));
    resolve_moves(&mut slots);
    assert_eq!(position(&slots, 0), (0, 5));
    assert_eq!(position(&slots, 1), (1, 5));
    assert!(slots[0].movement.unwrap().was_move_blocked());
    assert!(slots[1].movement.unwrap().was_move_blocked());
}

#[test]
fn two_movers_that_ask_for_each_others_cell_both_stay() {
    let mut slots = Vec::new();
    create_entity(&mut slots, mover(0, 0, 1, 0));
    create_entity(&mut slots, mover(1, 0, -1, 0));
    resolve_moves(&mut slots);
    assert_eq!(position(&slots, 0), (0, 0));
    assert_eq!(position(&slots, 1), (1, 0));
    assert!(slots[0].movement.unwrap().was_move_blocked());
    assert!(slots[1].movement.unwrap().was_move_blocked());
}

#[test]
fn a_third_mover_is_refused_the_cell_of_the_follower_in_either_slot_order() {
    let mut slots = Vec::new();
    create_entity(&mut slots, mover(1, 1, 0, -1));
    create_entity(&mut slots, mover(0, 0, 1, 0));
    create_entity(&mut slots, mover(1, 0, 1, 0));
    resolve_moves(&mut slots);
    assert_eq!(position(&slots, 2), (2, 0));
    let at_b = (0..3).filter(|i| position(&slots, *i) == (1, 0)).count();
    let at_c = (0..3).filter(|i| position(&slots, *i) == (2, 0)).count();
    assert_eq!((at_b, at_c), (1, 1));
    assert_eq!(position(&slots, 0), (1, 0));
    assert_eq!(position(&slots, 1), (0, 0));
    assert!(slots[1].movement.unwrap().was_move_blocked());
    assert!(!slots[1].movement.unwrap().did_move());
}

#[test]
fn two_movers_into_one_free_cell_the_first_wins() {
    let mut slots = Vec::new();
    create_entity(&mut slots, mover(0, 0, 1, 0));
    create_entity(&mut slots, mover(2, 0, -1, 0));
    resolve_moves(&mut slots);
    assert_eq!(position(&slots, 0), (1, 0));
    assert_eq!(position(&slots, 1), (2, 0));
}

#[test]
fn a_mover_without_intent_stays_and_is_not_blocked() {
    let mut slots = Vec::new();
    create_entity(&mut slots, mover(5, 5, 0, 0));
    resolve_moves(&mut slots);
    assert_eq!(position(&slots, 0), (5, 5));
    let movement = slots[0].movement.unwrap();
    assert!(!movement.did_move());
    assert!(!movement.was_move_blocked());
}

#[test]
fn entities_without_a_collider_neither_move_nor_block() {
    let mut slots = Vec::new();
    let mut ghost = mover(4, 3, 1, 0);
    ghost.collider = None;
    create_entity(&mut slots, ghost);
    create_entity(&mut slots, mover(3, 3, 1, 0));
    resolve_moves(&mut slots);
    assert_eq!(position(&slots, 0), (4, 3));
    assert_eq!(slots[0].movement.unwrap().get_movement_input(), (1, 0));
    assert_eq!(position(&slots, 1), (4, 3));
}

#[test]
fn movement_at_the_end_of_the_coordinate_range_is_not_run() {
    let mut world = World::new();
    world.create_entity(mover(i32::MAX, 0, 1, 0));
    assert!(!moves_in_range(&world.slots));
    let mut system = MovementSystem::new();
    assert!(!system.run(&mut world));
    assert_eq!(position(&world.slots, 0), (i32::MAX, 0));
    assert_eq!(world.slots[0].movement.unwrap().get_movement_input(), (0, 0));
    assert_eq!(world.slots[0].movement.unwrap().get_attempted_move(), (1, 0));
    assert!(!world.slots[0].movement.unwrap().did_move());
    let mut fine = World::new();
    fine.create_entity(mover(i32::MAX, 0, -1, 0));
    assert!(MovementSystem::new().run(&mut fine));
    assert_eq!(position(&fine.slots, 0), (i32::MAX - 1, 0));
}
