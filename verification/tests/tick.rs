use castle_adventure::ai::{create_enemy_ai, create_test_ai, AiMoveToPlayerSystem};
use castle_adventure::components::{
    ActiveDescriptionComponent, ColliderComponent, CombatStats, Description, InventoryComponent,
    Movement, PickupTrigger, Player, PlayerInputComponent, PlayerInputMappingComponent,
    PlayerTextInputComponent, Position,
};
use castle_adventure::game::{
    create_player_entity, ApplyPlayerMovementInputSystem, CurrentRoom, ExitTriggerSystem,
    PlayerTextCommandSystem,
};
use castle_adventure::input::{Key, PlayerInputSystem};
use castle_adventure::inventory::PickupTriggerSystem;
use castle_adventure::items::{ItemData, ItemFlags, LAMP, MAGICWAND, SCEPTER};
use castle_adventure::room::{
    Collision, DynamicRoomData, ExitData, ExitDirection, ExitTrigger, RoomChangeError, RoomData,
    TileData,
};
use castle_adventure::state::{Stage, TickOutcome};
use castle_adventure::store::{
    create_entity, delete_entity, entity_is_alive, Entity, EntityRecord,
};
use castle_adventure::world::World;
use castle_adventure::{State, StateAction};

fn room(tiles: Vec<TileData>, exits: Vec<ExitData>) -> RoomData {
    RoomData { tiles, description: vec!["a room".to_string(); 5], exits }
}

fn game() -> State {
    let mut world = World::new();
    world.rooms = vec![
        room(
            vec![TileData { glyph: '\u{2588}', collision: Collision::Enabled, x: 12, y: 7 }],
            vec![ExitData { direction: ExitDirection::East, to_room: 1 }],
        ),
        room(vec![], vec![ExitData { direction: ExitDirection::West, to_room: 0 }]),
    ];
    world.dynamic_rooms = vec![DynamicRoomData::empty(0), DynamicRoomData::empty(1)];
    world.items = vec![ItemData {
        flag: ItemFlags { bits: LAMP },
        name: "Lamp".to_string(),
        input_name: Some("lamp".to_string()),
        description: "It's bright!".to_string(),
    }];
    create_player_entity(&mut world);
    let mut state = State::new(world);
    assert_eq!(state.change_room(0, ExitDirection::Invalid), TickOutcome::Completed);
    state
}

fn player_position(state: &State) -> (i32, i32) {
    let p = state.world.slots[0].position.unwrap();
    (p.x, p.y)
}

fn type_line(state: &mut State, line: &str) -> String {
    for c in line.chars() {
        if c == 'w' {
            state.world.slots[0].player_text_input.as_mut().unwrap().add_character('w');
            continue;
        }
        let key = match c {
            'a' => Key::A, 'b' => Key::B, 'c' => Key::C, 'd' => Key::D, 'e' => Key::E,
            'f' => Key::F, 'g' => Key::G, 'h' => Key::H, 'i' => Key::I, 'j' => Key::J,
            'k' => Key::K, 'l' => Key::L, 'm' => Key::M, 'n' => Key::N, 'o' => Key::O,
            'p' => Key::P, 'q' => Key::Q, 'r' => Key::R, 's' => Key::S, 't' => Key::T,
            'u' => Key::U, 'v' => Key::V, 'x' => Key::X, 'y' => Key::Y, 'z' => Key::Z,
            '0' => Key::Key0, '1' => Key::Key1, '2' => Key::Key2, '3' => Key::Key3,
            '4' => Key::Key4, '5' => Key::Key5, '6' => Key::Key6, '7' => Key::Key7,
            '8' => Key::Key8, '9' => Key::Key9, ' ' => Key::Space,
            other => panic!("no key for {:?}", other),
        };
        assert_eq!(state.run_systems(Some(key)), TickOutcome::Completed);
    }
    let outcome = state.run_systems(Some(Key::Return));
    assert!(matches!(outcome, TickOutcome::Completed | TickOutcome::Quit));
    state.world.slots[0].active_description.as_ref().unwrap().description.clone()
}

#[test]
fn an_arrow_key_moves_the_player_one_step() {
    let mut state = game();
    assert_eq!(state.run_systems(Some(Key::Right)), TickOutcome::Completed);
    assert_eq!(player_position(&state), (13, 9));
    assert_eq!(state.run_systems(Some(Key::Down)), TickOutcome::Completed);
    assert_eq!(player_position(&state), (13, 10));
    assert_eq!(state.run_systems(None), TickOutcome::Completed);
    assert_eq!(player_position(&state), (13, 10));
    assert!(state.world.pending_actions.is_empty());
}

#[test]
fn a_wall_stops_the_player() {
    let mut state = game();
    assert_eq!(state.run_systems(Some(Key::Up)), TickOutcome::Completed);
    assert_eq!(player_position(&state), (12, 8));
    assert_eq!(state.run_systems(Some(Key::Up)), TickOutcome::Completed);
    assert_eq!(player_position(&state), (12, 8));
    assert!(state.world.slots[0].movement.unwrap().was_move_blocked());
}

#[test]
fn walking_off_the_eastern_edge_leads_to_the_next_room() {
    let mut state = game();
    for _ in 0..11 {
        assert_eq!(state.run_systems(Some(Key::Right)), TickOutcome::Completed);
    }
    assert_eq!(player_position(&state), (23, 9));
    assert_eq!(state.world.current_room.get_room_index(), 0);
    assert_eq!(state.run_systems(Some(Key::Right)), TickOutcome::Completed);
    assert_eq!(state.world.current_room.get_room_index(), 1);
    assert_eq!(player_position(&state), (0, 9));
    assert_eq!(state.run_systems(Some(Key::Left)), TickOutcome::Completed);
    assert_eq!(state.world.current_room.get_room_index(), 0);
    assert_eq!(player_position(&state), (23, 9));
}

#[test]
fn the_player_picks_up_what_it_walks_onto() {
    let mut state = game();
    castle_adventure::items::create_item_by_name(&mut state.world, 0, "lamp", 13, 9);
    let before = state.world.slots.iter().filter(|e| e.alive).count();
    assert_eq!(state.run_systems(Some(Key::Right)), TickOutcome::Completed);
    let inventory = state.world.slots[0].inventory.unwrap();
    assert!(inventory.has(ItemFlags { bits: LAMP }));
    assert!(!inventory.has(ItemFlags { bits: SCEPTER }));
    assert_eq!(state.world.slots.iter().filter(|e| e.alive).count(), before - 1);
    assert!(!state.world.slots.iter().any(|e| e.alive && e.pickup_trigger.is_some()));
}

#[test]
fn the_player_fights_what_stands_in_its_way() {
    let mut state = game();
    create_enemy_ai(&mut state.world, 0, 14, 9, 'o', 15, 15, 2, "Ogre", "smelly");
    let ogre = state.world.slots.iter().position(|e| e.ai_move_to_player.is_some()).unwrap();
    assert_eq!(state.run_systems(Some(Key::Right)), TickOutcome::Completed);
    assert_eq!(player_position(&state), (13, 9));
    assert_eq!(state.world.slots[ogre].position, Some(Position { x: 14, y: 9 }));
    assert_eq!(state.world.slots[ogre].combat_stats.unwrap().health, 15);
    assert_eq!(state.world.slots[0].combat_stats.unwrap().health, 8);
    assert_eq!(state.run_systems(Some(Key::Right)), TickOutcome::Completed);
    assert_eq!(state.world.slots[ogre].combat_stats.unwrap().health, 5);
    assert_eq!(state.world.slots[0].combat_stats.unwrap().health, 6);
    assert_eq!(
        state.world.slots[0].combat_log.as_ref().unwrap().logs(),
        vec!["you were hit".to_string(), "Ogre was hit!".to_string()]
    );
    assert_eq!(state.run_systems(Some(Key::Right)), TickOutcome::Completed);
    assert!(!state.world.slots[ogre].alive);
    assert_eq!(state.run_systems(Some(Key::Right)), TickOutcome::Completed);
    assert_eq!(player_position(&state), (14, 9));
}

#[test]
fn chasers_wait_while_the_player_stands_still() {
    let mut state = game();
    create_test_ai(&mut state.world);
    let ai = state.world.slots.iter().position(|e| e.ai_move_to_player.is_some()).unwrap();
    assert_eq!(state.run_systems(None), TickOutcome::Completed);
    assert_eq!(state.world.slots[ai].position, Some(Position { x: 4, y: 4 }));
    assert_eq!(state.run_systems(Some(Key::Down)), TickOutcome::Completed);
    assert_eq!(state.world.slots[ai].position, Some(Position { x: 5, y: 5 }));
}

#[test]
fn look_answers_with_the_description() {
    let mut state = game();
    castle_adventure::items::create_item_by_name(&mut state.world, 0, "lamp", 3, 3);
    assert_eq!(type_line(&mut state, "look lamp"), "It's bright!");
    assert_eq!(type_line(&mut state, "look sword"), "look at target");
    assert_eq!(type_line(&mut state, "look"), "look at room with long description here");
    assert_eq!(type_line(&mut state, "dance"), "I don't understand");
    assert_eq!(type_line(&mut state, ""), "I don't understand");
}

#[test]
fn things_are_used_only_when_held() {
    let mut state = game();
    assert_eq!(type_line(&mut state, "use scepter"), "you don't have a scepter");
    assert_eq!(type_line(&mut state, "use wand"), "you don't have a wand");
    assert_eq!(type_line(&mut state, "use lamp"), "I don't understand");
    assert_eq!(type_line(&mut state, "use"), "I don't understand");
    let mut inventory = InventoryComponent::new();
    inventory.add(ItemFlags { bits: SCEPTER });
    inventory.add(ItemFlags { bits: MAGICWAND });
    state.world.slots[0].inventory = Some(inventory);
    assert_eq!(type_line(&mut state, "use scepter"), "you win!");
    assert_eq!(type_line(&mut state, "wave scepter"), "you win!");
    assert_eq!(type_line(&mut state, "show scepter"), "that doesn't work");
    assert_eq!(type_line(&mut state, "play wand"), "that doesn't work");
    assert_eq!(type_line(&mut state, "wave wand"), "nothing happens");
    state.world.current_room = CurrentRoom(1);
    assert_eq!(type_line(&mut state, "use scepter"), "nothing happens");
}

#[test]
fn quit_ends_the_tick_at_once() {
    let mut state = game();
    for key in [Key::Q, Key::U, Key::I, Key::T] {
        assert_eq!(state.run_systems(Some(key)), TickOutcome::Completed);
    }
    assert_eq!(state.run_systems(Some(Key::Return)), TickOutcome::Quit);
    assert!(state.world.pending_actions.is_empty());
}

#[test]
fn go_is_a_privileged_command() {
    let mut state = game();
    assert_eq!(type_line(&mut state, "go 1"), "I don't understand");
    assert_eq!(state.world.current_room.get_room_index(), 1);
    assert_eq!(player_position(&state), (12, 9));
    state.world.slots[0].debug_hud = None;
    type_line(&mut state, "go 0");
    assert_eq!(state.world.current_room.get_room_index(), 1);
}

#[test]
fn go_to_an_unknown_room_fails_the_tick() {
    let mut state = game();
    for key in [Key::G, Key::O, Key::Space, Key::Key7] {
        assert_eq!(state.run_systems(Some(key)), TickOutcome::Completed);
    }
    assert_eq!(
        state.run_systems(Some(Key::Return)),
        TickOutcome::RoomChangeFailed(RoomChangeError::CannotEnter)
    );
    assert_eq!(state.world.current_room.get_room_index(), 0);
    assert!(state.world.pending_actions.is_empty());
}

#[test]
fn privileged_commands_become_actions() {
    let mut system = PlayerTextCommandSystem::new();
    let mut actions: Vec<StateAction> = Vec::new();
    system.process_debug_input(&"dsave".to_string(), &mut actions);
    system.process_debug_input(&"dload now".to_string(), &mut actions);
    system.process_debug_input(&"redirect 76 1".to_string(), &mut actions);
    system.process_debug_input(&"redirect 76".to_string(), &mut actions);
    system.process_debug_input(&"redirect a b".to_string(), &mut actions);
    system.process_debug_input(&"go".to_string(), &mut actions);
    system.process_debug_input(&"go -3".to_string(), &mut actions);
    system.process_debug_input(&"look".to_string(), &mut actions);
    system.process_debug_input(&"".to_string(), &mut actions);
    let shown: Vec<String> = actions.iter().map(|a| format!("{:?}", a)).collect();
    assert_eq!(
        shown,
        vec![
            "DebugSave",
            "DebugLoad",
            "RedirectRoom { original_room: 76, new_room: 1 }",
            "Idle",
            "Idle",
            "Idle",
            "ChangeRoom { direction: Invalid, to_room: -3 }",
        ]
    );
}

#[test]
fn the_wand_opens_the_secret_passage_in_the_winding_passage() {
    let mut system = PlayerTextCommandSystem::new();
    let mut actions: Vec<StateAction> = Vec::new();
    let mut inventory = InventoryComponent::new();
    inventory.add(ItemFlags { bits: MAGICWAND });
    let slots: Vec<EntityRecord> = Vec::new();
    let answer = system.process_text_input(
        CurrentRoom(76),
        &inventory,
        &"wave wand".to_string(),
        &slots,
        &mut actions,
    );
    assert_eq!(answer, Some("a secret passage opens!".to_string()));
    assert_eq!(actions.len(), 1);
    assert!(matches!(
        actions[0],
        StateAction::RedirectRoom { original_room: 76, new_room: 1 }
    ));
    let answer = system.process_text_input(
        CurrentRoom(75),
        &inventory,
        &"wave wand".to_string(),
        &slots,
        &mut actions,
    );
    assert_eq!(answer, Some("nothing happens".to_string()));
    assert_eq!(actions.len(), 1);
}

#[test]
fn a_redirection_of_the_current_room_sets_it_up_anew() {
    let mut state = game();
    assert_eq!(state.world.slots.iter().filter(|e| e.alive).count(), 1 + 1 + 18);
    assert_eq!(state.redirect_room(0, 1), TickOutcome::Completed);
    assert_eq!(state.world.current_room.get_room_index(), 0);
    assert_eq!(state.world.slots.iter().filter(|e| e.alive).count(), 1 + 18);
    assert!(state
        .world
        .slots
        .iter()
        .filter(|e| e.alive && e.exit_trigger.is_some())
        .all(|e| e.position.unwrap().x == -1 && e.belongs_to_room.unwrap().room == 0));
    assert_eq!(state.redirect_room(1, 0), TickOutcome::Completed);
    assert_eq!(state.world.slots.iter().filter(|e| e.alive).count(), 1 + 18);
}

#[test]
fn typed_text_is_edited_and_submitted() {
    let mut text = PlayerTextInputComponent::new();
    PlayerInputSystem::process_text_input(&mut text, Key::H);
    PlayerInputSystem::process_text_input(&mut text, Key::I);
    PlayerInputSystem::process_text_input(&mut text, Key::W);
    PlayerInputSystem::process_text_input(&mut text, Key::Space);
    PlayerInputSystem::process_text_input(&mut text, Key::Key9);
    PlayerInputSystem::process_text_input(&mut text, Key::Left);
    assert_eq!(text.get_preview(), "hi 9");
    PlayerInputSystem::process_text_input(&mut text, Key::Back);
    assert_eq!(text.get_preview(), "hi ");
    assert_eq!(text.consume(), None);
    PlayerInputSystem::process_text_input(&mut text, Key::Return);
    PlayerInputSystem::process_text_input(&mut text, Key::X);
    PlayerInputSystem::process_text_input(&mut text, Key::Back);
    PlayerInputSystem::process_text_input(&mut text, Key::Escape);
    assert_eq!(text.get_preview(), "hi ");
    assert_eq!(text.consume(), Some("hi ".to_string()));
    assert_eq!(text.get_preview(), "");
    text.add_character('a');
    text.clear_text();
    text.backspace();
    assert_eq!(text.get_preview(), "");
}

#[test]
fn the_key_w_types_nothing() {
    let mut text = PlayerTextInputComponent::new();
    PlayerInputSystem::process_text_input(&mut text, Key::V);
    PlayerInputSystem::process_text_input(&mut text, Key::W);
    PlayerInputSystem::process_text_input(&mut text, Key::Other);
    PlayerInputSystem::process_text_input(&mut text, Key::X);
    assert_eq!(text.get_preview(), "vx");
}

#[test]
fn arrow_keys_ask_for_directions() {
    let mapping = PlayerInputMappingComponent {};
    let mut input = PlayerInputComponent::new();
    mapping.process_key(Key::Left, &mut input);
    mapping.process_key(Key::Up, &mut input);
    mapping.process_key(Key::A, &mut input);
    assert!(input.move_left && input.move_up && !input.move_right && !input.move_down);
    assert_eq!(ApplyPlayerMovementInputSystem::net_input(&input), (-1, -1));
    mapping.process_key(Key::Right, &mut input);
    assert_eq!(ApplyPlayerMovementInputSystem::net_input(&input), (0, -1));
    input.clear();
    assert_eq!(input, PlayerInputComponent::new());
}

#[test]
fn player_input_becomes_movement_intent() {
    let mut world = World::new();
    create_player_entity(&mut world);
    PlayerInputSystem::new(Some(Key::Left)).run(&mut world);
    let mut system = ApplyPlayerMovementInputSystem::new();
    assert!(system.run(&mut world));
    assert!(system.player_moved);
    assert_eq!(world.slots[0].movement.unwrap().get_movement_input(), (-1, 0));
    PlayerInputSystem::new(None).run(&mut world);
    assert!(system.run(&mut world));
    assert!(!system.player_moved);
    let mut full = Movement::new();
    full.add_movement_input(i32::MIN, 0);
    world.slots[0].movement = Some(full);
    PlayerInputSystem::new(Some(Key::Left)).run(&mut world);
    assert!(!system.run(&mut world));
    assert!(!system.player_moved);
}

#[test]
fn the_input_stage_reports_an_intent_that_leaves_the_range() {
    let mut state = game();
    let mut full = Movement::new();
    full.add_movement_input(i32::MAX, 0);
    state.world.slots[0].movement = Some(full);
    assert_eq!(state.run_systems(Some(Key::Right)), TickOutcome::OutOfRange(Stage::Input));
    assert_eq!(player_position(&state), (12, 9));
}

#[test]
fn every_stage_reports_when_it_would_leave_the_range_of_its_numbers() {
    let mut state = game();
    state.world.slots[0].position = Some(Position { x: i32::MAX, y: 9 });
    assert_eq!(state.run_systems(Some(Key::Right)), TickOutcome::OutOfRange(Stage::Movement));
    assert_eq!(state.world.slots[0].movement.unwrap().get_movement_input(), (0, 0));
    assert_eq!(player_position(&state), (i32::MAX, 9));

    let mut state = game();
    create_test_ai(&mut state.world);
    state.world.slots[0].position = Some(Position { x: 1_000_000, y: 9 });
    assert_eq!(state.run_systems(Some(Key::Right)), TickOutcome::OutOfRange(Stage::Chase));
    assert_eq!(state.run_systems(None), TickOutcome::Completed);

    let mut state = game();
    let mut blocked = Movement::new();
    blocked.add_movement_input(1, 0);
    blocked.clear_movement();
    let mut fighter = EntityRecord::new();
    fighter.position = Some(Position { x: i32::MAX, y: 0 });
    fighter.movement = Some(blocked);
    fighter.applies_damage = Some(castle_adventure::components::AppliesDamage { damage: 1 });
    state.world.create_entity(fighter);
    assert_eq!(state.run_systems(Some(Key::Down)), TickOutcome::OutOfRange(Stage::Engagement));
    assert_eq!(player_position(&state), (12, 10));

    let mut state = game();
    create_enemy_ai(&mut state.world, 0, 13, 9, 'o', 5, 5, 1, "Ogre", "smelly");
    state.world.slots[0].applies_damage =
        Some(castle_adventure::components::AppliesDamage { damage: i32::MIN });
    assert_eq!(state.run_systems(Some(Key::Right)), TickOutcome::OutOfRange(Stage::Damage));
    let ogre = state.world.slots.iter().find(|e| e.ai_move_to_player.is_some()).unwrap();
    assert_eq!(ogre.combat_stats.unwrap().health, 5);
    assert!(ogre.apply_damage.is_none());
    assert!(state.world.slots.iter().all(|e| e.wants_to_attack.is_none()));
}

#[test]
fn a_chaser_steps_towards_the_nearest_player() {
    let mut slots = Vec::new();
    let mut far = EntityRecord::new();
    far.player = Some(Player {});
    far.position = Some(Position { x: 20, y: 0 });
    create_entity(&mut slots, far);
    let mut near = EntityRecord::new();
    near.player = Some(Player {});
    near.position = Some(Position { x: 1, y: 5 });
    create_entity(&mut slots, near);
    let mut chaser = EntityRecord::new();
    chaser.ai_move_to_player = Some(castle_adventure::ai::AiMoveToPlayer {});
    chaser.position = Some(Position { x: 4, y: 4 });
    chaser.movement = Some(Movement::new());
    create_entity(&mut slots, chaser);
    assert_eq!(
        AiMoveToPlayerSystem::find_nearest_player_position(&Position { x: 4, y: 4 }, &slots),
        Some(Position { x: 1, y: 5 })
    );
    assert!(AiMoveToPlayerSystem::in_range(&slots));
    AiMoveToPlayerSystem::chase(&mut slots);
    let movement = slots[2].movement.unwrap();
    assert_eq!(movement.get_movement_input(), (-1, 1));
    assert_eq!(movement.cumulative_x_movement, -3);
    assert_eq!(Position::distance_sq(&Position { x: 4, y: 4 }, &Position { x: 1, y: 5 }), 10);
    assert_eq!(Position::delta(&Position { x: 4, y: 4 }, &Position { x: 1, y: 5 }), (-3, 1));
}

#[test]
fn a_chase_beyond_the_range_of_the_numbers_is_not_run() {
    let mut world = World::new();
    let mut player = EntityRecord::new();
    player.player = Some(Player {});
    player.position = Some(Position { x: 100000, y: 0 });
    world.create_entity(player);
    let mut chaser = EntityRecord::new();
    chaser.ai_move_to_player = Some(castle_adventure::ai::AiMoveToPlayer {});
    chaser.position = Some(Position { x: 0, y: 0 });
    chaser.movement = Some(Movement::new());
    world.create_entity(chaser);
    assert!(!Position::distance_in_range(
        &Position { x: 0, y: 0 },
        &Position { x: 100000, y: 0 }
    ));
    assert!(Position::distance_in_range(&Position { x: 0, y: 0 }, &Position { x: 46340, y: 0 }));
    assert!(!Position::distance_in_range(&Position { x: 0, y: 0 }, &Position { x: 46341, y: 0 }));
    assert!(!AiMoveToPlayerSystem::new().run(&mut world));
    assert_eq!(world.slots[1].movement.unwrap().get_movement_input(), (0, 0));
}

#[test]
fn the_exit_stage_asks_for_the_room_of_the_trigger() {
    let mut world = World::new();
    let mut player = EntityRecord::new();
    player.player = Some(Player {});
    player.position = Some(Position { x: 5, y: 5 });
    let mut movement = Movement::new();
    movement.moved();
    player.movement = Some(movement);
    world.create_entity(player);
    let mut trigger = EntityRecord::new();
    trigger.position = Some(Position { x: 5, y: 5 });
    trigger.exit_trigger = Some(ExitTrigger::new(ExitDirection::Up, 9));
    world.create_entity(trigger);
    ExitTriggerSystem::new().run(&mut world);
    assert_eq!(world.pending_actions.len(), 1);
    assert!(matches!(
        world.pending_actions[0],
        StateAction::ChangeRoom { direction: ExitDirection::Up, to_room: 9 }
    ));
    world.slots[0].movement = Some(Movement::new());
    ExitTriggerSystem::new().run(&mut world);
    assert_eq!(world.pending_actions.len(), 1);
}

#[test]
fn the_pickup_stage_always_asks_for_a_deletion() {
    let mut world = World::new();
    PickupTriggerSystem::new().run(&mut world);
    assert_eq!(world.pending_actions.len(), 1);
    assert!(matches!(&world.pending_actions[0], StateAction::DeleteEntities { entities } if entities.is_empty()));
    let mut player = EntityRecord::new();
    player.player = Some(Player {});
    player.position = Some(Position { x: 5, y: 5 });
    player.inventory = Some(InventoryComponent::new());
    let mut movement = Movement::new();
    movement.moved();
    player.movement = Some(movement);
    world.create_entity(player);
    let mut item = EntityRecord::new();
    item.position = Some(Position { x: 5, y: 5 });
    item.pickup_trigger = Some(PickupTrigger { item_to_pickup: ItemFlags { bits: LAMP } });
    let handle = world.create_entity(item);
    PickupTriggerSystem::new().run(&mut world);
    assert!(matches!(&world.pending_actions[1], StateAction::DeleteEntities { entities } if entities == &vec![handle]));
    assert_eq!(world.slots[0].inventory.unwrap().items.bits(), LAMP);
}

#[test]
fn handles_are_checked_against_the_generation_of_their_slot() {
    let mut slots = Vec::new();
    let a = create_entity(&mut slots, EntityRecord::new());
    let b = create_entity(&mut slots, EntityRecord::new());
    assert_eq!((a.index, a.generation), (0, 0));
    assert_eq!((b.index, b.generation), (1, 0));
    assert!(entity_is_alive(&slots, a));
    assert!(delete_entity(&mut slots, a));
    assert!(!delete_entity(&mut slots, a));
    assert!(!entity_is_alive(&slots, a));
    let c = create_entity(&mut slots, EntityRecord::new());
    assert_eq!((c.index, c.generation), (0, 1));
    assert!(!entity_is_alive(&slots, a));
    assert!(entity_is_alive(&slots, c));
    assert!(!entity_is_alive(&slots, Entity { index: 7, generation: 0 }));
    let d = create_entity(&mut slots, EntityRecord::new());
    assert_eq!((d.index, d.generation), (2, 0));
    slots[1].alive = false;
    slots[1].generation = u32::MAX;
    let e = create_entity(&mut slots, EntityRecord::new());
    assert_eq!(e.index, 3);
}

#[test]
fn stable_identities_are_handed_out_once_and_resolve_to_the_entity() {
    let mut world = World::new();
    let plain = world.create_entity(EntityRecord::new());
    let first = world.create_marked_entity(EntityRecord::new());
    let second = world.create_marked_entity(EntityRecord::new());
    assert!(world.slots[plain.index].marker.is_none());
    assert_eq!(world.slots[first.index].marker.unwrap().id, 0);
    assert_eq!(world.slots[second.index].marker.unwrap().id, 1);
    assert_eq!(world.find_marked(1), Some(second));
    assert_eq!(world.find_marked(2), None);
    assert!(world.delete_entity(first));
    assert_eq!(world.find_marked(0), None);
    let third = world.create_marked_entity(EntityRecord::new());
    assert_eq!(third.index, first.index);
    assert_eq!(world.slots[third.index].marker.unwrap().id, 2);
    assert_eq!(world.find_marked(2), Some(third));
    world.next_marker = u64::MAX;
    let last = world.create_marked_entity(EntityRecord::new());
    assert!(world.slots[last.index].marker.is_none());
    assert_eq!(world.next_marker, u64::MAX);
}

#[test]
fn pending_actions_are_carried_out_in_order_and_cleared() {
    let mut state = game();
    let wall = Entity { index: 1, generation: 0 };
    assert!(entity_is_alive(&state.world.slots, wall));
    state.world.push_action(StateAction::Idle);
    state.world.push_action(StateAction::DeleteEntities { entities: vec![wall, wall] });
    state.world.push_action(StateAction::DebugSave);
    state.world.push_action(StateAction::DebugLoad);
    state.world.push_action(StateAction::Quit);
    state.world.push_action(StateAction::ChangeRoom { direction: ExitDirection::East, to_room: 1 });
    assert_eq!(state.handle_pending_state_actions(), TickOutcome::Quit);
    assert!(!entity_is_alive(&state.world.slots, wall));
    assert_eq!(state.world.current_room.get_room_index(), 0);
    assert!(state.world.pending_actions.is_empty());
    state.world.push_action(StateAction::Idle);
    state.reset_pending_actions();
    assert!(state.world.pending_actions.is_empty());
    assert_eq!(state.handle_pending_state_actions(), TickOutcome::Completed);
}

#[test]
fn small_components_hold_what_they_are_given() {
    let mut answer = ActiveDescriptionComponent::new();
    assert_eq!(answer.description, "");
    answer.set("hello");
    assert_eq!(answer.description, "hello");
    let p = Position { x: 3, y: 4 };
    assert!(p.equals_xy(3, 4));
    assert!(!p.equals_xy(4, 3));
    let stats = CombatStats { health: 3, max_health: 5 };
    assert_eq!(stats.health, 3);
    let d = Description::new("ÄB", "x");
    assert_eq!(d.input_name, "Äb");
    let _ = ColliderComponent {};
    let mut m = Movement::new();
    assert!(m.can_add_movement_input(i32::MAX, i32::MIN));
    m.add_movement_input(1, -1);
    assert!(!m.can_add_movement_input(i32::MAX, 0));
    assert!(!m.can_add_movement_input(0, i32::MIN));
    assert!(!m.attempted_to_move());
    m.clear_movement();
    assert!(m.attempted_to_move());
    assert!(m.was_move_blocked());
    m.moved();
    assert!(!m.was_move_blocked());
}
