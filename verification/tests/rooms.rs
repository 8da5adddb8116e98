use castle_adventure::components::{Description, Position};
use castle_adventure::enemies::{create_enemy, find_enemy_by_name, EnemyData};
use castle_adventure::game::create_player_entity;
use castle_adventure::input::Key;
use castle_adventure::items::{
    create_item, create_item_by_name, find_item, find_item_by_name, get_item_name, item_to_glyph,
    ItemData, ItemFlags, CROWN, LAMP, SCEPTER,
};
use castle_adventure::room::map_file::{decode_rooms, MapError};
use castle_adventure::room::{
    add_room_redirection, apply_room_overrides, capture_ready, change_room, create_description,
    create_dynamic_room_entities, create_room_entities, find_exit_data, find_room, get_room_data,
    has_room_data, is_tile_at, load_dynamic_rooms, load_rooms, replay_ready, try_change_room,
    update_dynamic_room, Collision, DynamicDescriptionData, DynamicEnemy, DynamicItemData,
    DynamicPosition, DynamicRoomData, ExitData, ExitDirection, RoomChangeError, RoomData,
    StaticRoomOverride, TileData,
};
use castle_adventure::state::TickOutcome;
use castle_adventure::store::EntityRecord;
use castle_adventure::world::World;
use castle_adventure::State;

fn lamp() -> ItemData {
    ItemData {
        flag: ItemFlags { bits: LAMP },
        name: "Lamp".to_string(),
        input_name: Some("lamp".to_string()),
        description: "It's bright!".to_string(),
    }
}

fn crown() -> ItemData {
    ItemData {
        flag: ItemFlags { bits: CROWN },
        name: "Golden Crown".to_string(),
        input_name: None,
        description: "Heavy.".to_string(),
    }
}

fn ogre() -> EnemyData {
    EnemyData {
        name: "Ogre".to_string(),
        input_name: Some("ogre".to_string()),
        description: "It's smelly!".to_string(),
        glyph: '\u{263A}',
        health: 5,
        damage: Some(1),
    }
}

fn statue() -> EnemyData {
    EnemyData {
        name: "Statue".to_string(),
        input_name: None,
        description: "Cold stone.".to_string(),
        glyph: 'S',
        health: 9,
        damage: None,
    }
}

fn tile(x: i32, y: i32, glyph: char, collision: Collision) -> TileData {
    TileData { glyph, collision, x, y }
}

fn room(tiles: Vec<TileData>, exits: Vec<ExitData>) -> RoomData {
    RoomData { tiles, description: vec!["a room".to_string(); 5], exits }
}

fn world_of(rooms: Vec<RoomData>) -> World {
    let mut world = World::new();
    let count = rooms.len() as i32;
    world.rooms = rooms;
    world.dynamic_rooms = (0..count).map(DynamicRoomData::empty).collect();
    world.items = vec![lamp(), crown()];
    world.enemies = vec![ogre(), statue()];
    world
}

fn in_room(world: &World, room: i32) -> Vec<&EntityRecord> {
    world
        .slots
        .iter()
        .filter(|e| e.alive && e.belongs_to_room.map(|b| b.room) == Some(room))
        .collect()
}

fn two_rooms() -> World {
    world_of(vec![
        room(
            vec![tile(0, 0, '\u{2588}', Collision::Enabled), tile(5, 5, 'U', Collision::Disabled)],
            vec![
                ExitData { direction: ExitDirection::South, to_room: 1 },
                ExitData { direction: ExitDirection::Up, to_room: 1 },
            ],
        ),
        room(
            vec![tile(3, 17, '\u{2588}', Collision::Enabled)],
            vec![ExitData { direction: ExitDirection::North, to_room: 0 }],
        ),
    ])
}

#[test]
fn item_catalogue_is_searched_by_flag_and_by_name() {
    let items = vec![lamp(), crown()];
    assert_eq!(find_item(ItemFlags { bits: CROWN }, &items), Some(1));
    assert_eq!(find_item(ItemFlags { bits: SCEPTER }, &items), None);
    assert_eq!(find_item_by_name("lamp", &items), Some(0));
    assert_eq!(find_item_by_name("golden crown", &items), Some(1));
    assert_eq!(find_item_by_name("Golden Crown", &items), None);
    assert_eq!(find_item_by_name("sword", &items), None);
}

#[test]
fn item_names_prefer_the_lookup_name() {
    let world = two_rooms();
    assert_eq!(get_item_name(ItemFlags { bits: LAMP }, &world), "lamp");
    assert_eq!(get_item_name(ItemFlags { bits: CROWN }, &world), "Golden Crown");
}

#[test]
fn item_glyphs_follow_the_table() {
    assert_eq!(item_to_glyph(ItemFlags { bits: LAMP }), '\u{2660}');
    assert_eq!(item_to_glyph(ItemFlags { bits: SCEPTER }), '\u{00DF}');
    assert_eq!(item_to_glyph(ItemFlags { bits: CROWN }), '\u{2302}');
    assert_eq!(item_to_glyph(ItemFlags { bits: LAMP | CROWN }), ' ');
    assert_eq!(item_to_glyph(ItemFlags { bits: 0 }), ' ');
}

#[test]
fn enemy_catalogue_is_searched_without_regard_to_case() {
    let enemies = vec![ogre(), statue()];
    assert_eq!(find_enemy_by_name("ogre", &enemies), Some(0));
    assert_eq!(find_enemy_by_name("OGRE", &enemies), Some(0));
    assert_eq!(find_enemy_by_name("statue", &enemies), Some(1));
    assert_eq!(find_enemy_by_name("dragon", &enemies), None);
}

#[test]
fn descriptions_are_looked_up_in_lower_case() {
    let d = Description::new("Golden Crown", "Heavy.");
    assert_eq!(d.input_name, "golden crown");
    assert_eq!(d.name, "Golden Crown");
    assert_eq!(d.description, "Heavy.");
    let e = Description::new_explicit("Crown", "Golden Crown", "Heavy.");
    assert_eq!(e.input_name, "Crown");
}

#[test]
fn items_are_spawned_with_their_components() {
    let mut world = two_rooms();
    create_item(&mut world, 0, ItemFlags { bits: LAMP }, 3, 4);
    create_item_by_name(&mut world, 0, "golden crown", 6, 7);
    assert_eq!(world.slots.len(), 2);
    let lamp = &world.slots[0];
    assert_eq!(lamp.position, Some(Position { x: 3, y: 4 }));
    assert_eq!(lamp.pickup_trigger.unwrap().item_to_pickup.bits, LAMP);
    assert_eq!(lamp.belongs_to_room.unwrap().room, 0);
    assert_eq!(lamp.description.as_ref().unwrap().input_name, "lamp");
    assert_eq!(lamp.renderable.unwrap().zorder, 1);
    assert_eq!(lamp.renderable.unwrap().glyph, 6);
    assert_eq!(lamp.marker.unwrap().id, 0);
    let crown = &world.slots[1];
    assert_eq!(crown.description.as_ref().unwrap().input_name, "golden crown");
    assert_eq!(crown.marker.unwrap().id, 1);
    assert_eq!(world.next_marker, 2);
}

#[test]
fn enemies_are_spawned_with_their_components() {
    let mut world = two_rooms();
    create_enemy(&mut world, 1, "ogre", 2, 3, None);
    create_enemy(&mut world, 1, "statue", 4, 5, Some(2));
    let ogre = &world.slots[0];
    assert_eq!(ogre.combat_stats.unwrap().health, 5);
    assert_eq!(ogre.combat_stats.unwrap().max_health, 5);
    assert_eq!(ogre.applies_damage.unwrap().damage, 1);
    assert!(ogre.ai_move_to_player.is_some());
    assert!(ogre.collider.is_some() && ogre.movement.is_some());
    assert_eq!(ogre.debug_name.as_ref().unwrap().text, "Ogre");
    let statue = &world.slots[1];
    assert_eq!(statue.combat_stats.unwrap().health, 2);
    assert_eq!(statue.combat_stats.unwrap().max_health, 9);
    assert!(statue.applies_damage.is_none() && statue.ai_move_to_player.is_none());
    assert_eq!(statue.description.as_ref().unwrap().input_name, "statue");
}

#[test]
fn tiles_and_exits_are_found() {
    let data = &two_rooms().rooms[0];
    assert!(is_tile_at(0, 0, &data.tiles));
    assert!(!is_tile_at(1, 0, &data.tiles));
    assert_eq!(
        find_exit_data(ExitDirection::Up, &data.exits),
        Some(ExitData { direction: ExitDirection::Up, to_room: 1 })
    );
    assert_eq!(find_exit_data(ExitDirection::West, &data.exits), None);
}

#[test]
fn room_entities_are_tiles_and_open_edges() {
    let mut world = two_rooms();
    let data = get_room_data(&world, 0);
    create_room_entities(&mut world, 0, &data);
    let entities = in_room(&world, 0);
    assert_eq!(entities.len(), 2 + 22);
    assert!(entities[0].collider.is_some());
    assert!(entities[0].exit_trigger.is_none());
    assert_eq!(entities[0].renderable.unwrap().glyph, 219);
    assert!(entities[1].collider.is_none());
    assert_eq!(entities[1].exit_trigger.unwrap().from_direction, ExitDirection::Up);
    assert_eq!(entities[1].exit_trigger.unwrap().to_room, 1);
    for (k, edge) in entities[2..].iter().enumerate() {
        assert_eq!(edge.position, Some(Position { x: k as i32 + 1, y: 18 }));
        assert_eq!(edge.exit_trigger.unwrap().from_direction, ExitDirection::South);
        assert!(edge.renderable.is_none());
    }
}

#[test]
fn an_edge_with_a_tile_gets_no_trigger() {
    let mut world = two_rooms();
    let data = get_room_data(&world, 1);
    create_room_entities(&mut world, 1, &data);
    let entities = in_room(&world, 1);
    assert_eq!(entities.len(), 1 + 22);
    assert!(entities[1..].iter().all(|e| e.position.unwrap().y == -1));
    assert!(entities[1..].iter().any(|e| e.position.unwrap().x == 3));
    let mut blocked = world_of(vec![room(
        vec![tile(3, 0, '\u{2588}', Collision::Enabled)],
        vec![
            ExitData { direction: ExitDirection::North, to_room: 0 },
            ExitData { direction: ExitDirection::West, to_room: 0 },
            ExitData { direction: ExitDirection::East, to_room: 0 },
        ],
    )]);
    let data = get_room_data(&blocked, 0);
    create_room_entities(&mut blocked, 0, &data);
    let entities = in_room(&blocked, 0);
    assert_eq!(entities.len(), 1 + 36 + 21);
    assert!(!entities.iter().any(|e| e.position == Some(Position { x: 3, y: -1 })));
    assert!(entities.iter().any(|e| e.position == Some(Position { x: -1, y: 0 })));
    assert!(entities.iter().any(|e| e.position == Some(Position { x: 24, y: 17 })));
    assert!(!entities.iter().any(|e| e.position == Some(Position { x: 0, y: -1 })));
}

#[test]
fn capture_keeps_items_descriptions_and_enemies_of_the_room() {
    let mut world = two_rooms();
    create_player_entity(&mut world);
    create_item_by_name(&mut world, 0, "lamp", 3, 4);
    create_description(&mut world, 0, "Window", "It is dusty.");
    create_enemy(&mut world, 0, "ogre", 8, 8, Some(3));
    create_item_by_name(&mut world, 1, "golden crown", 1, 1);
    assert!(capture_ready(&world, 0));
    update_dynamic_room(&mut world, 0);
    let overlay = &world.dynamic_rooms[0];
    assert_eq!(overlay.room, 0);
    assert_eq!(overlay.items.len(), 1);
    assert_eq!(overlay.items[0].item, "lamp");
    assert_eq!(overlay.items[0].position, DynamicPosition { x: 3, y: 4 });
    assert_eq!(overlay.descriptions.len(), 1);
    assert_eq!(overlay.descriptions[0].keyword, "window");
    assert_eq!(overlay.descriptions[0].text, "It is dusty.");
    assert_eq!(overlay.enemies.len(), 1);
    assert_eq!(overlay.enemies[0].name, "ogre");
    assert_eq!(overlay.enemies[0].health, Some(3));
    assert_eq!(overlay.enemies[0].position, DynamicPosition { x: 8, y: 8 });
    assert_eq!(world.dynamic_rooms[1].items.len(), 0);
}

#[test]
fn capture_leaves_out_enemies_that_do_not_live() {
    let mut world = two_rooms();
    create_enemy(&mut world, 0, "ogre", 1, 1, Some(0));
    create_enemy(&mut world, 0, "ogre", 2, 2, Some(-3));
    create_enemy(&mut world, 0, "ogre", 3, 3, Some(1));
    create_enemy(&mut world, 0, "ogre", 4, 4, Some(4));
    world.slots[3].dead = Some(castle_adventure::components::DeadTag {});
    update_dynamic_room(&mut world, 0);
    let enemies = &world.dynamic_rooms[0].enemies;
    assert_eq!(enemies.len(), 1);
    assert_eq!(enemies[0].position, DynamicPosition { x: 3, y: 3 });
    assert_eq!(enemies[0].health, Some(1));
}

#[test]
fn capturing_an_unchanged_room_twice_gives_the_same_overlay() {
    let mut world = two_rooms();
    create_item_by_name(&mut world, 0, "lamp", 3, 4);
    create_description(&mut world, 0, "window", "It is dusty.");
    create_enemy(&mut world, 0, "statue", 8, 8, None);
    update_dynamic_room(&mut world, 0);
    let first = format!("{:?}", world.dynamic_rooms[0]);
    update_dynamic_room(&mut world, 0);
    let second = format!("{:?}", world.dynamic_rooms[0]);
    assert_eq!(first, second);
}

#[test]
fn capture_needs_the_room_and_the_item_kinds_to_be_known() {
    let mut world = two_rooms();
    assert!(!capture_ready(&world, 2));
    assert!(!capture_ready(&world, -1));
    create_item_by_name(&mut world, 0, "lamp", 3, 4);
    world.items.remove(0);
    assert!(!capture_ready(&world, 0));
    assert!(capture_ready(&world, 1));
}

#[test]
fn replaying_an_overlay_makes_its_entities() {
    let mut world = two_rooms();
    world.dynamic_rooms[1] = DynamicRoomData {
        room: 1,
        items: vec![DynamicItemData {
            item: "lamp".to_string(),
            position: DynamicPosition { x: 2, y: 2 },
        }],
        descriptions: vec![DynamicDescriptionData {
            keyword: "door".to_string(),
            text: "It is shut.".to_string(),
        }],
        enemies: vec![DynamicEnemy {
            name: "ogre".to_string(),
            position: DynamicPosition { x: 9, y: 9 },
            health: None,
        }],
        static_override: None,
    };
    assert!(replay_ready(&world, 1));
    create_dynamic_room_entities(&mut world, 1);
    let entities = in_room(&world, 1);
    assert_eq!(entities.len(), 3);
    assert!(entities[0].pickup_trigger.is_some());
    assert_eq!(entities[1].description.as_ref().unwrap().description, "It is shut.");
    assert!(entities[1].position.is_none());
    assert_eq!(entities[2].combat_stats.unwrap().health, 5);
    assert!(entities.iter().all(|e| e.marker.is_some()));
}

#[test]
fn replay_needs_known_names() {
    let mut world = two_rooms();
    world.dynamic_rooms[0].items.push(DynamicItemData {
        item: "sword".to_string(),
        position: DynamicPosition { x: 2, y: 2 },
    });
    world.dynamic_rooms[1].enemies.push(DynamicEnemy {
        name: "dragon".to_string(),
        position: DynamicPosition { x: 2, y: 2 },
        health: None,
    });
    assert!(!replay_ready(&world, 0));
    assert!(!replay_ready(&world, 1));
    assert!(!replay_ready(&world, 5));
}

#[test]
fn leaving_and_entering_a_room_again_brings_back_what_was_captured() {
    let mut world = two_rooms();
    create_player_entity(&mut world);
    change_room(&mut world, 0, -1);
    world.items[1].name = "golden crown".to_string();
    create_item_by_name(&mut world, 0, "lamp", 3, 4);
    create_item_by_name(&mut world, 0, "golden crown", 6, 6);
    create_description(&mut world, 0, "Window", "It is dusty.");
    create_enemy(&mut world, 0, "ogre", 8, 8, None);
    create_enemy(&mut world, 0, "statue", 9, 9, Some(4));
    world.slots.iter_mut().for_each(|e| {
        if let Some(stats) = e.combat_stats.as_mut() {
            if e.player.is_none() && stats.max_health == 5 {
                stats.health = 2;
            }
        }
    });
    assert_eq!(try_change_room(&mut world, 1, 0), Ok(()));
    let captured = format!("{:?}", world.dynamic_rooms[0]);
    assert_eq!(world.dynamic_rooms[0].items.len(), 2);
    assert_eq!(world.dynamic_rooms[0].descriptions.len(), 1);
    assert_eq!(world.dynamic_rooms[0].enemies.len(), 2);
    assert_eq!(world.dynamic_rooms[0].enemies[0].health, Some(2));
    assert_eq!(in_room(&world, 0).len(), 0);
    assert_eq!(in_room(&world, 1).len(), 1 + 22);
    assert_eq!(world.slots.iter().filter(|e| e.alive && e.player.is_some()).count(), 1);
    assert_eq!(try_change_room(&mut world, 0, 1), Ok(()));
    assert_eq!(in_room(&world, 1).len(), 0);
    assert_eq!(in_room(&world, 0).len(), 2 + 22 + 5);
    update_dynamic_room(&mut world, 0);
    assert_eq!(format!("{:?}", world.dynamic_rooms[0]), captured);
    assert_eq!(try_change_room(&mut world, 1, 0), Ok(()));
    assert_eq!(try_change_room(&mut world, 0, 1), Ok(()));
    update_dynamic_room(&mut world, 0);
    assert_eq!(format!("{:?}", world.dynamic_rooms[0]), captured);
}

#[test]
fn an_item_that_its_stored_name_does_not_find_again_cannot_come_back() {
    let mut world = two_rooms();
    change_room(&mut world, 0, -1);
    create_item_by_name(&mut world, 0, "golden crown", 6, 6);
    assert_eq!(try_change_room(&mut world, 1, 0), Ok(()));
    assert_eq!(world.dynamic_rooms[0].items[0].item, "Golden Crown");
    assert_eq!(try_change_room(&mut world, 0, 1), Err(RoomChangeError::CannotEnter));
    assert_eq!(in_room(&world, 1).len(), 1 + 22);
}

#[test]
fn a_room_change_that_cannot_take_place_is_refused() {
    let mut world = two_rooms();
    assert_eq!(try_change_room(&mut world, 7, -1), Err(RoomChangeError::CannotEnter));
    assert_eq!(try_change_room(&mut world, -1, -1), Err(RoomChangeError::CannotEnter));
    assert_eq!(try_change_room(&mut world, 0, 9), Err(RoomChangeError::CannotCapture));
    assert_eq!(world.slots.len(), 0);
    assert_eq!(try_change_room(&mut world, 0, -1), Ok(()));
    assert_eq!(in_room(&world, 0).len(), 2 + 22);
}

#[test]
fn a_redirected_room_shows_the_record_of_another() {
    let mut world = two_rooms();
    assert!(has_room_data(&world, 1));
    assert!(!has_room_data(&world, 2));
    add_room_redirection(&mut world, 2, 1);
    assert!(has_room_data(&world, 2));
    assert_eq!(get_room_data(&world, 2).tiles.len(), 1);
    add_room_redirection(&mut world, 2, 0);
    assert_eq!(get_room_data(&world, 2).tiles.len(), 2);
    add_room_redirection(&mut world, 0, 9);
    assert!(!has_room_data(&world, 0));
}

#[test]
fn arriving_from_the_north_puts_the_player_at_the_southern_edge() {
    let mut world = two_rooms();
    create_player_entity(&mut world);
    world.current_room = castle_adventure::game::CurrentRoom(1);
    change_room(&mut world, 1, -1);
    let mut state = State::new(world);
    state.world.slots[0].position = Some(Position { x: 7, y: 0 });
    assert_eq!(state.change_room(0, ExitDirection::North), TickOutcome::Completed);
    assert_eq!(state.world.current_room.get_room_index(), 0);
    assert_eq!(state.world.slots[0].position, Some(Position { x: 7, y: 17 }));
    assert_eq!(in_room(&state.world, 0).len(), 2 + 22);
}

#[test]
fn arrival_edges_follow_the_direction_of_travel() {
    for (direction, expected) in [
        (ExitDirection::North, (12, 17)),
        (ExitDirection::South, (12, 0)),
        (ExitDirection::East, (0, 9)),
        (ExitDirection::West, (23, 9)),
        (ExitDirection::Up, (12, 9)),
        (ExitDirection::Down, (12, 9)),
        (ExitDirection::Invalid, (12, 9)),
    ] {
        let mut world = two_rooms();
        create_player_entity(&mut world);
        let mut state = State::new(world);
        assert_eq!(state.change_room(1, direction), TickOutcome::Completed);
        let p = state.world.slots[0].position.unwrap();
        assert_eq!((p.x, p.y), expected);
    }
}

#[test]
fn travel_to_an_unknown_room_fails_and_keeps_the_current_room() {
    let mut world = two_rooms();
    create_player_entity(&mut world);
    let mut state = State::new(world);
    assert_eq!(
        state.change_room(5, ExitDirection::North),
        TickOutcome::RoomChangeFailed(RoomChangeError::CannotEnter)
    );
    assert_eq!(state.world.current_room.get_room_index(), 0);
    assert_eq!(state.world.slots[0].position, Some(Position { x: 12, y: 9 }));
}

#[test]
fn the_overlay_table_has_a_place_for_every_room() {
    let mut world = World::new();
    let mut third = DynamicRoomData::empty(3);
    third.descriptions.push(DynamicDescriptionData {
        keyword: "door".to_string(),
        text: "shut".to_string(),
    });
    let mut again = DynamicRoomData::empty(3);
    again.room = 3;
    let loaded = vec![DynamicRoomData::empty(90), third, again];
    assert_eq!(find_room(3, &loaded), Some(1));
    assert_eq!(find_room(4, &loaded), None);
    load_dynamic_rooms(&mut world, &loaded);
    assert_eq!(world.dynamic_rooms.len(), 83);
    for (index, overlay) in world.dynamic_rooms.iter().enumerate() {
        assert_eq!(overlay.room, index as i32);
        assert_eq!(overlay.descriptions.len(), if index == 3 { 1 } else { 0 });
    }
}

#[test]
fn the_room_table_is_loaded_from_map_data() {
    let mut world = World::new();
    let mut data = vec![32u8; 83 * 575];
    data[575 * 82] = 178;
    data[575 + 557] = b'N';
    data[575 + 558] = b'7';
    assert!(decode_rooms(&data, 83).is_ok());
    load_rooms(&mut world, &data);
    assert_eq!(world.rooms.len(), 83);
    assert_eq!(world.rooms[82].tiles.len(), 1);
    assert_eq!(world.rooms[1].exits, vec![ExitData { direction: ExitDirection::North, to_room: 6 }]);
    assert_eq!(decode_rooms(&data[..83 * 575 - 1], 83).err(), Some(MapError::Truncated));
    data[432] = 0xFF;
    assert_eq!(decode_rooms(&data, 83).err(), Some(MapError::InvalidDescription));
}

#[test]
fn a_geometry_override_takes_the_place_of_the_room_record() {
    let mut world = two_rooms();
    let mut tiles = vec![32u8; 432];
    tiles[24] = 219;
    world.dynamic_rooms[1].static_override = Some(StaticRoomOverride {
        tiles,
        description: vec!["made by hand".to_string()],
        exits: "E1W2".to_string(),
    });
    assert_eq!(apply_room_overrides(&mut world), Ok(()));
    assert_eq!(world.rooms[0].tiles.len(), 2);
    assert_eq!(world.rooms[1].tiles.len(), 1);
    assert_eq!((world.rooms[1].tiles[0].x, world.rooms[1].tiles[0].y), (0, 1));
    assert_eq!(world.rooms[1].description, vec!["made by hand".to_string()]);
    assert_eq!(
        world.rooms[1].exits,
        vec![
            ExitData { direction: ExitDirection::East, to_room: 0 },
            ExitData { direction: ExitDirection::West, to_room: 1 },
        ]
    );
    update_dynamic_room(&mut world, 1);
    assert!(world.dynamic_rooms[1].static_override.is_some());
}

#[test]
fn a_geometry_override_of_the_wrong_size_is_refused() {
    let mut world = two_rooms();
    world.dynamic_rooms[0].static_override = Some(StaticRoomOverride {
        tiles: vec![32u8; 431],
        description: vec![],
        exits: "".to_string(),
    });
    assert_eq!(apply_room_overrides(&mut world), Err(MapError::Truncated));
    assert_eq!(world.rooms[0].tiles.len(), 2);
    world.dynamic_rooms[0].static_override = Some(StaticRoomOverride {
        tiles: vec![32u8; 432],
        description: vec![],
        exits: "N99999999999".to_string(),
    });
    assert_eq!(apply_room_overrides(&mut world), Err(MapError::ExitOutOfRange));
}

#[test]
fn the_key_enum_tells_keys_apart() {
    assert_ne!(Key::A, Key::B);
}
