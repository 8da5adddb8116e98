use castle_adventure::components::{Description, Position};
use castle_adventure::game::{create_player_entity, DynamicMarker};
use castle_adventure::input::Key;
use castle_adventure::items::{create_item_by_name, ItemData, ItemFlags, LAMP};
use castle_adventure::room::{create_description, DynamicRoomData, RoomData};
use castle_adventure::session::{restore, snapshot, SavedEntity};
use castle_adventure::state::TickOutcome;
use castle_adventure::store::EntityRecord;
use castle_adventure::world::{SessionRequest, World};
use castle_adventure::State;

fn world() -> World {
    let mut world = World::new();
    world.rooms = vec![RoomData::new()];
    world.dynamic_rooms = vec![DynamicRoomData::empty(0)];
    world.items = vec![ItemData {
        flag: ItemFlags { bits: LAMP },
        name: "Lamp".to_string(),
        input_name: Some("lamp".to_string()),
        description: "It's bright!".to_string(),
    }];
    create_player_entity(&mut world);
    create_item_by_name(&mut world, 0, "lamp", 3, 4);
    world.create_entity(EntityRecord::new());
    create_description(&mut world, 0, "window", "It is dusty.");
    world
}

fn shown(saved: &Vec<SavedEntity>) -> Vec<String> {
    saved
        .iter()
        .map(|e| {
            format!(
                "{} {:?} {:?} {:?} {:?}",
                e.marker.id,
                e.position,
                e.pickup_trigger.map(|p| p.item_to_pickup.bits),
                e.belongs_to_room.map(|b| b.room),
                e.description.as_ref().map(|d| d.name.clone()),
            )
        })
        .collect()
}

#[test]
fn the_saved_session_holds_the_entities_with_a_stable_identity() {
    let world = world();
    let saved = snapshot(&world);
    assert_eq!(
        shown(&saved),
        vec![
            "0 Some(Position { x: 3, y: 4 }) Some(1) Some(0) Some(\"Lamp\")",
            "1 None None Some(0) Some(\"window\")",
        ]
    );
    assert_eq!(world.find_all_marked().len(), 2);
    assert_eq!(saved[0].renderable.unwrap().glyph, 6);
}

#[test]
fn a_restored_session_is_saved_as_it_was() {
    let source = world();
    let saved = snapshot(&source);
    let mut target = World::new();
    create_player_entity(&mut target);
    target.create_marked_entity(EntityRecord::new());
    restore(&mut target, &saved);
    assert_eq!(shown(&snapshot(&target)), shown(&saved));
    assert_eq!(target.slots.iter().filter(|e| e.alive).count(), 3);
    assert!(target.slots[0].player.is_some());
    assert_eq!(target.next_marker, 2);
    let lamp = target.find_marked(0).unwrap();
    assert_eq!(target.slots[lamp.index].position, Some(Position { x: 3, y: 4 }));
    restore(&mut target, &saved);
    assert_eq!(shown(&snapshot(&target)), shown(&saved));
    assert_eq!(target.slots.iter().filter(|e| e.alive).count(), 3);
}

#[test]
fn restoring_raises_the_next_stable_identity() {
    let mut target = World::new();
    target.next_marker = 7;
    let saved = vec![
        SavedEntity {
            marker: DynamicMarker { id: 40 },
            position: None,
            player: None,
            ai_move_to_player: None,
            renderable: None,
            pickup_trigger: None,
            belongs_to_room: None,
            description: Some(Description::new("a", "b")),
        },
        SavedEntity {
            marker: DynamicMarker { id: 3 },
            position: None,
            player: None,
            ai_move_to_player: None,
            renderable: None,
            pickup_trigger: None,
            belongs_to_room: None,
            description: None,
        },
    ];
    restore(&mut target, &saved);
    assert_eq!(target.next_marker, 41);
    assert_eq!(target.slots[0].marker, Some(DynamicMarker { id: 40 }));
    let mut last = World::new();
    let end = vec![SavedEntity { marker: DynamicMarker { id: u64::MAX }, ..saved_blank() }];
    restore(&mut last, &end);
    assert_eq!(last.next_marker, u64::MAX);
}

fn saved_blank() -> SavedEntity {
    SavedEntity {
        marker: DynamicMarker { id: 0 },
        position: None,
        player: None,
        ai_move_to_player: None,
        renderable: None,
        pickup_trigger: None,
        belongs_to_room: None,
        description: None,
    }
}

#[test]
fn saving_and_loading_are_asked_of_the_caller() {
    let mut state = State::new(world());
    for key in [Key::D, Key::S, Key::A, Key::V, Key::E] {
        assert_eq!(state.run_systems(Some(key)), TickOutcome::Completed);
    }
    assert!(state.world.session_requests.is_empty());
    assert_eq!(state.run_systems(Some(Key::Return)), TickOutcome::Completed);
    assert_eq!(state.world.session_requests, vec![SessionRequest::Save]);
    for key in [Key::D, Key::L, Key::O, Key::A, Key::D, Key::Return] {
        assert_eq!(state.run_systems(Some(key)), TickOutcome::Completed);
    }
    assert_eq!(
        state.world.session_requests,
        vec![SessionRequest::Save, SessionRequest::Load]
    );
    state.debug_save();
    state.debug_load();
    assert_eq!(state.world.session_requests.len(), 4);
}
