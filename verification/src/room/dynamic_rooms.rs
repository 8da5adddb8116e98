//! The dynamic overlay of a room: what was lying and living in it when it
//! was last left.

use crate::components::{Description, DescriptionView};
use crate::enemies::{create_enemy, enemy_entity, enemy_index_by_name, find_enemy_by_name, has_enemy_named, EnemyView};
use crate::items::{
    create_item_by_name, find_item, find_item_by_name, get_item_name, has_item, has_item_named,
    item_entity, item_index_by_name, item_name, ItemView,
};
use crate::room::map_file::{decode_tiles, parse_exits, parse_exits_spec, tiles_of, MapError};
use crate::room::{BelongsToRoom, RoomData, RoomView};
use crate::store::{gather, views_of, EntityRecord, EntityView};
use crate::text::ascii_lower;
use crate::world::{World, WorldView};
use vstd::prelude::*;
use vstd::utf8::encode_utf8;

verus! {

/// A position of the overlay.
#[derive(Debug, Copy, Clone, PartialEq, Eq, Structural)]
pub struct DynamicPosition {
    pub x: i32,
    pub y: i32,
}

/// An item that lies in a room: its name in the catalogue, and its place.
#[derive(Debug)]
pub struct DynamicItemData {
    pub item: String,
    pub position: DynamicPosition,
}

/// What a [`DynamicItemData`] holds.
pub struct DynamicItemView {
    pub item: Seq<char>,
    pub position: DynamicPosition,
}

impl View for DynamicItemData {
    type V = DynamicItemView;

    open spec fn view(&self) -> DynamicItemView {
        DynamicItemView { item: self.item@, position: self.position }
    }
}

impl Clone for DynamicItemData {
    fn clone(&self) -> (r: Self)
        ensures
            r@ == self@,
    {
        DynamicItemData { item: self.item.clone(), position: self.position }
    }
}

/// A description that overrides what a word of the room's text says.
#[derive(Debug)]
pub struct DynamicDescriptionData {
    pub keyword: String,
    pub text: String,
}

/// What a [`DynamicDescriptionData`] holds.
pub struct DynamicDescriptionView {
    pub keyword: Seq<char>,
    pub text: Seq<char>,
}

impl View for DynamicDescriptionData {
    type V = DynamicDescriptionView;

    open spec fn view(&self) -> DynamicDescriptionView {
        DynamicDescriptionView { keyword: self.keyword@, text: self.text@ }
    }
}

impl Clone for DynamicDescriptionData {
    fn clone(&self) -> (r: Self)
        ensures
            r@ == self@,
    {
        DynamicDescriptionData { keyword: self.keyword.clone(), text: self.text.clone() }
    }
}

/// An enemy that lives in a room: its name in the catalogue, its place, and
/// its health where that differs from the catalogue.
#[derive(Debug)]
pub struct DynamicEnemy {
    pub name: String,
    pub position: DynamicPosition,
    pub health: Option<i32>,
}

/// What a [`DynamicEnemy`] holds.
pub struct DynamicEnemyView {
    pub name: Seq<char>,
    pub position: DynamicPosition,
    pub health: Option<i32>,
}

impl View for DynamicEnemy {
    type V = DynamicEnemyView;

    open spec fn view(&self) -> DynamicEnemyView {
        DynamicEnemyView { name: self.name@, position: self.position, health: self.health }
    }
}

impl Clone for DynamicEnemy {
    fn clone(&self) -> (r: Self)
        ensures
            r@ == self@,
    {
        DynamicEnemy { name: self.name.clone(), position: self.position, health: self.health }
    }
}

/// A whole room written as overlay data: the tile codes of its grid, its
/// description lines and its exit string. Where a room has one, it takes the
/// place of the room's record of the map file.
#[derive(Debug)]
pub struct StaticRoomOverride {
    pub tiles: Vec<u8>,
    pub description: Vec<String>,
    pub exits: String,
}

/// What a [`StaticRoomOverride`] holds.
pub struct StaticRoomOverrideView {
    pub tiles: Seq<u8>,
    pub description: Seq<Seq<char>>,
    pub exits: Seq<char>,
}

impl View for StaticRoomOverride {
    type V = StaticRoomOverrideView;

    open spec fn view(&self) -> StaticRoomOverrideView {
        StaticRoomOverrideView {
            tiles: self.tiles@,
            description: self.description@.map_values(|s: String| s@),
            exits: self.exits@,
        }
    }
}

/// The overlay of one room.
#[derive(Debug)]
pub struct DynamicRoomData {
    pub room: i32,
    pub items: Vec<DynamicItemData>,
    pub descriptions: Vec<DynamicDescriptionData>,
    pub enemies: Vec<DynamicEnemy>,
    pub static_override: Option<StaticRoomOverride>,
}

/// What a [`DynamicRoomData`] holds.
pub struct DynamicRoomView {
    pub room: i32,
    pub items: Seq<DynamicItemView>,
    pub descriptions: Seq<DynamicDescriptionView>,
    pub enemies: Seq<DynamicEnemyView>,
    pub static_override: Option<StaticRoomOverrideView>,
}

impl View for DynamicRoomData {
    type V = DynamicRoomView;

    open spec fn view(&self) -> DynamicRoomView {
        DynamicRoomView {
            room: self.room,
            items: views_of(self.items@),
            descriptions: views_of(self.descriptions@),
            enemies: views_of(self.enemies@),
            static_override: match self.static_override {
                Some(o) => Some(o@),
                None => None,
            },
        }
    }
}

impl Clone for StaticRoomOverride {
    fn clone(&self) -> (r: Self)
        ensures
            r@ == self@,
    {
        let mut tiles: Vec<u8> = Vec::new();
        let mut t: usize = 0;
        while t < self.tiles.len()
            invariant
                t <= self.tiles.len(),
                tiles@ == self.tiles@.take(t as int),
            decreases self.tiles.len() - t,
        {
            tiles.push(self.tiles[t]);
            assert(self.tiles@.take(t + 1) =~= self.tiles@.take(t as int).push(self.tiles@[t as int]));
            t += 1;
        }
        assert(self.tiles@.take(t as int) =~= self.tiles@);
        let mut description: Vec<String> = Vec::new();
        let mut i: usize = 0;
        while i < self.description.len()
            invariant
                i <= self.description.len(),
                description@ == self.description@.take(i as int),
            decreases self.description.len() - i,
        {
            description.push(self.description[i].clone());
            assert(self.description@.take(i + 1) =~= self.description@.take(i as int).push(
                self.description@[i as int],
            ));
            i += 1;
        }
        assert(self.description@.take(i as int) =~= self.description@);
        StaticRoomOverride { tiles, description, exits: self.exits.clone() }
    }
}

impl Clone for DynamicRoomData {
    fn clone(&self) -> (r: Self)
        ensures
            r@ == self@,
    {
        let mut items: Vec<DynamicItemData> = Vec::new();
        let mut i: usize = 0;
        while i < self.items.len()
            invariant
                i <= self.items.len(),
                views_of(items@) == views_of(self.items@).take(i as int),
            decreases self.items.len() - i,
        {
            let item = self.items[i].clone();
            assert(views_of(items@.push(item)) =~= views_of(items@).push(item@));
            assert(views_of(self.items@).take(i + 1) =~= views_of(self.items@).take(i as int).push(
                self.items@[i as int]@,
            ));
            items.push(item);
            i += 1;
        }
        assert(views_of(self.items@).take(i as int) =~= views_of(self.items@));
        let mut descriptions: Vec<DynamicDescriptionData> = Vec::new();
        let mut j: usize = 0;
        while j < self.descriptions.len()
            invariant
                j <= self.descriptions.len(),
                views_of(descriptions@) == views_of(self.descriptions@).take(j as int),
            decreases self.descriptions.len() - j,
        {
            let d = self.descriptions[j].clone();
            assert(views_of(descriptions@.push(d)) =~= views_of(descriptions@).push(d@));
            assert(views_of(self.descriptions@).take(j + 1) =~= views_of(self.descriptions@).take(
                j as int,
            ).push(self.descriptions@[j as int]@));
            descriptions.push(d);
            j += 1;
        }
        assert(views_of(self.descriptions@).take(j as int) =~= views_of(self.descriptions@));
        let mut enemies: Vec<DynamicEnemy> = Vec::new();
        let mut k: usize = 0;
        while k < self.enemies.len()
            invariant
                k <= self.enemies.len(),
                views_of(enemies@) == views_of(self.enemies@).take(k as int),
            decreases self.enemies.len() - k,
        {
            let e = self.enemies[k].clone();
            assert(views_of(enemies@.push(e)) =~= views_of(enemies@).push(e@));
            assert(views_of(self.enemies@).take(k + 1) =~= views_of(self.enemies@).take(k as int).push(
                self.enemies@[k as int]@,
            ));
            enemies.push(e);
            k += 1;
        }
        assert(views_of(self.enemies@).take(k as int) =~= views_of(self.enemies@));
        let static_override = match &self.static_override {
            Some(o) => Some(o.clone()),
            None => None,
        };
        DynamicRoomData { room: self.room, items, descriptions, enemies, static_override }
    }
}

/// Something that an overlay event may do.
#[derive(Debug)]
pub enum DynamicActionData {
    GiveItem { item: String },
    AddFlag { flag: String },
    UpdateMap { x: i32, y: i32 },
}

impl DynamicRoomView {
    /// The overlay of a room in which nothing lies and nothing lives.
    pub open spec fn empty(room: i32) -> DynamicRoomView {
        DynamicRoomView {
            room,
            items: Seq::empty(),
            descriptions: Seq::empty(),
            enemies: Seq::empty(),
            static_override: None,
        }
    }
}

impl DynamicRoomData {
    /// The overlay of a room in which nothing lies and nothing lives.
    pub fn empty(room: i32) -> (r: Self)
        ensures
            r@ == DynamicRoomView::empty(room),
    {
        let r = Self {
            room,
            items: Vec::new(),
            descriptions: Vec::new(),
            enemies: Vec::new(),
            static_override: None,
        };
        assert(r@.items =~= Seq::empty());
        assert(r@.descriptions =~= Seq::empty());
        assert(r@.enemies =~= Seq::empty());
        r
    }
}

/// Tells whether a slot holds an item that the overlay of the room keeps:
/// an entity of the room that is picked up by walking onto it, stands
/// somewhere, and has a stable identity.
pub open spec fn is_kept_item(e: EntityView, room: i32) -> bool {
    e.in_room(room) && e.pickup_trigger is Some && e.position is Some && e.marker is Some
}

/// Tells whether a slot holds a description override that the overlay of
/// the room keeps: an entity of the room with a description and a stable
/// identity that is neither an item nor something that can be hurt.
pub open spec fn is_kept_description(e: EntityView, room: i32) -> bool {
    e.in_room(room) && e.description is Some && e.marker is Some && e.pickup_trigger is None
        && e.combat_stats is None
}

/// Tells whether a slot holds an enemy that the overlay of the room keeps:
/// an entity of the room that can be hurt and lives, that is, has health
/// left and is not tagged dead, has a description and stands somewhere.
pub open spec fn is_kept_enemy(e: EntityView, room: i32) -> bool {
    e.in_room(room) && e.combat_stats is Some && e.combat_stats->0.health > 0
        && e.description is Some && e.position is Some && e.dead is None
}

/// What the overlay keeps of an item: the stable name of its kind, and its
/// place.
pub open spec fn kept_item(items: Seq<ItemView>, e: EntityView) -> DynamicItemView {
    DynamicItemView {
        item: item_name(items, e.pickup_trigger->0.item_to_pickup),
        position: DynamicPosition { x: e.position->0.x, y: e.position->0.y },
    }
}

/// What the overlay keeps of a description override: the name it is looked
/// up by, and its text.
pub open spec fn kept_description(e: EntityView) -> DynamicDescriptionView {
    DynamicDescriptionView { keyword: e.description->0.input_name, text: e.description->0.description }
}

/// What the overlay keeps of an enemy: the name it is looked up by, its
/// place, and its health.
pub open spec fn kept_enemy(e: EntityView) -> DynamicEnemyView {
    DynamicEnemyView {
        name: e.description->0.input_name,
        position: DynamicPosition { x: e.position->0.x, y: e.position->0.y },
        health: Some(e.combat_stats->0.health),
    }
}

/// The test for the items that the overlay of a room keeps.
pub open spec fn keeps_item(room: i32) -> spec_fn(EntityView) -> bool {
    |e: EntityView| is_kept_item(e, room)
}

/// What the overlay keeps of an item, given the catalogue.
pub open spec fn item_kept(items: Seq<ItemView>) -> spec_fn(EntityView) -> DynamicItemView {
    |e: EntityView| kept_item(items, e)
}

/// The test for the description overrides that the overlay of a room
/// keeps.
pub open spec fn keeps_description(room: i32) -> spec_fn(EntityView) -> bool {
    |e: EntityView| is_kept_description(e, room)
}

/// What the overlay keeps of a description override.
pub open spec fn description_kept() -> spec_fn(EntityView) -> DynamicDescriptionView {
    |e: EntityView| kept_description(e)
}

/// The test for the enemies that the overlay of a room keeps.
pub open spec fn keeps_enemy(room: i32) -> spec_fn(EntityView) -> bool {
    |e: EntityView| is_kept_enemy(e, room)
}

/// What the overlay keeps of an enemy.
pub open spec fn enemy_kept() -> spec_fn(EntityView) -> DynamicEnemyView {
    |e: EntityView| kept_enemy(e)
}

/// The items that the overlay keeps of the first `n` slots, in the order of
/// the slots.
pub open spec fn captured_items(
    entities: Seq<EntityView>,
    items: Seq<ItemView>,
    room: i32,
    n: int,
) -> Seq<DynamicItemView> {
    gather(entities, keeps_item(room), item_kept(items), n)
}

/// The description overrides that the overlay keeps of the first `n`
/// slots, in the order of the slots.
pub open spec fn captured_descriptions(entities: Seq<EntityView>, room: i32, n: int) -> Seq<
    DynamicDescriptionView,
> {
    gather(entities, keeps_description(room), description_kept(), n)
}

/// The enemies that the overlay keeps of the first `n` slots, in the order
/// of the slots.
pub open spec fn captured_enemies(entities: Seq<EntityView>, room: i32, n: int) -> Seq<
    DynamicEnemyView,
> {
    gather(entities, keeps_enemy(room), enemy_kept(), n)
}

/// The overlay that a room has when it is left now: its items, description
/// overrides and enemies as they are, and the geometry override that the
/// room had.
pub open spec fn capture(w: WorldView, room: i32) -> DynamicRoomView {
    DynamicRoomView {
        room,
        items: captured_items(w.entities, w.items, room, w.entities.len() as int),
        descriptions: captured_descriptions(w.entities, room, w.entities.len() as int),
        enemies: captured_enemies(w.entities, room, w.entities.len() as int),
        static_override: w.dynamic_rooms[room as int].static_override,
    }
}

/// Tells whether the overlay of a room can be captured: the room has a
/// place in the overlay table, and the kind of every item to keep is in the
/// catalogue.
pub open spec fn can_capture(w: WorldView, room: i32) -> bool {
    &&& 0 <= room < w.dynamic_rooms.len()
    &&& forall|i: int|
        0 <= i < w.entities.len() && is_kept_item(#[trigger] w.entities[i], room) ==> has_item(
            w.items,
            w.entities[i].pickup_trigger->0.item_to_pickup,
        )
}

/// The world after the overlay of a room has been captured: the room's
/// place in the overlay table holds the new overlay.
pub open spec fn with_capture(w: WorldView, room: i32) -> WorldView {
    WorldView { dynamic_rooms: w.dynamic_rooms.update(room as int, capture(w, room)), ..w }
}

/// Tells whether [`update_dynamic_room`] may be called for the room.
pub fn capture_ready(world: &World, room: i32) -> (r: bool)
    ensures
        r == can_capture(world@, room),
{
    if room < 0 || room as usize >= world.dynamic_rooms.len() {
        return false;
    }
    let mut i: usize = 0;
    while i < world.slots.len()
        invariant
            i <= world.slots.len(),
            forall|k: int|
                0 <= k < i && is_kept_item(#[trigger] world@.entities[k], room) ==> has_item(
                    world@.items,
                    world@.entities[k].pickup_trigger->0.item_to_pickup,
                ),
        decreases world.slots.len() - i,
    {
        let slot = &world.slots[i];
        if slot.alive && slot.position.is_some() && slot.marker.is_some() {
            match (slot.belongs_to_room, slot.pickup_trigger) {
                (Some(owner), Some(pickup)) => {
                    if owner.room == room && find_item(pickup.item_to_pickup, &world.items).is_none() {
                        assert(is_kept_item(world@.entities[i as int], room));
                        return false;
                    }
                },
                _ => {},
            }
        }
        i += 1;
    }
    true
}

/// Captures the overlay of a room: the items, description overrides and
/// enemies of the room, as they are now, replace what the overlay table
/// held for the room.
pub fn update_dynamic_room(world: &mut World, room: i32)
    requires
        can_capture(old(world)@, room),
    ensures
        final(world)@ == with_capture(old(world)@, room),
{
    let ghost w = world@;
    let n = world.slots.len();
    let mut items: Vec<DynamicItemData> = Vec::new();
    let mut i: usize = 0;
    while i < n
        invariant
            i <= n,
            n == world.slots@.len(),
            world@ == w,
            can_capture(w, room),
            views_of(items@) == captured_items(w.entities, w.items, room, i as int),
        decreases n - i,
    {
        let ghost e = w.entities[i as int];
        let slot = &world.slots[i];
        if slot.alive && slot.marker.is_some() {
            match (slot.belongs_to_room, slot.pickup_trigger, slot.position) {
                (Some(owner), Some(pickup), Some(pos)) => {
                    if owner.room == room {
                        assert(is_kept_item(e, room));
                        let item = DynamicItemData {
                            item: get_item_name(pickup.item_to_pickup, world),
                            position: DynamicPosition { x: pos.x, y: pos.y },
                        };
                        assert(views_of(items@.push(item)) =~= views_of(items@).push(item@));
                        items.push(item);
                    }
                },
                _ => {},
            }
        }
        i += 1;
    }
    let mut descriptions: Vec<DynamicDescriptionData> = Vec::new();
    let mut j: usize = 0;
    while j < n
        invariant
            j <= n,
            n == world.slots@.len(),
            world@ == w,
            views_of(descriptions@) == captured_descriptions(w.entities, room, j as int),
        decreases n - j,
    {
        let slot = &world.slots[j];
        if slot.alive && slot.marker.is_some() && slot.pickup_trigger.is_none()
            && slot.combat_stats.is_none() {
            match (slot.belongs_to_room, &slot.description) {
                (Some(owner), Some(desc)) => {
                    if owner.room == room {
                        let d = DynamicDescriptionData {
                            keyword: desc.input_name.clone(),
                            text: desc.description.clone(),
                        };
                        assert(views_of(descriptions@.push(d)) =~= views_of(descriptions@).push(d@));
                        descriptions.push(d);
                    }
                },
                _ => {},
            }
        }
        j += 1;
    }
    let mut enemies: Vec<DynamicEnemy> = Vec::new();
    let mut k: usize = 0;
    while k < n
        invariant
            k <= n,
            n == world.slots@.len(),
            world@ == w,
            views_of(enemies@) == captured_enemies(w.entities, room, k as int),
        decreases n - k,
    {
        let slot = &world.slots[k];
        if slot.alive && slot.dead.is_none() {
            match (slot.belongs_to_room, slot.combat_stats, &slot.description, slot.position) {
                (Some(owner), Some(combat_stat), Some(description), Some(position)) => {
                    if owner.room == room && combat_stat.health > 0 {
                        let e = DynamicEnemy {
                            name: description.input_name.clone(),
                            health: Some(combat_stat.health),
                            position: DynamicPosition { x: position.x, y: position.y },
                        };
                        assert(views_of(enemies@.push(e)) =~= views_of(enemies@).push(e@));
                        enemies.push(e);
                    }
                },
                _ => {},
            }
        }
        k += 1;
    }
    let ghost before = views_of(world.dynamic_rooms@);
    let index = room as usize;
    world.dynamic_rooms[index].room = room;
    world.dynamic_rooms[index].items = items;
    world.dynamic_rooms[index].descriptions = descriptions;
    world.dynamic_rooms[index].enemies = enemies;
    assert(views_of(world.dynamic_rooms@) =~= before.update(room as int, capture(w, room)));
}

/// The entity that a description override is in a room: it belongs to the
/// room and carries the description, looked up by the keyword in lower
/// case.
pub open spec fn description_entity(room: i32, keyword: Seq<char>, text: Seq<char>) -> EntityView {
    EntityView {
        belongs_to_room: Some(BelongsToRoom { room }),
        description: Some(
            DescriptionView { input_name: ascii_lower(keyword), name: keyword, description: text },
        ),
        ..EntityView::vacant(0)
    }
}

/// Puts a description override into a room.
pub fn create_description(world: &mut World, room: i32, word: &str, description: &str)
    ensures
        final(world)@ == old(world)@.spawn_marked(description_entity(room, word@, description@)),
{
    let mut record = EntityRecord::new();
    record.belongs_to_room = Some(BelongsToRoom { room });
    record.description = Some(Description::new(word, description));
    world.create_marked_entity(record);
}

/// The world with the first `n` items of an overlay put into the room.
pub open spec fn with_items(
    w: WorldView,
    catalogue: Seq<ItemView>,
    room: i32,
    items: Seq<DynamicItemView>,
    n: int,
) -> WorldView
    decreases n,
{
    if n <= 0 {
        w
    } else {
        let item = items[n - 1];
        with_items(w, catalogue, room, items, n - 1).spawn_marked(
            item_entity(
                catalogue[item_index_by_name(catalogue, item.item, 0)],
                room,
                item.position.x,
                item.position.y,
            ),
        )
    }
}

/// The world with the first `n` description overrides of an overlay put
/// into the room.
pub open spec fn with_descriptions(
    w: WorldView,
    room: i32,
    descriptions: Seq<DynamicDescriptionView>,
    n: int,
) -> WorldView
    decreases n,
{
    if n <= 0 {
        w
    } else {
        with_descriptions(w, room, descriptions, n - 1).spawn_marked(
            description_entity(room, descriptions[n - 1].keyword, descriptions[n - 1].text),
        )
    }
}

/// The world with the first `n` enemies of an overlay put into the room.
pub open spec fn with_enemies(
    w: WorldView,
    catalogue: Seq<EnemyView>,
    room: i32,
    enemies: Seq<DynamicEnemyView>,
    n: int,
) -> WorldView
    decreases n,
{
    if n <= 0 {
        w
    } else {
        let enemy = enemies[n - 1];
        with_enemies(w, catalogue, room, enemies, n - 1).spawn_marked(
            enemy_entity(
                catalogue[enemy_index_by_name(catalogue, enemy.name, 0)],
                room,
                enemy.position.x,
                enemy.position.y,
                enemy.health,
            ),
        )
    }
}

/// The world with an overlay replayed into the room: its items, then its
/// description overrides, then its enemies, each in the order of the
/// overlay.
pub open spec fn with_overlay(w: WorldView, room: i32, overlay: DynamicRoomView) -> WorldView {
    with_enemies(
        with_descriptions(
            with_items(w, w.items, room, overlay.items, overlay.items.len() as int),
            room,
            overlay.descriptions,
            overlay.descriptions.len() as int,
        ),
        w.enemies,
        room,
        overlay.enemies,
        overlay.enemies.len() as int,
    )
}

/// Tells whether an overlay can be replayed: every item and every enemy of
/// it goes by a name of the catalogues.
pub open spec fn overlay_known(w: WorldView, overlay: DynamicRoomView) -> bool {
    &&& forall|i: int|
        0 <= i < overlay.items.len() ==> has_item_named(w.items, (#[trigger] overlay.items[i]).item)
    &&& forall|i: int|
        0 <= i < overlay.enemies.len() ==> has_enemy_named(
            w.enemies,
            (#[trigger] overlay.enemies[i]).name,
        )
}

/// Tells whether the overlay of a room can be replayed: the room has a
/// place in the overlay table, and every item and every enemy of its
/// overlay goes by a name of the catalogues.
pub open spec fn can_replay(w: WorldView, room: i32) -> bool {
    &&& 0 <= room < w.dynamic_rooms.len()
    &&& overlay_known(w, w.dynamic_rooms[room as int])
}

/// The world with the overlay of a room replayed into the room.
pub open spec fn with_replay(w: WorldView, room: i32) -> WorldView {
    with_overlay(w, room, w.dynamic_rooms[room as int])
}

/// Tells whether [`create_dynamic_room_entities`] may be called for the
/// room.
pub fn replay_ready(world: &World, room: i32) -> (r: bool)
    ensures
        r == can_replay(world@, room),
{
    if room < 0 || room as usize >= world.dynamic_rooms.len() {
        return false;
    }
    let overlay = &world.dynamic_rooms[room as usize];
    let ghost view = world@.dynamic_rooms[room as int];
    assert(view == overlay@);
    let mut i: usize = 0;
    while i < overlay.items.len()
        invariant
            i <= overlay.items.len(),
            view == overlay@,
            0 <= room < world@.dynamic_rooms.len(),
            view == world@.dynamic_rooms[room as int],
            forall|k: int|
                0 <= k < i ==> has_item_named(world@.items, (#[trigger] view.items[k]).item),
        decreases overlay.items.len() - i,
    {
        assert(view.items[i as int] == overlay.items@[i as int]@);
        if find_item_by_name(overlay.items[i].item.as_str(), &world.items).is_none() {
            assert(!has_item_named(world@.items, view.items[i as int].item));
            return false;
        }
        i += 1;
    }
    let mut j: usize = 0;
    while j < overlay.enemies.len()
        invariant
            j <= overlay.enemies.len(),
            view == overlay@,
            0 <= room < world@.dynamic_rooms.len(),
            view == world@.dynamic_rooms[room as int],
            forall|k: int|
                0 <= k < view.items.len() ==> has_item_named(
                    world@.items,
                    (#[trigger] view.items[k]).item,
                ),
            forall|k: int|
                0 <= k < j ==> has_enemy_named(world@.enemies, (#[trigger] view.enemies[k]).name),
        decreases overlay.enemies.len() - j,
    {
        assert(view.enemies[j as int] == overlay.enemies@[j as int]@);
        if find_enemy_by_name(overlay.enemies[j].name.as_str(), &world.enemies).is_none() {
            assert(!has_enemy_named(world@.enemies, view.enemies[j as int].name));
            return false;
        }
        j += 1;
    }
    true
}

/// The overlay of a room, copied out of the overlay table.
pub fn get_dynamic_room_data(world: &World, room: i32) -> (r: DynamicRoomData)
    requires
        0 <= room < world@.dynamic_rooms.len(),
    ensures
        r@ == world@.dynamic_rooms[room as int],
{
    world.dynamic_rooms[room as usize].clone()
}

/// Replays the overlay of a room: makes the entities of its items, of its
/// description overrides and of its enemies.
pub fn create_dynamic_room_entities(world: &mut World, room: i32)
    requires
        can_replay(old(world)@, room),
    ensures
        final(world)@ == with_replay(old(world)@, room),
{
    let ghost start = world@;
    let room_data = get_dynamic_room_data(world, room);
    let ghost overlay = room_data@;
    let mut i: usize = 0;
    while i < room_data.items.len()
        invariant
            i <= room_data.items.len(),
            overlay == room_data@,
            overlay_known(start, overlay),
            world@.items == start.items,
            world@.enemies == start.enemies,
            world@ == with_items(start, start.items, room, overlay.items, i as int),
        decreases room_data.items.len() - i,
    {
        let item = &room_data.items[i];
        assert(item@ == overlay.items[i as int]);
        create_item_by_name(world, room, item.item.as_str(), item.position.x, item.position.y);
        i += 1;
    }
    let ghost itemed = world@;
    let mut j: usize = 0;
    while j < room_data.descriptions.len()
        invariant
            j <= room_data.descriptions.len(),
            overlay == room_data@,
            overlay_known(start, overlay),
            world@.enemies == start.enemies,
            world@ == with_descriptions(itemed, room, overlay.descriptions, j as int),
        decreases room_data.descriptions.len() - j,
    {
        let desc = &room_data.descriptions[j];
        assert(desc@ == overlay.descriptions[j as int]);
        create_description(world, room, desc.keyword.as_str(), desc.text.as_str());
        j += 1;
    }
    let ghost described = world@;
    let mut k: usize = 0;
    while k < room_data.enemies.len()
        invariant
            k <= room_data.enemies.len(),
            overlay == room_data@,
            overlay_known(start, overlay),
            world@.enemies == start.enemies,
            world@ == with_enemies(described, start.enemies, room, overlay.enemies, k as int),
        decreases room_data.enemies.len() - k,
    {
        let enemy = &room_data.enemies[k];
        assert(enemy@ == overlay.enemies[k as int]);
        create_enemy(world, room, enemy.name.as_str(), enemy.position.x, enemy.position.y, enemy.health);
        k += 1;
    }
}

/// The number of rooms of the world.
pub const ROOM_COUNT: i32 = 83;

/// The index of the first overlay from `from` on that is the one of the
/// room, or the number of overlays where there is none.
pub open spec fn overlay_index(loaded: Seq<DynamicRoomView>, room: i32, from: int) -> int
    decreases loaded.len() - from,
{
    if from < 0 || from >= loaded.len() {
        loaded.len() as int
    } else if loaded[from].room == room {
        from
    } else {
        overlay_index(loaded, room, from + 1)
    }
}

/// The overlay that a room starts with: the first one loaded for it, and an
/// empty one where none was loaded.
pub open spec fn overlay_of(loaded: Seq<DynamicRoomView>, room: i32) -> DynamicRoomView {
    if overlay_index(loaded, room, 0) < loaded.len() {
        loaded[overlay_index(loaded, room, 0)]
    } else {
        DynamicRoomView::empty(room)
    }
}

/// The overlay table of `count` rooms made from the overlays loaded.
pub open spec fn overlay_table(loaded: Seq<DynamicRoomView>, count: int) -> Seq<DynamicRoomView> {
    Seq::new(count as nat, |room: int| overlay_of(loaded, room as i32))
}

/// The first overlay of a room lies at or after `from`, and is one of the
/// room where it exists.
pub proof fn lemma_overlay_index(loaded: Seq<DynamicRoomView>, room: i32, from: int)
    requires
        0 <= from <= loaded.len(),
    ensures
        from <= overlay_index(loaded, room, from) <= loaded.len(),
        overlay_index(loaded, room, from) < loaded.len() ==> loaded[overlay_index(
            loaded,
            room,
            from,
        )].room == room,
    decreases loaded.len() - from,
{
    if from < loaded.len() && loaded[from].room != room {
        lemma_overlay_index(loaded, room, from + 1);
    }
}

/// Finds the overlay of a room among the overlays loaded.
pub fn find_room(room_index: i32, rooms: &Vec<DynamicRoomData>) -> (r: Option<usize>)
    ensures
        match r {
            Some(index) => index < rooms@.len() && index == overlay_index(
                views_of(rooms@),
                room_index,
                0,
            ),
            None => overlay_index(views_of(rooms@), room_index, 0) == rooms@.len(),
        },
{
    let mut i: usize = 0;
    while i < rooms.len()
        invariant
            i <= rooms.len(),
            overlay_index(views_of(rooms@), room_index, 0) == overlay_index(
                views_of(rooms@),
                room_index,
                i as int,
            ),
        decreases rooms.len() - i,
    {
        if rooms[i].room == room_index {
            return Some(i);
        }
        i += 1;
    }
    None
}

/// Fills the overlay table: every room of the world gets the overlay
/// loaded for it, or an empty one.
pub fn load_dynamic_rooms(world: &mut World, loaded_rooms: &Vec<DynamicRoomData>)
    ensures
        final(world)@ == (WorldView {
            dynamic_rooms: overlay_table(views_of(loaded_rooms@), ROOM_COUNT as int),
            ..old(world)@
        }),
        final(world)@.dynamic_rooms.len() == ROOM_COUNT,
        forall|room: int|
            0 <= room < ROOM_COUNT ==> (#[trigger] final(world)@.dynamic_rooms[room]).room == room,
{
    let mut rooms: Vec<DynamicRoomData> = Vec::new();
    let mut room: i32 = 0;
    while room < 83
        invariant
            0 <= room <= 83,
            rooms@.len() == room,
            forall|k: int|
                0 <= k < room ==> (#[trigger] rooms@[k])@ == overlay_of(
                    views_of(loaded_rooms@),
                    k as i32,
                ),
        decreases 83 - room,
    {
        match find_room(room, loaded_rooms) {
            Some(index) => rooms.push(loaded_rooms[index].clone()),
            None => rooms.push(DynamicRoomData::empty(room)),
        }
        room += 1;
    }
    assert(views_of(rooms@) =~= overlay_table(views_of(loaded_rooms@), 83));
    proof {
        assert forall|room: int| 0 <= room < 83 implies (#[trigger] views_of(rooms@)[room]).room
            == room by {
            lemma_overlay_index(views_of(loaded_rooms@), room as i32, 0);
        }
    }
    world.dynamic_rooms = rooms;
}

/// The room record that a geometry override stands for: its tile codes
/// decoded like a grid of the map file, its description lines as they are,
/// and its exit string parsed like one of the map file. An override whose
/// grid has not the size of a room's grid is refused.
pub open spec fn override_record(o: StaticRoomOverrideView) -> Result<RoomView, MapError> {
    if o.tiles.len() != 432 {
        Err(MapError::Truncated)
    } else {
        match parse_exits_spec(encode_utf8(o.exits)) {
            Ok(exits) => Ok(RoomView { tiles: tiles_of(o.tiles), description: o.description, exits }),
            Err(e) => Err(e),
        }
    }
}

/// Makes the room record that a geometry override stands for.
pub fn room_from_override(o: &StaticRoomOverride) -> (r: Result<RoomData, MapError>)
    ensures
        match r {
            Ok(room) => override_record(o@) == Ok::<RoomView, MapError>(room@),
            Err(e) => override_record(o@) == Err::<RoomView, MapError>(e),
        },
{
    if o.tiles.len() != 432 {
        return Err(MapError::Truncated);
    }
    let tiles = decode_tiles(o.tiles.as_slice());
    let exits = match parse_exits(o.exits.as_str().as_bytes()) {
        Ok(exits) => exits,
        Err(e) => {
            return Err(e);
        },
    };
    let mut description: Vec<String> = Vec::new();
    let mut i: usize = 0;
    while i < o.description.len()
        invariant
            i <= o.description.len(),
            description@ == o.description@.take(i as int),
        decreases o.description.len() - i,
    {
        description.push(o.description[i].clone());
        assert(o.description@.take(i + 1) =~= o.description@.take(i as int).push(
            o.description@[i as int],
        ));
        i += 1;
    }
    assert(o.description@.take(i as int) =~= o.description@);
    Ok(RoomData { tiles, description, exits })
}

/// The record of a room once the geometry overrides are in force: that of
/// the room's override where it has one, otherwise the room's own.
pub open spec fn record_in_force(
    rooms: Seq<RoomView>,
    table: Seq<DynamicRoomView>,
    room: int,
) -> Result<RoomView, MapError> {
    if room < table.len() && table[room].static_override is Some {
        override_record(table[room].static_override->0)
    } else {
        Ok(rooms[room])
    }
}

/// Tells whether the geometry override of each of the first `n` rooms can
/// be put in force.
pub open spec fn overrides_valid(rooms: Seq<RoomView>, table: Seq<DynamicRoomView>, n: int) -> bool {
    forall|room: int| 0 <= room < n ==> (#[trigger] record_in_force(rooms, table, room)) is Ok
}

/// Puts the geometry overrides of the overlay table in force: the record of
/// every room that has an override is replaced by the record that the
/// override stands for. Where an override is refused, no record changes,
/// and the error is that of the first room whose override is refused.
pub fn apply_room_overrides(world: &mut World) -> (r: Result<(), MapError>)
    ensures
        r is Ok <==> overrides_valid(
            old(world)@.rooms,
            old(world)@.dynamic_rooms,
            old(world)@.rooms.len() as int,
        ),
        r is Ok ==> final(world)@ == (WorldView {
            rooms: Seq::new(
                old(world)@.rooms.len(),
                |room: int| record_in_force(old(world)@.rooms, old(world)@.dynamic_rooms, room)->Ok_0,
            ),
            ..old(world)@
        }),
        r is Err ==> final(world)@ == old(world)@ && exists|room: int|
            0 <= room < old(world)@.rooms.len() && #[trigger] record_in_force(
                old(world)@.rooms,
                old(world)@.dynamic_rooms,
                room,
            ) == Err::<RoomView, MapError>(r->Err_0) && overrides_valid(
                old(world)@.rooms,
                old(world)@.dynamic_rooms,
                room,
            ),
{
    let ghost w = world@;
    let n = world.rooms.len();
    let mut rooms: Vec<RoomData> = Vec::new();
    let mut room: usize = 0;
    while room < n
        invariant
            room <= n,
            n == world.rooms@.len(),
            world@ == w,
            w == old(world)@,
            rooms@.len() == room,
            overrides_valid(w.rooms, w.dynamic_rooms, room as int),
            forall|k: int|
                0 <= k < room ==> Ok::<RoomView, MapError>((#[trigger] rooms@[k])@) == record_in_force(
                    w.rooms,
                    w.dynamic_rooms,
                    k,
                ),
        decreases n - room,
    {
        let mut replaced: Option<RoomData> = None;
        if room < world.dynamic_rooms.len() {
            assert(w.dynamic_rooms[room as int] == world.dynamic_rooms@[room as int]@);
            match &world.dynamic_rooms[room].static_override {
                Some(o) => {
                    assert(w.dynamic_rooms[room as int].static_override == Some(o@));
                    match room_from_override(o) {
                        Ok(record) => {
                            replaced = Some(record);
                        },
                        Err(e) => {
                            assert(record_in_force(w.rooms, w.dynamic_rooms, room as int) == Err::<
                                RoomView,
                                MapError,
                            >(e));
                            return Err(e);
                        },
                    }
                },
                None => {},
            }
        }
        match replaced {
            Some(record) => rooms.push(record),
            None => {
                assert(w.rooms[room as int] == world.rooms@[room as int]@);
                rooms.push(world.rooms[room].clone());
            },
        }
        room += 1;
    }
    assert(views_of(rooms@) =~= Seq::new(
        w.rooms.len(),
        |room: int| record_in_force(w.rooms, w.dynamic_rooms, room)->Ok_0,
    ));
    world.rooms = rooms;
    Ok(())
}

} // verus!
