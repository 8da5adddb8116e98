//! What a change of room keeps: the overlay of a room that is left and
//! entered again, and the entities that are part of no room.

use crate::components::described;
use crate::enemies::{enemy_entity, enemy_index_by_name, has_enemy_named, EnemyView};
use crate::game::DynamicMarker;
use crate::items::{has_item_named, item_entity, item_index_by_name, item_name, ItemView};
use crate::room::dynamic_rooms::{
    capture, description_entity, description_kept, enemy_kept, item_kept, keeps_description,
    keeps_enemy, keeps_item, with_capture, with_descriptions, with_enemies, with_items,
    with_replay, DynamicDescriptionView, DynamicEnemyView, DynamicItemView, DynamicRoomView,
};
use crate::room::{
    can_change_room, edge_entity, room_record, tile_entity, with_column_edges, with_edge,
    with_room_change, with_room_entities, with_row_edges, with_tiles, without_room, ExitData,
    ExitDirection, RoomView,
};
use crate::store::{
    gather, keeps_living, kept_before_free, lemma_gather_all, lemma_gather_new_entity,
    lemma_gather_skips, lemma_new_entity_keeps_living, looks_at_components, EntityView,
};
use crate::text::ascii_lower;
use crate::world::{marker_for, same_tables, WorldView};
use vstd::prelude::*;

verus! {

/// Capturing the overlay of a room twice in a row gives the same overlay,
/// and the same overlay table, as capturing it once.
pub proof fn lemma_capture_is_idempotent(w: WorldView, room: i32)
    requires
        0 <= room < w.dynamic_rooms.len(),
    ensures
        capture(with_capture(w, room), room) == capture(w, room),
        with_capture(with_capture(w, room), room) == with_capture(w, room),
{
    assert(with_capture(with_capture(w, room), room).dynamic_rooms =~= with_capture(
        w,
        room,
    ).dynamic_rooms);
}

/// An entity as it lives in the store.
pub open spec fn live(e: EntityView) -> EntityView {
    EntityView { alive: true, ..e }
}

/// The stable identity that the entity made `k` entities after a given
/// next identity gets.
pub open spec fn marker_at(start: u64, k: int) -> Option<DynamicMarker> {
    if start + k < u64::MAX {
        Some(DynamicMarker { id: (start + k) as u64 })
    } else {
        None
    }
}

/// The next stable identity after `n` have been handed out.
pub open spec fn markers_after(start: u64, n: int) -> u64 {
    if start + n < u64::MAX {
        (start + n) as u64
    } else {
        u64::MAX
    }
}

/// Making the entities of tiles of which `keep` holds of none changes
/// nothing of what is gathered.
pub proof fn lemma_tiles_not_gathered<T>(
    w: WorldView,
    room: i32,
    data: RoomView,
    n: int,
    keep: spec_fn(EntityView) -> bool,
    elem: spec_fn(EntityView) -> T,
)
    requires
        0 <= n <= data.tiles.len(),
        looks_at_components(keep, elem),
        kept_before_free(w.entities, keep),
        forall|k: int|
            0 <= k < data.tiles.len() ==> !keep(
                live(tile_entity(data.exits, room, #[trigger] data.tiles[k])),
            ),
    ensures
        gather(
            with_tiles(w, room, data, n).entities,
            keep,
            elem,
            with_tiles(w, room, data, n).entities.len() as int,
        ) == gather(w.entities, keep, elem, w.entities.len() as int),
        kept_before_free(with_tiles(w, room, data, n).entities, keep),
        same_tables(w, with_tiles(w, room, data, n)),
        with_tiles(w, room, data, n).next_marker == w.next_marker,
    decreases n,
{
    if n > 0 {
        lemma_tiles_not_gathered(w, room, data, n - 1, keep, elem);
        let before = with_tiles(w, room, data, n - 1);
        let tile = data.tiles[n - 1];
        lemma_gather_new_entity(before.entities, tile_entity(data.exits, room, tile), keep, elem);
    }
}

/// Tells whether `keep` holds of no edge entity of the room.
pub open spec fn keeps_no_edge(keep: spec_fn(EntityView) -> bool, room: i32) -> bool {
    forall|x: i32, y: i32, exit: ExitData| !keep(live(#[trigger] edge_entity(room, x, y, exit)))
}

/// Making an edge entity changes nothing of what is gathered, where `keep`
/// holds of no edge entity.
pub proof fn lemma_edge_not_gathered<T>(
    w: WorldView,
    room: i32,
    data: RoomView,
    direction: ExitDirection,
    inner_x: int,
    inner_y: int,
    x: i32,
    y: i32,
    keep: spec_fn(EntityView) -> bool,
    elem: spec_fn(EntityView) -> T,
)
    requires
        looks_at_components(keep, elem),
        kept_before_free(w.entities, keep),
        keeps_no_edge(keep, room),
    ensures
        gather(
            with_edge(w, room, data, direction, inner_x, inner_y, x, y).entities,
            keep,
            elem,
            with_edge(w, room, data, direction, inner_x, inner_y, x, y).entities.len() as int,
        ) == gather(w.entities, keep, elem, w.entities.len() as int),
        kept_before_free(with_edge(w, room, data, direction, inner_x, inner_y, x, y).entities, keep),
        same_tables(w, with_edge(w, room, data, direction, inner_x, inner_y, x, y)),
        with_edge(w, room, data, direction, inner_x, inner_y, x, y).next_marker == w.next_marker,
{
    let after = with_edge(w, room, data, direction, inner_x, inner_y, x, y);
    if after != w {
        let exit = crate::room::exit_towards(data.exits, direction)->0;
        assert(!keep(live(edge_entity(room, x, y, exit))));
        lemma_gather_new_entity(w.entities, edge_entity(room, x, y, exit), keep, elem);
    }
}

/// Making the edge entities of rows changes nothing of what is gathered,
/// where `keep` holds of no edge entity.
pub proof fn lemma_row_edges_not_gathered<T>(
    w: WorldView,
    room: i32,
    data: RoomView,
    n: int,
    keep: spec_fn(EntityView) -> bool,
    elem: spec_fn(EntityView) -> T,
)
    requires
        looks_at_components(keep, elem),
        kept_before_free(w.entities, keep),
        keeps_no_edge(keep, room),
    ensures
        gather(
            with_row_edges(w, room, data, n).entities,
            keep,
            elem,
            with_row_edges(w, room, data, n).entities.len() as int,
        ) == gather(w.entities, keep, elem, w.entities.len() as int),
        kept_before_free(with_row_edges(w, room, data, n).entities, keep),
        same_tables(w, with_row_edges(w, room, data, n)),
        with_row_edges(w, room, data, n).next_marker == w.next_marker,
    decreases n,
{
    if n > 0 {
        lemma_row_edges_not_gathered(w, room, data, n - 1, keep, elem);
        let before = with_row_edges(w, room, data, n - 1);
        let row = n - 1;
        lemma_edge_not_gathered(
            before,
            room,
            data,
            ExitDirection::West,
            0,
            row,
            -1i32,
            row as i32,
            keep,
            elem,
        );
        let west = with_edge(before, room, data, ExitDirection::West, 0, row, -1i32, row as i32);
        lemma_edge_not_gathered(
            west,
            room,
            data,
            ExitDirection::East,
            23,
            row,
            24,
            row as i32,
            keep,
            elem,
        );
    }
}

/// Making the edge entities of columns changes nothing of what is
/// gathered, where `keep` holds of no edge entity.
pub proof fn lemma_column_edges_not_gathered<T>(
    w: WorldView,
    room: i32,
    data: RoomView,
    n: int,
    keep: spec_fn(EntityView) -> bool,
    elem: spec_fn(EntityView) -> T,
)
    requires
        looks_at_components(keep, elem),
        kept_before_free(w.entities, keep),
        keeps_no_edge(keep, room),
    ensures
        gather(
            with_column_edges(w, room, data, n).entities,
            keep,
            elem,
            with_column_edges(w, room, data, n).entities.len() as int,
        ) == gather(w.entities, keep, elem, w.entities.len() as int),
        kept_before_free(with_column_edges(w, room, data, n).entities, keep),
        same_tables(w, with_column_edges(w, room, data, n)),
        with_column_edges(w, room, data, n).next_marker == w.next_marker,
    decreases n,
{
    if n > 1 {
        lemma_column_edges_not_gathered(w, room, data, n - 1, keep, elem);
        let before = with_column_edges(w, room, data, n - 1);
        let col = n - 1;
        lemma_edge_not_gathered(
            before,
            room,
            data,
            ExitDirection::North,
            col,
            0,
            col as i32,
            -1i32,
            keep,
            elem,
        );
        let north = with_edge(before, room, data, ExitDirection::North, col, 0, col as i32, -1i32);
        lemma_edge_not_gathered(
            north,
            room,
            data,
            ExitDirection::South,
            col,
            17,
            col as i32,
            18,
            keep,
            elem,
        );
    }
}

/// Making the entities of a room's fixed geometry changes nothing of what
/// is gathered, where `keep` holds of none of them.
pub proof fn lemma_room_entities_not_gathered<T>(
    w: WorldView,
    room: i32,
    data: RoomView,
    keep: spec_fn(EntityView) -> bool,
    elem: spec_fn(EntityView) -> T,
)
    requires
        looks_at_components(keep, elem),
        kept_before_free(w.entities, keep),
        keeps_no_edge(keep, room),
        forall|k: int|
            0 <= k < data.tiles.len() ==> !keep(
                live(tile_entity(data.exits, room, #[trigger] data.tiles[k])),
            ),
    ensures
        gather(
            with_room_entities(w, room, data).entities,
            keep,
            elem,
            with_room_entities(w, room, data).entities.len() as int,
        ) == gather(w.entities, keep, elem, w.entities.len() as int),
        kept_before_free(with_room_entities(w, room, data).entities, keep),
        same_tables(w, with_room_entities(w, room, data)),
        with_room_entities(w, room, data).next_marker == w.next_marker,
{
    lemma_tiles_not_gathered(w, room, data, data.tiles.len() as int, keep, elem);
    let tiled = with_tiles(w, room, data, data.tiles.len() as int);
    lemma_row_edges_not_gathered(tiled, room, data, 18, keep, elem);
    let rowed = with_row_edges(tiled, room, data, 18);
    lemma_column_edges_not_gathered(rowed, room, data, 23, keep, elem);
}

/// The entity that item `k` of an overlay is once it has been made, where
/// the first item was made with the next stable identity `start`.
pub open spec fn item_record(
    catalogue: Seq<ItemView>,
    room: i32,
    items: Seq<DynamicItemView>,
    start: u64,
    k: int,
) -> EntityView {
    live(
        EntityView {
            marker: marker_at(start, k),
            ..item_entity(
                catalogue[item_index_by_name(catalogue, items[k].item, 0)],
                room,
                items[k].position.x,
                items[k].position.y,
            )
        },
    )
}

/// The entities that the items of an overlay are once they have been made.
pub open spec fn item_records(
    catalogue: Seq<ItemView>,
    room: i32,
    items: Seq<DynamicItemView>,
    start: u64,
) -> Seq<EntityView> {
    Seq::new(items.len(), |k: int| item_record(catalogue, room, items, start, k))
}

/// Making the first `n` items of an overlay adds to what is gathered what
/// is gathered from the items made.
pub proof fn lemma_items_gathered<T>(
    w: WorldView,
    catalogue: Seq<ItemView>,
    room: i32,
    items: Seq<DynamicItemView>,
    n: int,
    keep: spec_fn(EntityView) -> bool,
    elem: spec_fn(EntityView) -> T,
)
    requires
        0 <= n <= items.len(),
        looks_at_components(keep, elem),
        kept_before_free(w.entities, keep),
    ensures
        gather(
            with_items(w, catalogue, room, items, n).entities,
            keep,
            elem,
            with_items(w, catalogue, room, items, n).entities.len() as int,
        ) == gather(w.entities, keep, elem, w.entities.len() as int) + gather(
            item_records(catalogue, room, items, w.next_marker),
            keep,
            elem,
            n,
        ),
        kept_before_free(with_items(w, catalogue, room, items, n).entities, keep),
        same_tables(w, with_items(w, catalogue, room, items, n)),
        with_items(w, catalogue, room, items, n).next_marker == markers_after(w.next_marker, n),
    decreases n,
{
    let records = item_records(catalogue, room, items, w.next_marker);
    let base = gather(w.entities, keep, elem, w.entities.len() as int);
    if n > 0 {
        lemma_items_gathered(w, catalogue, room, items, n - 1, keep, elem);
        let before = with_items(w, catalogue, room, items, n - 1);
        let item = items[n - 1];
        let data = EntityView {
            marker: marker_for(before.next_marker),
            ..item_entity(
                catalogue[item_index_by_name(catalogue, item.item, 0)],
                room,
                item.position.x,
                item.position.y,
            )
        };
        lemma_gather_new_entity(before.entities, data, keep, elem);
        assert(live(data) == records[n - 1]);
        let earlier = gather(records, keep, elem, n - 1);
        assert(base + earlier.push(elem(records[n - 1])) =~= (base + earlier).push(
            elem(records[n - 1]),
        ));
    } else {
        assert(base + gather(records, keep, elem, 0) =~= base);
    }
}

/// The entity that description override `k` of an overlay is once it has
/// been made, where the first was made with the next stable identity
/// `start`.
pub open spec fn description_record(
    room: i32,
    descriptions: Seq<DynamicDescriptionView>,
    start: u64,
    k: int,
) -> EntityView {
    live(
        EntityView {
            marker: marker_at(start, k),
            ..description_entity(room, descriptions[k].keyword, descriptions[k].text)
        },
    )
}

/// The entities that the description overrides of an overlay are once they
/// have been made.
pub open spec fn description_records(
    room: i32,
    descriptions: Seq<DynamicDescriptionView>,
    start: u64,
) -> Seq<EntityView> {
    Seq::new(descriptions.len(), |k: int| description_record(room, descriptions, start, k))
}

/// Making the first `n` description overrides of an overlay adds to what
/// is gathered what is gathered from the overrides made.
pub proof fn lemma_descriptions_gathered<T>(
    w: WorldView,
    room: i32,
    descriptions: Seq<DynamicDescriptionView>,
    n: int,
    keep: spec_fn(EntityView) -> bool,
    elem: spec_fn(EntityView) -> T,
)
    requires
        0 <= n <= descriptions.len(),
        looks_at_components(keep, elem),
        kept_before_free(w.entities, keep),
    ensures
        gather(
            with_descriptions(w, room, descriptions, n).entities,
            keep,
            elem,
            with_descriptions(w, room, descriptions, n).entities.len() as int,
        ) == gather(w.entities, keep, elem, w.entities.len() as int) + gather(
            description_records(room, descriptions, w.next_marker),
            keep,
            elem,
            n,
        ),
        kept_before_free(with_descriptions(w, room, descriptions, n).entities, keep),
        same_tables(w, with_descriptions(w, room, descriptions, n)),
        with_descriptions(w, room, descriptions, n).next_marker == markers_after(w.next_marker, n),
    decreases n,
{
    let records = description_records(room, descriptions, w.next_marker);
    let base = gather(w.entities, keep, elem, w.entities.len() as int);
    if n > 0 {
        lemma_descriptions_gathered(w, room, descriptions, n - 1, keep, elem);
        let before = with_descriptions(w, room, descriptions, n - 1);
        let data = EntityView {
            marker: marker_for(before.next_marker),
            ..description_entity(room, descriptions[n - 1].keyword, descriptions[n - 1].text)
        };
        lemma_gather_new_entity(before.entities, data, keep, elem);
        assert(live(data) == records[n - 1]);
        let earlier = gather(records, keep, elem, n - 1);
        assert(base + earlier.push(elem(records[n - 1])) =~= (base + earlier).push(
            elem(records[n - 1]),
        ));
    } else {
        assert(base + gather(records, keep, elem, 0) =~= base);
    }
}

/// The entity that enemy `k` of an overlay is once it has been made, where
/// the first enemy was made with the next stable identity `start`.
pub open spec fn enemy_record(
    catalogue: Seq<EnemyView>,
    room: i32,
    enemies: Seq<DynamicEnemyView>,
    start: u64,
    k: int,
) -> EntityView {
    live(
        EntityView {
            marker: marker_at(start, k),
            ..enemy_entity(
                catalogue[enemy_index_by_name(catalogue, enemies[k].name, 0)],
                room,
                enemies[k].position.x,
                enemies[k].position.y,
                enemies[k].health,
            )
        },
    )
}

/// The entities that the enemies of an overlay are once they have been
/// made.
pub open spec fn enemy_records(
    catalogue: Seq<EnemyView>,
    room: i32,
    enemies: Seq<DynamicEnemyView>,
    start: u64,
) -> Seq<EntityView> {
    Seq::new(enemies.len(), |k: int| enemy_record(catalogue, room, enemies, start, k))
}

/// Making the first `n` enemies of an overlay adds to what is gathered
/// what is gathered from the enemies made.
pub proof fn lemma_enemies_gathered<T>(
    w: WorldView,
    catalogue: Seq<EnemyView>,
    room: i32,
    enemies: Seq<DynamicEnemyView>,
    n: int,
    keep: spec_fn(EntityView) -> bool,
    elem: spec_fn(EntityView) -> T,
)
    requires
        0 <= n <= enemies.len(),
        looks_at_components(keep, elem),
        kept_before_free(w.entities, keep),
    ensures
        gather(
            with_enemies(w, catalogue, room, enemies, n).entities,
            keep,
            elem,
            with_enemies(w, catalogue, room, enemies, n).entities.len() as int,
        ) == gather(w.entities, keep, elem, w.entities.len() as int) + gather(
            enemy_records(catalogue, room, enemies, w.next_marker),
            keep,
            elem,
            n,
        ),
        kept_before_free(with_enemies(w, catalogue, room, enemies, n).entities, keep),
        same_tables(w, with_enemies(w, catalogue, room, enemies, n)),
        with_enemies(w, catalogue, room, enemies, n).next_marker == markers_after(w.next_marker, n),
    decreases n,
{
    let records = enemy_records(catalogue, room, enemies, w.next_marker);
    let base = gather(w.entities, keep, elem, w.entities.len() as int);
    if n > 0 {
        lemma_enemies_gathered(w, catalogue, room, enemies, n - 1, keep, elem);
        let before = with_enemies(w, catalogue, room, enemies, n - 1);
        let enemy = enemies[n - 1];
        let data = EntityView {
            marker: marker_for(before.next_marker),
            ..enemy_entity(
                catalogue[enemy_index_by_name(catalogue, enemy.name, 0)],
                room,
                enemy.position.x,
                enemy.position.y,
                enemy.health,
            )
        };
        lemma_gather_new_entity(before.entities, data, keep, elem);
        assert(live(data) == records[n - 1]);
        let earlier = gather(records, keep, elem, n - 1);
        assert(base + earlier.push(elem(records[n - 1])) =~= (base + earlier).push(
            elem(records[n - 1]),
        ));
    } else {
        assert(base + gather(records, keep, elem, 0) =~= base);
    }
}

/// What is gathered of a room that has been set up: what was gathered
/// before, then what is gathered from the items, from the description
/// overrides and from the enemies of the overlay, as long as `keep` holds
/// of no entity of the room's fixed geometry.
pub proof fn lemma_setup_gathered<T>(
    w: WorldView,
    room: i32,
    record: RoomView,
    keep: spec_fn(EntityView) -> bool,
    elem: spec_fn(EntityView) -> T,
)
    requires
        0 <= room < w.dynamic_rooms.len(),
        looks_at_components(keep, elem),
        kept_before_free(w.entities, keep),
        keeps_no_edge(keep, room),
        forall|k: int|
            0 <= k < record.tiles.len() ==> !keep(
                live(tile_entity(record.exits, room, #[trigger] record.tiles[k])),
            ),
    ensures
        ({
            let d = w.dynamic_rooms[room as int];
            let after = with_replay(with_room_entities(w, room, record), room);
            let first = markers_after(w.next_marker, d.items.len() as int);
            let second = markers_after(first, d.descriptions.len() as int);
            &&& same_tables(w, after)
            &&& kept_before_free(after.entities, keep)
            &&& gather(after.entities, keep, elem, after.entities.len() as int) == gather(
                w.entities,
                keep,
                elem,
                w.entities.len() as int,
            ) + gather(
                item_records(w.items, room, d.items, w.next_marker),
                keep,
                elem,
                d.items.len() as int,
            ) + gather(
                description_records(room, d.descriptions, first),
                keep,
                elem,
                d.descriptions.len() as int,
            ) + gather(
                enemy_records(w.enemies, room, d.enemies, second),
                keep,
                elem,
                d.enemies.len() as int,
            )
        }),
{
    let d = w.dynamic_rooms[room as int];
    lemma_room_entities_not_gathered(w, room, record, keep, elem);
    let built = with_room_entities(w, room, record);
    assert(built.dynamic_rooms[room as int] == d);
    lemma_items_gathered(built, built.items, room, d.items, d.items.len() as int, keep, elem);
    let itemed = with_items(built, built.items, room, d.items, d.items.len() as int);
    lemma_descriptions_gathered(
        itemed,
        room,
        d.descriptions,
        d.descriptions.len() as int,
        keep,
        elem,
    );
    let told = with_descriptions(itemed, room, d.descriptions, d.descriptions.len() as int);
    lemma_enemies_gathered(told, built.enemies, room, d.enemies, d.enemies.len() as int, keep, elem);
}

/// Tells whether an item of an overlay comes back under its name: the name
/// finds an entry of the catalogue, and the kind of that entry is stored
/// under the same name.
pub open spec fn item_returns(catalogue: Seq<ItemView>, item: DynamicItemView) -> bool {
    &&& has_item_named(catalogue, item.item)
    &&& item_name(catalogue, catalogue[item_index_by_name(catalogue, item.item, 0)].flag)
        == item.item
}

/// Tells whether a description override of an overlay comes back under its
/// keyword: the keyword is in lower case.
pub open spec fn description_returns(description: DynamicDescriptionView) -> bool {
    ascii_lower(description.keyword) == description.keyword
}

/// Tells whether an enemy of an overlay comes back as it is: its name finds
/// an entry of the catalogue that is looked up by the same name, and its
/// health is known and not used up.
pub open spec fn enemy_returns(catalogue: Seq<EnemyView>, enemy: DynamicEnemyView) -> bool {
    let entry = catalogue[enemy_index_by_name(catalogue, enemy.name, 0)];
    &&& has_enemy_named(catalogue, enemy.name)
    &&& enemy.health is Some
    &&& enemy.health->0 > 0
    &&& described(entry.name, entry.input_name, entry.description).input_name == enemy.name
}

/// Tells whether an overlay comes back as it is when it is replayed and
/// captured again: each of its items, description overrides and enemies
/// does, the overlay is that of the room, and a stable identity is left for
/// each item and each description override.
pub open spec fn overlay_returns(w: WorldView, room: i32, overlay: DynamicRoomView) -> bool {
    &&& overlay.room == room
    &&& forall|k: int|
        0 <= k < overlay.items.len() ==> item_returns(w.items, #[trigger] overlay.items[k])
    &&& forall|k: int|
        0 <= k < overlay.descriptions.len() ==> description_returns(
            #[trigger] overlay.descriptions[k],
        )
    &&& forall|k: int|
        0 <= k < overlay.enemies.len() ==> enemy_returns(w.enemies, #[trigger] overlay.enemies[k])
    &&& w.next_marker + overlay.items.len() + overlay.descriptions.len() <= u64::MAX
}

/// Tells whether no entity of the store is one of the room.
pub open spec fn room_is_vacant(entities: Seq<EntityView>, room: i32) -> bool {
    forall|i: int| 0 <= i < entities.len() ==> !(#[trigger] entities[i]).in_room(room)
}

/// Setting up a vacant room and capturing its overlay right away gives back
/// the overlay that was replayed: the same items, description overrides and
/// enemies, by name, position and health, in the same order.
pub proof fn lemma_replayed_overlay_is_captured(w: WorldView, room: i32, record: RoomView)
    requires
        0 <= room < w.dynamic_rooms.len(),
        room_is_vacant(w.entities, room),
        overlay_returns(w, room, w.dynamic_rooms[room as int]),
    ensures
        capture(with_replay(with_room_entities(w, room, record), room), room)
            == w.dynamic_rooms[room as int],
{
    let d = w.dynamic_rooms[room as int];
    let after = with_replay(with_room_entities(w, room, record), room);
    let first = markers_after(w.next_marker, d.items.len() as int);
    let second = markers_after(first, d.descriptions.len() as int);
    let items = item_records(w.items, room, d.items, w.next_marker);
    let descriptions = description_records(room, d.descriptions, first);
    let enemies = enemy_records(w.enemies, room, d.enemies, second);
    let n = w.entities.len() as int;
    // The items.
    {
        let keep = keeps_item(room);
        let elem = item_kept(w.items);
        assert(looks_at_components(keep, elem));
        lemma_gather_skips(w.entities, keep, elem, 0, n);
        lemma_setup_gathered(w, room, record, keep, elem);
        lemma_gather_all(items, keep, elem, d.items, d.items.len() as int);
        lemma_gather_skips(descriptions, keep, elem, 0, d.descriptions.len() as int);
        lemma_gather_skips(enemies, keep, elem, 0, d.enemies.len() as int);
        assert(d.items.take(d.items.len() as int) =~= d.items);
        assert(capture(after, room).items =~= d.items);
    }
    // The description overrides.
    {
        let keep = keeps_description(room);
        let elem = description_kept();
        assert(looks_at_components(keep, elem));
        lemma_gather_skips(w.entities, keep, elem, 0, n);
        lemma_setup_gathered(w, room, record, keep, elem);
        lemma_gather_skips(items, keep, elem, 0, d.items.len() as int);
        lemma_gather_all(descriptions, keep, elem, d.descriptions, d.descriptions.len() as int);
        lemma_gather_skips(enemies, keep, elem, 0, d.enemies.len() as int);
        assert(d.descriptions.take(d.descriptions.len() as int) =~= d.descriptions);
        assert(capture(after, room).descriptions =~= d.descriptions);
    }
    // The enemies.
    {
        let keep = keeps_enemy(room);
        let elem = enemy_kept();
        assert(looks_at_components(keep, elem));
        lemma_gather_skips(w.entities, keep, elem, 0, n);
        lemma_setup_gathered(w, room, record, keep, elem);
        lemma_gather_skips(items, keep, elem, 0, d.items.len() as int);
        lemma_gather_skips(descriptions, keep, elem, 0, d.descriptions.len() as int);
        lemma_gather_all(enemies, keep, elem, d.enemies, d.enemies.len() as int);
        assert(d.enemies.take(d.enemies.len() as int) =~= d.enemies);
        assert(capture(after, room).enemies =~= d.enemies);
    }
}

/// The test for the entities of a room.
pub open spec fn is_in_room(room: i32) -> spec_fn(EntityView) -> bool {
    |e: EntityView| e.in_room(room)
}

/// The test that holds of no entity.
pub open spec fn is_none() -> spec_fn(EntityView) -> bool {
    |e: EntityView| false
}

/// The room that an entity is part of.
pub open spec fn its_room() -> spec_fn(EntityView) -> Option<crate::room::BelongsToRoom> {
    |e: EntityView| e.belongs_to_room
}

/// Where nothing is gathered, `keep` holds of no slot.
pub proof fn lemma_nothing_gathered<T>(
    a: Seq<EntityView>,
    keep: spec_fn(EntityView) -> bool,
    elem: spec_fn(EntityView) -> T,
    n: int,
)
    requires
        0 <= n <= a.len(),
        gather(a, keep, elem, n).len() == 0,
    ensures
        forall|k: int| 0 <= k < n ==> !keep(#[trigger] a[k]),
    decreases n,
{
    if n > 0 {
        if keep(a[n - 1]) {
            assert(gather(a, keep, elem, n).len() == gather(a, keep, elem, n - 1).len() + 1);
        }
        lemma_nothing_gathered(a, keep, elem, n - 1);
    }
}

/// Setting up a room leaves every other room that is vacant as vacant as
/// it was.
pub proof fn lemma_setup_keeps_vacant(w: WorldView, room: i32, record: RoomView, vacant: i32)
    requires
        0 <= room < w.dynamic_rooms.len(),
        room != vacant,
        room_is_vacant(w.entities, vacant),
    ensures
        room_is_vacant(with_replay(with_room_entities(w, room, record), room).entities, vacant),
{
    let d = w.dynamic_rooms[room as int];
    let after = with_replay(with_room_entities(w, room, record), room);
    let first = markers_after(w.next_marker, d.items.len() as int);
    let second = markers_after(first, d.descriptions.len() as int);
    let keep = is_in_room(vacant);
    let elem = its_room();
    assert(looks_at_components(keep, elem));
    lemma_gather_skips(w.entities, keep, elem, 0, w.entities.len() as int);
    lemma_setup_gathered(w, room, record, keep, elem);
    lemma_gather_skips(
        item_records(w.items, room, d.items, w.next_marker),
        keep,
        elem,
        0,
        d.items.len() as int,
    );
    lemma_gather_skips(
        description_records(room, d.descriptions, first),
        keep,
        elem,
        0,
        d.descriptions.len() as int,
    );
    lemma_gather_skips(
        enemy_records(w.enemies, room, d.enemies, second),
        keep,
        elem,
        0,
        d.enemies.len() as int,
    );
    lemma_nothing_gathered(after.entities, keep, elem, after.entities.len() as int);
}

/// Leaving a room and entering it again brings back what its overlay kept:
/// the overlay that is captured after the room has been left for another
/// room and entered again holds the same items, description overrides and
/// enemies, by name, position and health and in the same order, as the
/// overlay that is captured before. This holds where both changes of room
/// can take place, and the overlay that is captured first comes back as it
/// is when it is replayed.
pub proof fn lemma_room_round_trip(w: WorldView, room: i32, other: i32)
    requires
        0 <= room,
        0 <= other,
        room != other,
        can_change_room(w, other, room),
        can_change_room(with_room_change(w, other, room), room, other),
        overlay_returns(with_room_change(w, other, room), room, capture(w, room)),
    ensures
        capture(with_room_change(with_room_change(w, other, room), room, other), room) == capture(
            w,
            room,
        ),
{
    let captured = capture(w, room);
    // Leaving the room.
    let kept = with_capture(w, room);
    let left = WorldView { entities: without_room(kept.entities, room), ..kept };
    assert(room_is_vacant(left.entities, room));
    let away = with_room_change(w, other, room);
    assert(away == with_replay(
        with_room_entities(left, other, room_record(left, other)),
        other,
    ));
    lemma_setup_keeps_vacant(left, other, room_record(left, other), room);
    lemma_setup_gathered(
        left,
        other,
        room_record(left, other),
        is_in_room(room),
        its_room(),
    );
    assert(away.dynamic_rooms[room as int] == captured);
    // Entering it again.
    let kept_again = with_capture(away, other);
    let left_again = WorldView { entities: without_room(kept_again.entities, other), ..kept_again };
    assert(room_is_vacant(left_again.entities, room)) by {
        assert forall|i: int| 0 <= i < left_again.entities.len() implies !(
        #[trigger] left_again.entities[i]).in_room(room) by {
            assert(!away.entities[i].in_room(room));
        }
    }
    assert(left_again.dynamic_rooms[room as int] == captured);
    lemma_replayed_overlay_is_captured(left_again, room, room_record(left_again, room));
}

/// Making the entities of a room's fixed geometry leaves every living
/// entity as it is.
pub proof fn lemma_room_entities_keep_living(w: WorldView, room: i32, data: RoomView)
    ensures
        keeps_living(w.entities, with_room_entities(w, room, data).entities),
{
    let tiled = with_tiles(w, room, data, data.tiles.len() as int);
    lemma_tiles_keep_living(w, room, data, data.tiles.len() as int);
    let rowed = with_row_edges(tiled, room, data, 18);
    lemma_row_edges_keep_living(tiled, room, data, 18);
    lemma_column_edges_keep_living(rowed, room, data, 23);
}

/// Making the entities of tiles leaves every living entity as it is.
pub proof fn lemma_tiles_keep_living(w: WorldView, room: i32, data: RoomView, n: int)
    ensures
        keeps_living(w.entities, with_tiles(w, room, data, n).entities),
    decreases n,
{
    if n > 0 {
        lemma_tiles_keep_living(w, room, data, n - 1);
        lemma_new_entity_keeps_living(
            with_tiles(w, room, data, n - 1).entities,
            tile_entity(data.exits, room, data.tiles[n - 1]),
        );
    }
}

/// Making an edge entity leaves every living entity as it is.
pub proof fn lemma_edge_keeps_living(
    w: WorldView,
    room: i32,
    data: RoomView,
    direction: ExitDirection,
    inner_x: int,
    inner_y: int,
    x: i32,
    y: i32,
)
    ensures
        keeps_living(
            w.entities,
            with_edge(w, room, data, direction, inner_x, inner_y, x, y).entities,
        ),
{
    if with_edge(w, room, data, direction, inner_x, inner_y, x, y) != w {
        let exit = crate::room::exit_towards(data.exits, direction)->0;
        lemma_new_entity_keeps_living(w.entities, edge_entity(room, x, y, exit));
    }
}

/// Making the edge entities of rows leaves every living entity as it is.
pub proof fn lemma_row_edges_keep_living(w: WorldView, room: i32, data: RoomView, n: int)
    ensures
        keeps_living(w.entities, with_row_edges(w, room, data, n).entities),
    decreases n,
{
    if n > 0 {
        lemma_row_edges_keep_living(w, room, data, n - 1);
        let before = with_row_edges(w, room, data, n - 1);
        let row = n - 1;
        lemma_edge_keeps_living(before, room, data, ExitDirection::West, 0, row, -1i32, row as i32);
        let west = with_edge(before, room, data, ExitDirection::West, 0, row, -1i32, row as i32);
        lemma_edge_keeps_living(west, room, data, ExitDirection::East, 23, row, 24, row as i32);
    }
}

/// Making the edge entities of columns leaves every living entity as it
/// is.
pub proof fn lemma_column_edges_keep_living(w: WorldView, room: i32, data: RoomView, n: int)
    ensures
        keeps_living(w.entities, with_column_edges(w, room, data, n).entities),
    decreases n,
{
    if n > 1 {
        lemma_column_edges_keep_living(w, room, data, n - 1);
        let before = with_column_edges(w, room, data, n - 1);
        let col = n - 1;
        lemma_edge_keeps_living(before, room, data, ExitDirection::North, col, 0, col as i32, -1i32);
        let north = with_edge(before, room, data, ExitDirection::North, col, 0, col as i32, -1i32);
        lemma_edge_keeps_living(north, room, data, ExitDirection::South, col, 17, col as i32, 18);
    }
}

/// Replaying the items of an overlay leaves every living entity as it is.
pub proof fn lemma_items_keep_living(
    w: WorldView,
    catalogue: Seq<ItemView>,
    room: i32,
    items: Seq<DynamicItemView>,
    n: int,
)
    ensures
        keeps_living(w.entities, with_items(w, catalogue, room, items, n).entities),
    decreases n,
{
    if n > 0 {
        lemma_items_keep_living(w, catalogue, room, items, n - 1);
        let before = with_items(w, catalogue, room, items, n - 1);
        let item = items[n - 1];
        lemma_new_entity_keeps_living(
            before.entities,
            EntityView {
                marker: marker_for(before.next_marker),
                ..item_entity(
                    catalogue[item_index_by_name(catalogue, item.item, 0)],
                    room,
                    item.position.x,
                    item.position.y,
                )
            },
        );
    }
}

/// Replaying the description overrides of an overlay leaves every living
/// entity as it is.
pub proof fn lemma_descriptions_keep_living(
    w: WorldView,
    room: i32,
    descriptions: Seq<DynamicDescriptionView>,
    n: int,
)
    ensures
        keeps_living(w.entities, with_descriptions(w, room, descriptions, n).entities),
    decreases n,
{
    if n > 0 {
        lemma_descriptions_keep_living(w, room, descriptions, n - 1);
        let before = with_descriptions(w, room, descriptions, n - 1);
        lemma_new_entity_keeps_living(
            before.entities,
            EntityView {
                marker: marker_for(before.next_marker),
                ..description_entity(room, descriptions[n - 1].keyword, descriptions[n - 1].text)
            },
        );
    }
}

/// Replaying the enemies of an overlay leaves every living entity as it
/// is.
pub proof fn lemma_enemies_keep_living(
    w: WorldView,
    catalogue: Seq<EnemyView>,
    room: i32,
    enemies: Seq<DynamicEnemyView>,
    n: int,
)
    ensures
        keeps_living(w.entities, with_enemies(w, catalogue, room, enemies, n).entities),
    decreases n,
{
    if n > 0 {
        lemma_enemies_keep_living(w, catalogue, room, enemies, n - 1);
        let before = with_enemies(w, catalogue, room, enemies, n - 1);
        let enemy = enemies[n - 1];
        lemma_new_entity_keeps_living(
            before.entities,
            EntityView {
                marker: marker_for(before.next_marker),
                ..enemy_entity(
                    catalogue[enemy_index_by_name(catalogue, enemy.name, 0)],
                    room,
                    enemy.position.x,
                    enemy.position.y,
                    enemy.health,
                )
            },
        );
    }
}

/// After a change of room no entity of the old room is left, and every
/// entity that is part of no room, or of a third room, is as it was: the
/// player and whatever else does not belong to the room that was left.
pub proof fn lemma_room_change_spares_the_rest(w: WorldView, new_room: i32, old_room: i32)
    requires
        can_change_room(w, new_room, old_room),
    ensures
        new_room != old_room ==> room_is_vacant(
            with_room_change(w, new_room, old_room).entities,
            old_room,
        ),
        forall|i: int|
            0 <= i < w.entities.len() && (#[trigger] w.entities[i]).alive && !w.entities[i].in_room(
                old_room,
            ) ==> with_room_change(w, new_room, old_room).entities[i] == w.entities[i],
{
    let kept = crate::room::after_capture(w, old_room);
    let left = WorldView { entities: without_room(kept.entities, old_room), ..kept };
    let record = room_record(left, new_room);
    let overlay = left.dynamic_rooms[new_room as int];
    let built = with_room_entities(left, new_room, record);
    lemma_room_entities_keep_living(left, new_room, record);
    lemma_room_entities_not_gathered(left, new_room, record, is_none(), its_room());
    let itemed = with_items(built, built.items, new_room, overlay.items, overlay.items.len() as int);
    lemma_items_keep_living(built, built.items, new_room, overlay.items, overlay.items.len() as int);
    let told = with_descriptions(
        itemed,
        new_room,
        overlay.descriptions,
        overlay.descriptions.len() as int,
    );
    lemma_descriptions_keep_living(
        itemed,
        new_room,
        overlay.descriptions,
        overlay.descriptions.len() as int,
    );
    lemma_enemies_keep_living(
        told,
        built.enemies,
        new_room,
        overlay.enemies,
        overlay.enemies.len() as int,
    );
    let after = with_enemies(
        told,
        built.enemies,
        new_room,
        overlay.enemies,
        overlay.enemies.len() as int,
    );
    assert(after == with_room_change(w, new_room, old_room));
    assert forall|i: int|
        0 <= i < w.entities.len() && (#[trigger] w.entities[i]).alive && !w.entities[i].in_room(
            old_room,
        ) implies after.entities[i] == w.entities[i] by {
        assert(left.entities[i] == w.entities[i]);
        assert(built.entities[i] == left.entities[i]);
        assert(itemed.entities[i] == built.entities[i]);
        assert(told.entities[i] == itemed.entities[i]);
        assert(after.entities[i] == told.entities[i]);
    }
    if new_room != old_room {
        assert(room_is_vacant(left.entities, old_room));
        lemma_setup_keeps_vacant(left, new_room, record, old_room);
    }
}

/// A change of room takes no slot away from the store.
pub proof fn lemma_room_change_keeps_the_slots(w: WorldView, new_room: i32, old_room: i32)
    requires
        can_change_room(w, new_room, old_room),
    ensures
        w.entities.len() <= with_room_change(w, new_room, old_room).entities.len(),
{
    let kept = crate::room::after_capture(w, old_room);
    let left = WorldView { entities: without_room(kept.entities, old_room), ..kept };
    let record = room_record(left, new_room);
    let overlay = left.dynamic_rooms[new_room as int];
    let built = with_room_entities(left, new_room, record);
    lemma_room_entities_keep_living(left, new_room, record);
    lemma_room_entities_not_gathered(left, new_room, record, is_none(), its_room());
    let itemed = with_items(built, built.items, new_room, overlay.items, overlay.items.len() as int);
    lemma_items_keep_living(built, built.items, new_room, overlay.items, overlay.items.len() as int);
    let told = with_descriptions(
        itemed,
        new_room,
        overlay.descriptions,
        overlay.descriptions.len() as int,
    );
    lemma_descriptions_keep_living(
        itemed,
        new_room,
        overlay.descriptions,
        overlay.descriptions.len() as int,
    );
    lemma_enemies_keep_living(
        told,
        built.enemies,
        new_room,
        overlay.enemies,
        overlay.enemies.len() as int,
    );
}

/// How many entities of the store are part of a room.
pub open spec fn in_room_count(entities: Seq<EntityView>, room: i32) -> int {
    gather(entities, is_in_room(room), its_room(), entities.len() as int).len() as int
}

/// Whether an edge entity is made for a cell outside the grid, as a number:
/// one where the grid cell next to it holds no tile and the room has an
/// exit in the direction, otherwise none.
pub open spec fn edge_here(
    data: RoomView,
    direction: ExitDirection,
    inner_x: int,
    inner_y: int,
) -> int {
    if !crate::room::tile_at_cell(data.tiles, inner_x, inner_y) && crate::room::exit_towards(
        data.exits,
        direction,
    ) is Some {
        1
    } else {
        0
    }
}

/// The number of edge entities of the first `n` rows of a room.
pub open spec fn row_edge_count(data: RoomView, n: int) -> int
    decreases n,
{
    if n <= 0 {
        0
    } else {
        row_edge_count(data, n - 1) + edge_here(data, ExitDirection::West, 0, n - 1) + edge_here(
            data,
            ExitDirection::East,
            23,
            n - 1,
        )
    }
}

/// The number of edge entities of the inner columns of a room up to column
/// `n`.
pub open spec fn column_edge_count(data: RoomView, n: int) -> int
    decreases n,
{
    if n <= 1 {
        0
    } else {
        column_edge_count(data, n - 1) + edge_here(data, ExitDirection::North, n - 1, 0)
            + edge_here(data, ExitDirection::South, n - 1, 17)
    }
}

/// The number of entities that a room is made of when it is set up: one for
/// each tile, the edge entities of its 18 rows and of its inner columns,
/// and one for each item, description override and enemy of its overlay.
pub open spec fn room_size(data: RoomView, overlay: DynamicRoomView) -> int {
    data.tiles.len() + row_edge_count(data, 18) + column_edge_count(data, 23) + overlay.items.len()
        + overlay.descriptions.len() + overlay.enemies.len()
}

/// An entity of a room that is made is one more entity of the room.
pub proof fn lemma_one_more_in_room(entities: Seq<EntityView>, data: EntityView, room: i32)
    requires
        kept_before_free(entities, is_in_room(room)),
        data.belongs_to_room == Some(crate::room::BelongsToRoom { room }),
    ensures
        in_room_count(crate::store::with_entity(entities, data), room) == in_room_count(
            entities,
            room,
        ) + 1,
        kept_before_free(crate::store::with_entity(entities, data), is_in_room(room)),
{
    assert(looks_at_components(is_in_room(room), its_room()));
    lemma_gather_new_entity(entities, data, is_in_room(room), its_room());
}

/// The entities of `n` tiles are `n` more entities of the room.
pub proof fn lemma_tiles_counted(w: WorldView, room: i32, data: RoomView, n: int)
    requires
        0 <= n <= data.tiles.len(),
        kept_before_free(w.entities, is_in_room(room)),
    ensures
        in_room_count(with_tiles(w, room, data, n).entities, room) == in_room_count(
            w.entities,
            room,
        ) + n,
        kept_before_free(with_tiles(w, room, data, n).entities, is_in_room(room)),
    decreases n,
{
    if n > 0 {
        lemma_tiles_counted(w, room, data, n - 1);
        lemma_one_more_in_room(
            with_tiles(w, room, data, n - 1).entities,
            tile_entity(data.exits, room, data.tiles[n - 1]),
            room,
        );
    }
}

/// An edge entity, where one is made, is one more entity of the room.
pub proof fn lemma_edge_counted(
    w: WorldView,
    room: i32,
    data: RoomView,
    direction: ExitDirection,
    inner_x: int,
    inner_y: int,
    x: i32,
    y: i32,
)
    requires
        kept_before_free(w.entities, is_in_room(room)),
    ensures
        in_room_count(
            with_edge(w, room, data, direction, inner_x, inner_y, x, y).entities,
            room,
        ) == in_room_count(w.entities, room) + edge_here(data, direction, inner_x, inner_y),
        kept_before_free(
            with_edge(w, room, data, direction, inner_x, inner_y, x, y).entities,
            is_in_room(room),
        ),
{
    if edge_here(data, direction, inner_x, inner_y) == 1 {
        let exit = crate::room::exit_towards(data.exits, direction)->0;
        lemma_one_more_in_room(w.entities, edge_entity(room, x, y, exit), room);
    }
}

/// The edge entities of rows are so many more entities of the room.
pub proof fn lemma_row_edges_counted(w: WorldView, room: i32, data: RoomView, n: int)
    requires
        0 <= n,
        kept_before_free(w.entities, is_in_room(room)),
    ensures
        in_room_count(with_row_edges(w, room, data, n).entities, room) == in_room_count(
            w.entities,
            room,
        ) + row_edge_count(data, n),
        kept_before_free(with_row_edges(w, room, data, n).entities, is_in_room(room)),
    decreases n,
{
    if n > 0 {
        lemma_row_edges_counted(w, room, data, n - 1);
        let before = with_row_edges(w, room, data, n - 1);
        let row = n - 1;
        lemma_edge_counted(before, room, data, ExitDirection::West, 0, row, -1i32, row as i32);
        let west = with_edge(before, room, data, ExitDirection::West, 0, row, -1i32, row as i32);
        lemma_edge_counted(west, room, data, ExitDirection::East, 23, row, 24, row as i32);
    }
}

/// The edge entities of columns are so many more entities of the room.
pub proof fn lemma_column_edges_counted(w: WorldView, room: i32, data: RoomView, n: int)
    requires
        0 <= n,
        kept_before_free(w.entities, is_in_room(room)),
    ensures
        in_room_count(with_column_edges(w, room, data, n).entities, room) == in_room_count(
            w.entities,
            room,
        ) + column_edge_count(data, n),
        kept_before_free(with_column_edges(w, room, data, n).entities, is_in_room(room)),
    decreases n,
{
    if n > 1 {
        lemma_column_edges_counted(w, room, data, n - 1);
        let before = with_column_edges(w, room, data, n - 1);
        let col = n - 1;
        lemma_edge_counted(before, room, data, ExitDirection::North, col, 0, col as i32, -1i32);
        let north = with_edge(before, room, data, ExitDirection::North, col, 0, col as i32, -1i32);
        lemma_edge_counted(north, room, data, ExitDirection::South, col, 17, col as i32, 18);
    }
}

/// The entities of `n` items of an overlay are `n` more entities of the
/// room.
pub proof fn lemma_items_counted(
    w: WorldView,
    catalogue: Seq<ItemView>,
    room: i32,
    items: Seq<DynamicItemView>,
    n: int,
)
    requires
        0 <= n <= items.len(),
        kept_before_free(w.entities, is_in_room(room)),
    ensures
        in_room_count(with_items(w, catalogue, room, items, n).entities, room) == in_room_count(
            w.entities,
            room,
        ) + n,
        kept_before_free(with_items(w, catalogue, room, items, n).entities, is_in_room(room)),
    decreases n,
{
    if n > 0 {
        lemma_items_counted(w, catalogue, room, items, n - 1);
        let before = with_items(w, catalogue, room, items, n - 1);
        let item = items[n - 1];
        lemma_one_more_in_room(
            before.entities,
            EntityView {
                marker: marker_for(before.next_marker),
                ..item_entity(
                    catalogue[item_index_by_name(catalogue, item.item, 0)],
                    room,
                    item.position.x,
                    item.position.y,
                )
            },
            room,
        );
    }
}

/// The entities of `n` description overrides of an overlay are `n` more
/// entities of the room.
pub proof fn lemma_descriptions_counted(
    w: WorldView,
    room: i32,
    descriptions: Seq<DynamicDescriptionView>,
    n: int,
)
    requires
        0 <= n <= descriptions.len(),
        kept_before_free(w.entities, is_in_room(room)),
    ensures
        in_room_count(with_descriptions(w, room, descriptions, n).entities, room)
            == in_room_count(w.entities, room) + n,
        kept_before_free(with_descriptions(w, room, descriptions, n).entities, is_in_room(room)),
    decreases n,
{
    if n > 0 {
        lemma_descriptions_counted(w, room, descriptions, n - 1);
        let before = with_descriptions(w, room, descriptions, n - 1);
        lemma_one_more_in_room(
            before.entities,
            EntityView {
                marker: marker_for(before.next_marker),
                ..description_entity(room, descriptions[n - 1].keyword, descriptions[n - 1].text)
            },
            room,
        );
    }
}

/// The entities of `n` enemies of an overlay are `n` more entities of the
/// room.
pub proof fn lemma_enemies_counted(
    w: WorldView,
    catalogue: Seq<EnemyView>,
    room: i32,
    enemies: Seq<DynamicEnemyView>,
    n: int,
)
    requires
        0 <= n <= enemies.len(),
        kept_before_free(w.entities, is_in_room(room)),
    ensures
        in_room_count(with_enemies(w, catalogue, room, enemies, n).entities, room)
            == in_room_count(w.entities, room) + n,
        kept_before_free(with_enemies(w, catalogue, room, enemies, n).entities, is_in_room(room)),
    decreases n,
{
    if n > 0 {
        lemma_enemies_counted(w, catalogue, room, enemies, n - 1);
        let before = with_enemies(w, catalogue, room, enemies, n - 1);
        let enemy = enemies[n - 1];
        lemma_one_more_in_room(
            before.entities,
            EntityView {
                marker: marker_for(before.next_marker),
                ..enemy_entity(
                    catalogue[enemy_index_by_name(catalogue, enemy.name, 0)],
                    room,
                    enemy.position.x,
                    enemy.position.y,
                    enemy.health,
                )
            },
            room,
        );
    }
}

/// After a change of room, the entities of the new room are exactly those
/// that the room is made of: one for each tile of its record, its edge
/// entities, and one for each item, description override and enemy of its
/// overlay. This holds where no entity of the new room was left over from
/// before, or the room is set up anew.
pub proof fn lemma_room_is_set_up_in_full(w: WorldView, new_room: i32, old_room: i32)
    requires
        can_change_room(w, new_room, old_room),
        new_room == old_room || room_is_vacant(w.entities, new_room),
    ensures
        ({
            let kept = crate::room::after_capture(w, old_room);
            in_room_count(with_room_change(w, new_room, old_room).entities, new_room) == room_size(
                room_record(kept, new_room),
                kept.dynamic_rooms[new_room as int],
            )
        }),
{
    let kept = crate::room::after_capture(w, old_room);
    let left = WorldView { entities: without_room(kept.entities, old_room), ..kept };
    let record = room_record(left, new_room);
    let overlay = left.dynamic_rooms[new_room as int];
    let keep = is_in_room(new_room);
    assert(room_is_vacant(left.entities, new_room)) by {
        assert forall|i: int| 0 <= i < left.entities.len() implies !(
        #[trigger] left.entities[i]).in_room(new_room) by {
            assert(kept.entities[i] == w.entities[i]);
        }
    }
    lemma_gather_skips(left.entities, keep, its_room(), 0, left.entities.len() as int);
    assert(in_room_count(left.entities, new_room) == 0);
    lemma_tiles_counted(left, new_room, record, record.tiles.len() as int);
    let tiled = with_tiles(left, new_room, record, record.tiles.len() as int);
    lemma_row_edges_counted(tiled, new_room, record, 18);
    let rowed = with_row_edges(tiled, new_room, record, 18);
    lemma_column_edges_counted(rowed, new_room, record, 23);
    let built = with_room_entities(left, new_room, record);
    lemma_room_entities_not_gathered(left, new_room, record, is_none(), its_room());
    lemma_items_counted(built, built.items, new_room, overlay.items, overlay.items.len() as int);
    let itemed = with_items(built, built.items, new_room, overlay.items, overlay.items.len() as int);
    lemma_descriptions_counted(
        itemed,
        new_room,
        overlay.descriptions,
        overlay.descriptions.len() as int,
    );
    let told = with_descriptions(
        itemed,
        new_room,
        overlay.descriptions,
        overlay.descriptions.len() as int,
    );
    lemma_enemies_counted(
        told,
        built.enemies,
        new_room,
        overlay.enemies,
        overlay.enemies.len() as int,
    );
}

} // verus!
