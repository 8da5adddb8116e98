//! Rooms: the static record of each room, and the entities a room is made of.

use crate::components::{ColliderComponent, Position};
use crate::render::{cp437_index, grey, Color, Renderable};
use crate::store::{views_of, EntityRecord, EntityView};
use crate::world::{same_tables, RoomRedirection, World, WorldView};
use vstd::prelude::*;

pub mod dynamic_rooms;
pub mod map_file;
pub mod round_trip;

pub use dynamic_rooms::{
    apply_room_overrides, can_capture, can_replay, capture, capture_ready, create_description,
    create_dynamic_room_entities, find_room, get_dynamic_room_data, load_dynamic_rooms,
    replay_ready, room_from_override, update_dynamic_room, with_capture, with_overlay, with_replay,
    DynamicActionData, DynamicDescriptionData, DynamicDescriptionView, DynamicEnemy,
    DynamicEnemyView, DynamicItemData, DynamicItemView, DynamicPosition, DynamicRoomData,
    DynamicRoomView, StaticRoomOverride, StaticRoomOverrideView,
};

pub use map_file::{
    decode_description, decode_room, decode_rooms, decode_tiles, get_tile_data_from_ascii_char,
    map_ascii_to_char, map_ascii_to_collision, parse_exits, MapError,
};

verus! {

/// The way an exit leads. A direction letter that names none of the six is
/// kept as `Invalid`.
#[derive(Debug, Copy, Clone, PartialEq, Eq, Structural)]
pub enum ExitDirection {
    Invalid,
    North,
    South,
    East,
    West,
    Up,
    Down,
}

/// Whether a tile blocks movement.
#[derive(Debug, Copy, Clone, PartialEq, Eq, Structural)]
pub enum Collision {
    Enabled,
    Disabled,
}

/// One tile of a room's fixed geometry.
#[derive(Debug, Copy, Clone, PartialEq, Eq, Structural)]
pub struct TileData {
    pub glyph: char,
    pub collision: Collision,
    pub x: i32,
    pub y: i32,
}

/// One exit of a room: the direction of travel and the room it leads to.
#[derive(Debug, Copy, Clone, PartialEq, Eq, Structural)]
pub struct ExitData {
    pub direction: ExitDirection,
    pub to_room: i32,
}

/// The fixed record of one room: its tiles, its description lines and its
/// exits.
#[derive(Debug)]
pub struct RoomData {
    pub tiles: Vec<TileData>,
    pub description: Vec<String>,
    pub exits: Vec<ExitData>,
}

/// What a [`RoomData`] holds, as plain sequences.
pub struct RoomView {
    pub tiles: Seq<TileData>,
    pub description: Seq<Seq<char>>,
    pub exits: Seq<ExitData>,
}

impl View for RoomData {
    type V = RoomView;

    open spec fn view(&self) -> RoomView {
        RoomView {
            tiles: self.tiles@,
            description: self.description@.map_values(|s: String| s@),
            exits: self.exits@,
        }
    }
}

impl Clone for RoomData {
    fn clone(&self) -> (r: Self)
        ensures
            r@ == self@,
    {
        let mut new = Self::new();
        let mut i: usize = 0;
        while i < self.tiles.len()
            invariant
                i <= self.tiles.len(),
                new.tiles@ == self.tiles@.take(i as int),
                new.description@.len() == 0,
                new.exits@.len() == 0,
            decreases self.tiles.len() - i,
        {
            new.tiles.push(self.tiles[i]);
            assert(self.tiles@.take(i + 1) =~= self.tiles@.take(i as int).push(self.tiles@[i as int]));
            i += 1;
        }
        assert(self.tiles@.take(i as int) =~= self.tiles@);
        let mut j: usize = 0;
        while j < self.description.len()
            invariant
                j <= self.description.len(),
                new.tiles@ == self.tiles@,
                new.description@ == self.description@.take(j as int),
                new.exits@.len() == 0,
            decreases self.description.len() - j,
        {
            new.description.push(self.description[j].clone());
            assert(self.description@.take(j + 1) =~= self.description@.take(j as int).push(
                self.description@[j as int],
            ));
            j += 1;
        }
        assert(self.description@.take(j as int) =~= self.description@);
        let mut k: usize = 0;
        while k < self.exits.len()
            invariant
                k <= self.exits.len(),
                new.tiles@ == self.tiles@,
                new.description@ == self.description@,
                new.exits@ == self.exits@.take(k as int),
            decreases self.exits.len() - k,
        {
            new.exits.push(self.exits[k]);
            assert(self.exits@.take(k + 1) =~= self.exits@.take(k as int).push(self.exits@[k as int]));
            k += 1;
        }
        assert(self.exits@.take(k as int) =~= self.exits@);
        new
    }
}

/// Names the room that an entity is part of. The entity goes when the room
/// is left.
#[derive(Debug, Copy, Clone, PartialEq, Eq, Structural)]
pub struct BelongsToRoom {
    pub room: i32,
}

/// Marks a cell that leads to another room.
#[derive(Debug, Copy, Clone, PartialEq, Eq, Structural)]
pub struct ExitTrigger {
    pub from_direction: ExitDirection,
    pub to_room: i32,
}

impl ExitTrigger {
    /// An exit trigger.
    pub fn new(from_direction: ExitDirection, to_room: i32) -> (r: Self)
        ensures
            r == (ExitTrigger { from_direction, to_room }),
    {
        Self { from_direction, to_room }
    }
}

impl RoomData {
    /// A room without tiles, description or exits.
    pub fn new() -> (r: Self)
        ensures
            r@.tiles.len() == 0,
            r@.description.len() == 0,
            r@.exits.len() == 0,
            r.tiles@.len() == 0,
            r.description@.len() == 0,
            r.exits@.len() == 0,
    {
        Self { tiles: Vec::new(), description: Vec::new(), exits: Vec::new() }
    }
}

/// Tells whether one of the tiles stands at `(x, y)`.
pub open spec fn tile_at_cell(tiles: Seq<TileData>, x: int, y: int) -> bool {
    exists|k: int| 0 <= k < tiles.len() && (#[trigger] tiles[k]).x == x && tiles[k].y == y
}

/// Tells whether one of the tiles stands at `(x, y)`.
pub fn is_tile_at(x: i32, y: i32, tiles: &Vec<TileData>) -> (r: bool)
    ensures
        r == tile_at_cell(tiles@, x as int, y as int),
{
    let mut k: usize = 0;
    while k < tiles.len()
        invariant
            k <= tiles.len(),
            forall|j: int| 0 <= j < k ==> !((#[trigger] tiles@[j]).x == x && tiles@[j].y == y),
        decreases tiles.len() - k,
    {
        if tiles[k].x == x && tiles[k].y == y {
            return true;
        }
        k += 1;
    }
    false
}

/// The index of the first exit from `from` on that leads in the given
/// direction, or the number of exits where there is none.
pub open spec fn exit_index(exits: Seq<ExitData>, direction: ExitDirection, from: int) -> int
    decreases exits.len() - from,
{
    if from < 0 || from >= exits.len() {
        exits.len() as int
    } else if exits[from].direction == direction {
        from
    } else {
        exit_index(exits, direction, from + 1)
    }
}

/// The exit of a room that leads in the given direction: the first one of
/// the exit list.
pub open spec fn exit_towards(exits: Seq<ExitData>, direction: ExitDirection) -> Option<ExitData> {
    let index = exit_index(exits, direction, 0);
    if index < exits.len() {
        Some(exits[index])
    } else {
        None
    }
}

/// Finds the exit that leads in the given direction.
pub fn find_exit_data(direction: ExitDirection, exit_datas: &Vec<ExitData>) -> (r: Option<ExitData>)
    ensures
        r == exit_towards(exit_datas@, direction),
{
    let mut i: usize = 0;
    while i < exit_datas.len()
        invariant
            i <= exit_datas.len(),
            exit_index(exit_datas@, direction, 0) == exit_index(exit_datas@, direction, i as int),
        decreases exit_datas.len() - i,
    {
        if exit_datas[i].direction == direction {
            return Some(exit_datas[i]);
        }
        i += 1;
    }
    None
}

/// The exit that a tile stands for: a tile drawn as `U` is the room's way
/// up, a tile drawn as `D` its way down.
pub open spec fn tile_exit(exits: Seq<ExitData>, tile: TileData) -> Option<ExitData> {
    if tile.glyph == 'U' {
        exit_towards(exits, ExitDirection::Up)
    } else if tile.glyph == 'D' {
        exit_towards(exits, ExitDirection::Down)
    } else {
        None
    }
}

/// Finds the exit that a tile stands for.
pub fn exit_data_for_tile(room_data: &RoomData, tile: &TileData) -> (r: Option<ExitData>)
    ensures
        r == tile_exit(room_data@.exits, *tile),
{
    match tile.glyph {
        'U' => find_exit_data(ExitDirection::Up, &room_data.exits),
        'D' => find_exit_data(ExitDirection::Down, &room_data.exits),
        _ => None,
    }
}

/// The trigger that fires when an exit is walked onto.
pub open spec fn trigger_of(exit: Option<ExitData>) -> Option<ExitTrigger> {
    match exit {
        Some(e) => Some(ExitTrigger { from_direction: e.direction, to_room: e.to_room }),
        None => None,
    }
}

/// The entity that a tile of a room is: it stands at the tile's cell, is
/// drawn with the tile's glyph, blocks its cell where the tile does, fires
/// the exit that the tile stands for, and belongs to the room.
pub open spec fn tile_entity(exits: Seq<ExitData>, room: i32, tile: TileData) -> EntityView {
    EntityView {
        position: Some(Position { x: tile.x, y: tile.y }),
        renderable: Some(
            Renderable {
                glyph: cp437_index(tile.glyph),
                color: Color { r: 190, g: 190, b: 190 },
                zorder: 0,
            },
        ),
        collider: if tile.collision == Collision::Enabled {
            Some(ColliderComponent {  })
        } else {
            None
        },
        exit_trigger: trigger_of(tile_exit(exits, tile)),
        belongs_to_room: Some(BelongsToRoom { room }),
        ..EntityView::vacant(0)
    }
}

/// The entity that stands just outside the grid where a room is open
/// towards an exit: it is not drawn, fires the exit, and belongs to the
/// room.
pub open spec fn edge_entity(room: i32, x: i32, y: i32, exit: ExitData) -> EntityView {
    EntityView {
        position: Some(Position { x, y }),
        exit_trigger: Some(ExitTrigger { from_direction: exit.direction, to_room: exit.to_room }),
        belongs_to_room: Some(BelongsToRoom { room }),
        ..EntityView::vacant(0)
    }
}

/// The world with the entities of the first `n` tiles of a room.
pub open spec fn with_tiles(w: WorldView, room: i32, data: RoomView, n: int) -> WorldView
    decreases n,
{
    if n <= 0 {
        w
    } else {
        with_tiles(w, room, data, n - 1).spawn(tile_entity(data.exits, room, data.tiles[n - 1]))
    }
}

/// The world with the edge entity for the cell `(x, y)` outside the grid,
/// where the grid cell `(inner_x, inner_y)` next to it holds no tile and the
/// room has an exit in the given direction.
pub open spec fn with_edge(
    w: WorldView,
    room: i32,
    data: RoomView,
    direction: ExitDirection,
    inner_x: int,
    inner_y: int,
    x: i32,
    y: i32,
) -> WorldView {
    if tile_at_cell(data.tiles, inner_x, inner_y) {
        w
    } else {
        match exit_towards(data.exits, direction) {
            Some(exit) => w.spawn(edge_entity(room, x, y, exit)),
            None => w,
        }
    }
}

/// The world with the edge entities of the first `n` rows of a room: for
/// each row the one to the west, then the one to the east.
pub open spec fn with_row_edges(w: WorldView, room: i32, data: RoomView, n: int) -> WorldView
    decreases n,
{
    if n <= 0 {
        w
    } else {
        let row = n - 1;
        let west = with_edge(
            with_row_edges(w, room, data, n - 1),
            room,
            data,
            ExitDirection::West,
            0,
            row,
            -1i32,
            row as i32,
        );
        with_edge(west, room, data, ExitDirection::East, 23, row, 24, row as i32)
    }
}

/// The world with the edge entities of the inner columns of a room up to
/// column `n`: for each column the one to the north, then the one to the
/// south.
pub open spec fn with_column_edges(w: WorldView, room: i32, data: RoomView, n: int) -> WorldView
    decreases n,
{
    if n <= 1 {
        w
    } else {
        let col = n - 1;
        let north = with_edge(
            with_column_edges(w, room, data, n - 1),
            room,
            data,
            ExitDirection::North,
            col,
            0,
            col as i32,
            -1i32,
        );
        with_edge(north, room, data, ExitDirection::South, col, 17, col as i32, 18)
    }
}

/// The world with the entities of a room's fixed geometry: one for each
/// tile, then the edge entities of all 18 rows, then those of the inner
/// columns 1 to 22.
pub open spec fn with_room_entities(w: WorldView, room: i32, data: RoomView) -> WorldView {
    with_column_edges(
        with_row_edges(with_tiles(w, room, data, data.tiles.len() as int), room, data, 18),
        room,
        data,
        23,
    )
}

/// Makes the edge entity of one cell outside the grid.
pub fn create_edge_exit_entity(
    world: &mut World,
    room: i32,
    x: i32,
    y: i32,
    direction: ExitDirection,
    to_room: i32,
)
    ensures
        final(world)@ == old(world)@.spawn(
            edge_entity(room, x, y, ExitData { direction, to_room }),
        ),
{
    let mut record = EntityRecord::new();
    record.position = Some(Position { x, y });
    record.exit_trigger = Some(ExitTrigger::new(direction, to_room));
    record.belongs_to_room = Some(BelongsToRoom { room });
    world.create_entity(record);
}

/// Makes the edge entity for the cell `(x, y)` outside the grid, where the
/// grid cell next to it holds no tile and the room has an exit in the given
/// direction.
fn create_edge(
    world: &mut World,
    room: i32,
    room_data: &RoomData,
    direction: ExitDirection,
    inner_x: i32,
    inner_y: i32,
    x: i32,
    y: i32,
)
    ensures
        final(world)@ == with_edge(
            old(world)@,
            room,
            room_data@,
            direction,
            inner_x as int,
            inner_y as int,
            x,
            y,
        ),
        same_tables(old(world)@, final(world)@),
{
    if !is_tile_at(inner_x, inner_y, &room_data.tiles) {
        match find_exit_data(direction, &room_data.exits) {
            Some(exit_data) => {
                create_edge_exit_entity(world, room, x, y, exit_data.direction, exit_data.to_room);
            },
            None => {},
        }
    }
}

/// Makes the entities of a room's fixed geometry.
pub fn create_room_entities(world: &mut World, room: i32, room_data: &RoomData)
    ensures
        final(world)@ == with_room_entities(old(world)@, room, room_data@),
        same_tables(old(world)@, final(world)@),
{
    let ghost start = world@;
    let ghost data = room_data@;
    let mut i: usize = 0;
    while i < room_data.tiles.len()
        invariant
            i <= room_data.tiles.len(),
            data == room_data@,
            same_tables(start, world@),
            world@ == with_tiles(start, room, data, i as int),
        decreases room_data.tiles.len() - i,
    {
        let tile = room_data.tiles[i];
        let mut record = EntityRecord::new();
        record.position = Some(Position { x: tile.x, y: tile.y });
        record.renderable = Some(Renderable::new(tile.glyph, grey()));
        if tile.collision == Collision::Enabled {
            record.collider = Some(ColliderComponent {  });
        }
        match exit_data_for_tile(room_data, &tile) {
            Some(exit_data) => {
                record.exit_trigger = Some(ExitTrigger::new(exit_data.direction, exit_data.to_room));
            },
            None => {},
        }
        record.belongs_to_room = Some(BelongsToRoom { room });
        world.create_entity(record);
        i += 1;
    }
    let ghost tiled = world@;
    let mut row: i32 = 0;
    while row < 18
        invariant
            0 <= row <= 18,
            data == room_data@,
            same_tables(start, world@),
            world@ == with_row_edges(tiled, room, data, row as int),
        decreases 18 - row,
    {
        create_edge(world, room, room_data, ExitDirection::West, 0, row, -1, row);
        create_edge(world, room, room_data, ExitDirection::East, 23, row, 24, row);
        row += 1;
    }
    let ghost rowed = world@;
    let mut col: i32 = 1;
    while col < 23
        invariant
            1 <= col <= 23,
            data == room_data@,
            same_tables(start, world@),
            world@ == with_column_edges(rowed, room, data, col as int),
        decreases 23 - col,
    {
        create_edge(world, room, room_data, ExitDirection::North, col, 0, col, -1);
        create_edge(world, room, room_data, ExitDirection::South, col, 17, col, 18);
        col += 1;
    }
}

/// The room whose record stands for a room: the target of the latest
/// redirection of the room among the first `n`, and the room itself where
/// there is none.
pub open spec fn redirected_upto(redirections: Seq<RoomRedirection>, room: i32, n: int) -> i32
    decreases n,
{
    if n <= 0 {
        room
    } else if redirections[n - 1].original_room == room {
        redirections[n - 1].new_room
    } else {
        redirected_upto(redirections, room, n - 1)
    }
}

/// The room whose record stands for a room.
pub open spec fn redirected(redirections: Seq<RoomRedirection>, room: i32) -> i32 {
    redirected_upto(redirections, room, redirections.len() as int)
}

/// Tells whether a room has a record: the room that stands for it has a
/// place in the room table.
pub open spec fn room_known(w: WorldView, room: i32) -> bool {
    0 <= redirected(w.redirections, room) < w.rooms.len()
}

/// The record of a room.
pub open spec fn room_record(w: WorldView, room: i32) -> RoomView {
    w.rooms[redirected(w.redirections, room) as int]
}

/// Makes the record of `new_room` stand for `original_room` from now on.
pub fn add_room_redirection(world: &mut World, original_room: i32, new_room: i32)
    ensures
        final(world)@ == (WorldView {
            redirections: old(world)@.redirections.push(RoomRedirection { original_room, new_room }),
            ..old(world)@
        }),
        redirected(final(world)@.redirections, original_room) == new_room,
{
    world.redirections.push(RoomRedirection { original_room, new_room });
}

/// The room whose record stands for a room.
pub fn resolve_room(world: &World, room: i32) -> (r: i32)
    ensures
        r == redirected(world@.redirections, room),
{
    let mut n = world.redirections.len();
    while n > 0
        invariant
            n <= world.redirections.len(),
            redirected(world@.redirections, room) == redirected_upto(
                world@.redirections,
                room,
                n as int,
            ),
        decreases n,
    {
        if world.redirections[n - 1].original_room == room {
            return world.redirections[n - 1].new_room;
        }
        n -= 1;
    }
    room
}

/// Tells whether a room has a record.
pub fn has_room_data(world: &World, room: i32) -> (r: bool)
    ensures
        r == room_known(world@, room),
{
    let target = resolve_room(world, room);
    0 <= target && (target as usize) < world.rooms.len()
}

/// The record of a room, copied out of the room table.
pub fn get_room_data(world: &World, room: i32) -> (r: RoomData)
    requires
        room_known(world@, room),
    ensures
        r@ == room_record(world@, room),
{
    let target = resolve_room(world, room);
    world.rooms[target as usize].clone()
}

/// The store without the entities of a room: the slot of each is vacant and
/// keeps its generation.
pub open spec fn without_room(entities: Seq<EntityView>, room: i32) -> Seq<EntityView> {
    Seq::new(
        entities.len(),
        |i: int|
            if entities[i].in_room(room) {
                EntityView::vacant(entities[i].generation)
            } else {
                entities[i]
            },
    )
}

/// Deletes every entity of a room.
pub fn remove_room_entities(world: &mut World, room: i32)
    ensures
        final(world)@ == (WorldView {
            entities: without_room(old(world)@.entities, room),
            ..old(world)@
        }),
{
    let ghost initial = views_of(world.slots@);
    let n = world.slots.len();
    let mut i: usize = 0;
    while i < n
        invariant
            i <= n,
            n == world.slots@.len(),
            n == initial.len(),
            *world == (World { slots: world.slots, ..*old(world) }),
            forall|k: int|
                0 <= k < i ==> #[trigger] views_of(world.slots@)[k] == without_room(initial, room)[k],
            forall|k: int| i <= k < n ==> #[trigger] views_of(world.slots@)[k] == initial[k],
        decreases n - i,
    {
        let ghost before = views_of(world.slots@);
        assert(before[i as int] == initial[i as int]);
        let in_room = world.slots[i].alive && match world.slots[i].belongs_to_room {
            Some(owner) => owner.room == room,
            None => false,
        };
        if in_room {
            let mut record = EntityRecord::new();
            record.generation = world.slots[i].generation;
            assert(record@ == EntityView::vacant(initial[i as int].generation));
            world.slots[i] = record;
            assert(views_of(world.slots@) =~= before.update(
                i as int,
                EntityView::vacant(initial[i as int].generation),
            ));
        }
        i += 1;
    }
    assert(views_of(world.slots@) =~= without_room(initial, room));
}

/// The world after the overlay of the room that is left has been captured,
/// where there is such a room.
pub open spec fn after_capture(w: WorldView, old_room: i32) -> WorldView {
    if old_room >= 0 {
        with_capture(w, old_room)
    } else {
        w
    }
}

/// The world after `old_room` has been cleared and `new_room` has been set
/// up: the entities of the old room are gone; the entities of the new
/// room's record are made, and its overlay is replayed.
pub open spec fn with_room_entered(w: WorldView, new_room: i32, old_room: i32) -> WorldView {
    let cleared = WorldView { entities: without_room(w.entities, old_room), ..w };
    with_replay(with_room_entities(cleared, new_room, room_record(cleared, new_room)), new_room)
}

/// The world after a change of room: the overlay of the old room is
/// captured, the old room is cleared, and the new room is set up.
pub open spec fn with_room_change(w: WorldView, new_room: i32, old_room: i32) -> WorldView {
    with_room_entered(after_capture(w, old_room), new_room, old_room)
}

/// Tells whether the new room can be set up: it has a record, and its
/// overlay can be replayed.
pub open spec fn can_enter_room(w: WorldView, new_room: i32) -> bool {
    room_known(w, new_room) && can_replay(w, new_room)
}

/// Tells whether the room can be changed: the overlay of the old room, if
/// there is one, can be captured, and after that the new room can be set
/// up.
pub open spec fn can_change_room(w: WorldView, new_room: i32, old_room: i32) -> bool {
    &&& old_room >= 0 ==> can_capture(w, old_room)
    &&& can_enter_room(after_capture(w, old_room), new_room)
}

/// Clears the old room and sets up the new one.
pub fn enter_room(world: &mut World, new_room: i32, old_room: i32)
    requires
        can_enter_room(old(world)@, new_room),
    ensures
        final(world)@ == with_room_entered(old(world)@, new_room, old_room),
{
    remove_room_entities(world, old_room);
    let room_data = get_room_data(world, new_room);
    create_room_entities(world, new_room, &room_data);
    create_dynamic_room_entities(world, new_room);
}

/// Changes the room: captures the overlay of the old room, deletes the
/// entities of the old room, makes the entities of the new room's record,
/// and replays the overlay of the new room. An `old_room` below zero stands
/// for no room.
pub fn change_room(world: &mut World, new_room: i32, old_room: i32)
    requires
        can_change_room(old(world)@, new_room, old_room),
    ensures
        final(world)@ == with_room_change(old(world)@, new_room, old_room),
{
    if old_room >= 0 {
        update_dynamic_room(world, old_room);
    }
    enter_room(world, new_room, old_room);
}

/// Why the room could not be changed.
#[derive(Debug, Copy, Clone, PartialEq, Eq, Structural)]
pub enum RoomChangeError {
    /// The overlay of the old room cannot be captured.
    CannotCapture,
    /// The new room cannot be set up.
    CannotEnter,
}

/// Why the room cannot be changed, if it cannot.
pub open spec fn room_change_error(w: WorldView, new_room: i32, old_room: i32) -> Option<
    RoomChangeError,
> {
    if old_room >= 0 && !can_capture(w, old_room) {
        Some(RoomChangeError::CannotCapture)
    } else if !can_enter_room(after_capture(w, old_room), new_room) {
        Some(RoomChangeError::CannotEnter)
    } else {
        None
    }
}

/// The world after an attempt to change the room: the room is changed
/// where that is possible. Where the overlay of the old room cannot be
/// captured, nothing changes; where the new room cannot be set up, the
/// overlay of the old room is captured and nothing else changes.
pub open spec fn after_room_change(w: WorldView, new_room: i32, old_room: i32) -> WorldView {
    match room_change_error(w, new_room, old_room) {
        None => with_room_change(w, new_room, old_room),
        Some(RoomChangeError::CannotCapture) => w,
        Some(RoomChangeError::CannotEnter) => after_capture(w, old_room),
    }
}

/// Changes the room where that is possible, and tells why where it is not.
pub fn try_change_room(world: &mut World, new_room: i32, old_room: i32) -> (r: Result<
    (),
    RoomChangeError,
>)
    ensures
        final(world)@ == after_room_change(old(world)@, new_room, old_room),
        r == match room_change_error(old(world)@, new_room, old_room) {
            None => Ok::<(), RoomChangeError>(()),
            Some(e) => Err::<(), RoomChangeError>(e),
        },
        r is Ok <==> can_change_room(old(world)@, new_room, old_room),
{
    if old_room >= 0 {
        if !capture_ready(world, old_room) {
            return Err(RoomChangeError::CannotCapture);
        }
        update_dynamic_room(world, old_room);
    }
    if !has_room_data(world, new_room) || !replay_ready(world, new_room) {
        return Err(RoomChangeError::CannotEnter);
    }
    enter_room(world, new_room, old_room);
    Ok(())
}

/// Loads the room table from the data of a map file: the records of the 83
/// rooms of the world. The data has to hold all 83 records, and each has to
/// decode: the world cannot begin without its rooms. [`decode_rooms`] tells
/// whether that is so.
pub fn load_rooms(world: &mut World, data: &[u8])
    requires
        83 * 575 <= data@.len(),
        map_file::records_decode(data@, 83),
    ensures
        final(world)@ == (WorldView {
            rooms: Seq::new(
                83,
                |index: int| map_file::decode_room_spec(map_file::record_at(data@, index))->Ok_0,
            ),
            ..old(world)@
        }),
{
    match decode_rooms(data, 83) {
        Ok(rooms) => {
            assert(views_of(rooms@) =~= Seq::new(
                83,
                |index: int| map_file::decode_room_spec(map_file::record_at(data@, index))->Ok_0,
            ));
            world.rooms = rooms;
        },
        Err(_) => {
            assert(false);
        },
    }
}

} // verus!
