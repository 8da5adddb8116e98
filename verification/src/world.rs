//! The world: the entity store together with the tables that the stages of
//! a tick read and write.

use crate::enemies::{EnemyData, EnemyView};
use crate::game::{CurrentRoom, DynamicMarker};
use crate::items::{ItemData, ItemView};
use crate::room::{DynamicRoomData, DynamicRoomView, RoomData, RoomView};
use crate::state::{StateAction, StateActionView};
use crate::store::{
    create_entity, delete_entity, entity_at, handle_at, is_alive, lemma_first_free, new_generation,
    new_index, views_of, with_entity, without_entity, Entity, EntityRecord, EntityView,
};
use vstd::prelude::*;

verus! {

/// The rule that a room index stands for another room's record.
#[derive(Debug, Copy, Clone, PartialEq, Eq, Structural)]
pub struct RoomRedirection {
    pub original_room: i32,
    pub new_room: i32,
}

/// Something that the caller is asked to do with the saved session, once
/// the tick is over.
#[derive(Debug, Copy, Clone, PartialEq, Eq, Structural)]
pub enum SessionRequest {
    /// Write the session to durable storage.
    Save,
    /// Read the session back from durable storage.
    Load,
}

/// Everything a tick works on.
pub struct World {
    /// The entity store.
    pub slots: Vec<EntityRecord>,
    /// The static record of each room, by room index.
    pub rooms: Vec<RoomData>,
    /// The overlay of each room, by room index.
    pub dynamic_rooms: Vec<DynamicRoomData>,
    /// The catalogue of items.
    pub items: Vec<ItemData>,
    /// The catalogue of enemies.
    pub enemies: Vec<EnemyData>,
    /// The structural changes that stages have asked for.
    pub pending_actions: Vec<StateAction>,
    /// The room the player is in.
    pub current_room: CurrentRoom,
    /// The next stable identity to hand out.
    pub next_marker: u64,
    /// The room redirections, the latest last.
    pub redirections: Vec<RoomRedirection>,
    /// What the caller is asked to do with the saved session.
    pub session_requests: Vec<SessionRequest>,
}

/// What a [`World`] holds, as plain values.
pub struct WorldView {
    pub entities: Seq<EntityView>,
    pub rooms: Seq<RoomView>,
    pub dynamic_rooms: Seq<DynamicRoomView>,
    pub items: Seq<ItemView>,
    pub enemies: Seq<EnemyView>,
    pub pending_actions: Seq<StateActionView>,
    pub current_room: i32,
    pub next_marker: u64,
    pub redirections: Seq<RoomRedirection>,
    pub session_requests: Seq<SessionRequest>,
}

impl View for World {
    type V = WorldView;

    open spec fn view(&self) -> WorldView {
        WorldView {
            entities: views_of(self.slots@),
            rooms: views_of(self.rooms@),
            dynamic_rooms: views_of(self.dynamic_rooms@),
            items: views_of(self.items@),
            enemies: views_of(self.enemies@),
            pending_actions: views_of(self.pending_actions@),
            current_room: self.current_room.0,
            next_marker: self.next_marker,
            redirections: self.redirections@,
            session_requests: self.session_requests@,
        }
    }
}

/// The stable identity that an entity made now gets: the next number, as
/// long as there is one.
pub open spec fn marker_for(next_marker: u64) -> Option<DynamicMarker> {
    if next_marker < u64::MAX {
        Some(DynamicMarker { id: next_marker })
    } else {
        None
    }
}

/// The next stable identity after one has been handed out.
pub open spec fn marker_after(next_marker: u64) -> u64 {
    if next_marker < u64::MAX {
        (next_marker + 1) as u64
    } else {
        next_marker
    }
}

/// Tells whether two worlds differ in their entities and in the next stable
/// identity at most: the room tables, the catalogues, the pending actions,
/// the current room, the redirections and the session requests are the
/// same.
pub open spec fn same_tables(a: WorldView, b: WorldView) -> bool {
    b == (WorldView { entities: b.entities, next_marker: b.next_marker, ..a })
}

impl WorldView {
    /// The world with one more entity, which has the components of `data`.
    pub open spec fn spawn(self, data: EntityView) -> WorldView {
        WorldView { entities: with_entity(self.entities, data), ..self }
    }

    /// The world with one more entity, which has the components of `data`
    /// and a stable identity of its own.
    pub open spec fn spawn_marked(self, data: EntityView) -> WorldView {
        WorldView {
            entities: with_entity(
                self.entities,
                EntityView { marker: marker_for(self.next_marker), ..data },
            ),
            next_marker: marker_after(self.next_marker),
            ..self
        }
    }

    /// The world without the entity of a handle.
    pub open spec fn despawn(self, entity: Entity) -> WorldView {
        WorldView { entities: without_entity(self.entities, entity), ..self }
    }

    /// The world with one more structural change asked for.
    pub open spec fn with_action(self, action: StateActionView) -> WorldView {
        WorldView { pending_actions: self.pending_actions.push(action), ..self }
    }

    /// Tells whether every stable identity in use lies below the next one to
    /// hand out, and no two living entities share one.
    pub open spec fn markers_wf(self) -> bool {
        &&& forall|i: int|
            0 <= i < self.entities.len() && (#[trigger] self.entities[i]).alive
                && self.entities[i].marker is Some ==> self.entities[i].marker->0.id
                < self.next_marker
        &&& forall|i: int, j: int|
            0 <= i < j < self.entities.len() && (#[trigger] self.entities[i]).alive && (
            #[trigger] self.entities[j]).alive && self.entities[i].marker is Some
                ==> self.entities[i].marker != self.entities[j].marker
    }
}

impl World {
    /// A world without entities, rooms or catalogues, in room 0.
    pub fn new() -> (r: Self)
        ensures
            r@ == (WorldView {
                entities: Seq::empty(),
                rooms: Seq::empty(),
                dynamic_rooms: Seq::empty(),
                items: Seq::empty(),
                enemies: Seq::empty(),
                pending_actions: Seq::empty(),
                current_room: 0,
                next_marker: 0,
                redirections: Seq::empty(),
                session_requests: Seq::empty(),
            }),
    {
        let r = Self {
            slots: Vec::new(),
            rooms: Vec::new(),
            dynamic_rooms: Vec::new(),
            items: Vec::new(),
            enemies: Vec::new(),
            pending_actions: Vec::new(),
            current_room: CurrentRoom(0),
            next_marker: 0,
            redirections: Vec::new(),
            session_requests: Vec::new(),
        };
        assert(r@.entities =~= Seq::empty());
        assert(r@.rooms =~= Seq::empty());
        assert(r@.dynamic_rooms =~= Seq::empty());
        assert(r@.items =~= Seq::empty());
        assert(r@.enemies =~= Seq::empty());
        assert(r@.pending_actions =~= Seq::empty());
        r
    }

    /// Makes an entity with the components of `data`.
    pub fn create_entity(&mut self, data: EntityRecord) -> (entity: Entity)
        ensures
            final(self)@ == old(self)@.spawn(data@),
            entity.index == new_index(old(self)@.entities),
            entity.generation == new_generation(old(self)@.entities),
            is_alive(final(self)@.entities, entity),
    {
        create_entity(&mut self.slots, data)
    }

    /// Makes an entity with the components of `data` and gives it a stable
    /// identity: a number that no entity made before has got. Once all
    /// numbers are used up, the entity gets none.
    pub fn create_marked_entity(&mut self, data: EntityRecord) -> (entity: Entity)
        ensures
            final(self)@ == old(self)@.spawn_marked(data@),
            entity.index == new_index(old(self)@.entities),
            entity.generation == new_generation(old(self)@.entities),
            is_alive(final(self)@.entities, entity),
    {
        let mut data = data;
        if self.next_marker < u64::MAX {
            data.marker = Some(DynamicMarker { id: self.next_marker });
            self.next_marker = self.next_marker + 1;
        } else {
            data.marker = None;
        }
        create_entity(&mut self.slots, data)
    }

    /// Deletes the entity of a handle and tells whether there was one.
    pub fn delete_entity(&mut self, entity: Entity) -> (deleted: bool)
        ensures
            final(self)@ == old(self)@.despawn(entity),
            deleted == is_alive(old(self)@.entities, entity),
    {
        delete_entity(&mut self.slots, entity)
    }

    /// Asks for a structural change.
    pub fn push_action(&mut self, action: StateAction)
        ensures
            final(self)@ == old(self)@.with_action(action@),
    {
        let ghost before = views_of(self.pending_actions@);
        let ghost view = action@;
        self.pending_actions.push(action);
        assert(views_of(self.pending_actions@) =~= before.push(view));
    }
}

/// The handles of the entities among the first `n` slots that have a stable
/// identity, in the order of the slots: the entities that a saved session
/// holds.
pub open spec fn marked_entities(entities: Seq<EntityView>, n: int) -> Seq<Entity>
    decreases n,
{
    if n <= 0 {
        Seq::empty()
    } else if entities[n - 1].alive && entities[n - 1].marker is Some {
        marked_entities(entities, n - 1).push(handle_at(entities, n - 1))
    } else {
        marked_entities(entities, n - 1)
    }
}

impl World {
    /// The handles of the entities that have a stable identity: those that
    /// were made while the game ran, and that a saved session holds. The
    /// entities of a room's fixed geometry are not among them.
    pub fn find_all_marked(&self) -> (r: Vec<Entity>)
        ensures
            r@ == marked_entities(self@.entities, self@.entities.len() as int),
    {
        let mut found: Vec<Entity> = Vec::new();
        let mut i: usize = 0;
        while i < self.slots.len()
            invariant
                i <= self.slots.len(),
                found@ == marked_entities(self@.entities, i as int),
            decreases self.slots.len() - i,
        {
            if self.slots[i].alive && self.slots[i].marker.is_some() {
                found.push(entity_at(&self.slots, i));
            }
            i += 1;
        }
        found
    }
}

/// Tells whether a slot holds the entity with a stable identity.
pub open spec fn has_marker(e: EntityView, id: u64) -> bool {
    e.alive && e.marker == Some(DynamicMarker { id })
}

/// The index of the first slot from `from` on that holds the entity with a
/// stable identity, or the number of slots where there is none.
pub open spec fn marked_index(entities: Seq<EntityView>, id: u64, from: int) -> int
    decreases entities.len() - from,
{
    if from < 0 || from >= entities.len() {
        entities.len() as int
    } else if has_marker(entities[from], id) {
        from
    } else {
        marked_index(entities, id, from + 1)
    }
}

/// The handle of the entity with a stable identity, if it lives.
pub open spec fn resolve(entities: Seq<EntityView>, id: u64) -> Option<Entity> {
    if marked_index(entities, id, 0) < entities.len() {
        Some(handle_at(entities, marked_index(entities, id, 0)))
    } else {
        None
    }
}

impl World {
    /// Finds the entity with a stable identity and returns its present
    /// handle.
    pub fn find_marked(&self, id: u64) -> (r: Option<Entity>)
        ensures
            r == resolve(self@.entities, id),
            r is Some ==> is_alive(self@.entities, r->0) && has_marker(
                self@.entities[r->0.index as int],
                id,
            ),
    {
        let mut i: usize = 0;
        while i < self.slots.len()
            invariant
                i <= self.slots.len(),
                marked_index(self@.entities, id, 0) == marked_index(self@.entities, id, i as int),
            decreases self.slots.len() - i,
        {
            if self.slots[i].alive {
                match self.slots[i].marker {
                    Some(marker) => {
                        if marker.id == id {
                            return Some(entity_at(&self.slots, i));
                        }
                    },
                    None => {},
                }
            }
            i += 1;
        }
        None
    }
}

/// The first entity with a stable identity lies at or after `from`, no slot
/// between the two holds that identity, and the slot itself does where it
/// exists.
pub proof fn lemma_marked_index(entities: Seq<EntityView>, id: u64, from: int)
    requires
        0 <= from <= entities.len(),
    ensures
        from <= marked_index(entities, id, from) <= entities.len(),
        forall|k: int|
            from <= k < marked_index(entities, id, from) ==> !has_marker(#[trigger] entities[k], id),
        marked_index(entities, id, from) < entities.len() ==> has_marker(
            entities[marked_index(entities, id, from)],
            id,
        ),
    decreases entities.len() - from,
{
    if from < entities.len() && !has_marker(entities[from], id) {
        lemma_marked_index(entities, id, from + 1);
    }
}

/// An entity that is made with a stable identity keeps the identities of
/// the world in order: every identity in use lies below the next one, and
/// no two living entities share one.
pub proof fn lemma_spawn_marked_keeps_markers(w: WorldView, data: EntityView)
    requires
        w.markers_wf(),
    ensures
        w.spawn_marked(data).markers_wf(),
{
    let after = w.spawn_marked(data);
    let f = new_index(w.entities);
    lemma_first_free(w.entities, 0);
    assert forall|i: int|
        0 <= i < after.entities.len() && (#[trigger] after.entities[i]).alive
            && after.entities[i].marker is Some implies after.entities[i].marker->0.id
        < after.next_marker by {
        if i != f {
            assert(after.entities[i] == w.entities[i]);
        }
    }
    assert forall|i: int, j: int|
        0 <= i < j < after.entities.len() && (#[trigger] after.entities[i]).alive && (
        #[trigger] after.entities[j]).alive && after.entities[i].marker is Some implies after.entities[i].marker
        != after.entities[j].marker by {
        if i != f {
            assert(after.entities[i] == w.entities[i]);
        }
        if j != f {
            assert(after.entities[j] == w.entities[j]);
        }
    }
}

/// An entity that is made without a stable identity keeps the identities of
/// the world in order.
pub proof fn lemma_spawn_keeps_markers(w: WorldView, data: EntityView)
    requires
        w.markers_wf(),
        data.marker is None,
    ensures
        w.spawn(data).markers_wf(),
{
    let after = w.spawn(data);
    let f = new_index(w.entities);
    lemma_first_free(w.entities, 0);
    assert forall|i: int|
        0 <= i < after.entities.len() && (#[trigger] after.entities[i]).alive
            && after.entities[i].marker is Some implies after.entities[i].marker->0.id
        < after.next_marker by {
        if i != f {
            assert(after.entities[i] == w.entities[i]);
        }
    }
    assert forall|i: int, j: int|
        0 <= i < j < after.entities.len() && (#[trigger] after.entities[i]).alive && (
        #[trigger] after.entities[j]).alive && after.entities[i].marker is Some implies after.entities[i].marker
        != after.entities[j].marker by {
        if i != f {
            assert(after.entities[i] == w.entities[i]);
        }
        if j != f {
            assert(after.entities[j] == w.entities[j]);
        }
    }
}

/// Deleting an entity keeps the identities of the world in order.
pub proof fn lemma_despawn_keeps_markers(w: WorldView, entity: Entity)
    requires
        w.markers_wf(),
    ensures
        w.despawn(entity).markers_wf(),
{
    let after = w.despawn(entity);
    assert forall|i: int|
        0 <= i < after.entities.len() && (#[trigger] after.entities[i]).alive
            && after.entities[i].marker is Some implies after.entities[i].marker->0.id
        < after.next_marker by {
        assert(after.entities[i] == w.entities[i]);
    }
    assert forall|i: int, j: int|
        0 <= i < j < after.entities.len() && (#[trigger] after.entities[i]).alive && (
        #[trigger] after.entities[j]).alive && after.entities[i].marker is Some implies after.entities[i].marker
        != after.entities[j].marker by {
        assert(after.entities[i] == w.entities[i]);
        assert(after.entities[j] == w.entities[j]);
    }
}

/// The stable identity that a new entity gets resolves to that entity, and
/// every identity that resolved before resolves as it did.
pub proof fn lemma_new_marker_resolves(w: WorldView, data: EntityView, id: u64)
    requires
        w.markers_wf(),
        w.next_marker < u64::MAX,
    ensures
        resolve(w.spawn_marked(data).entities, w.next_marker) == Some(
            Entity { index: new_index(w.entities) as usize, generation: new_generation(w.entities) },
        ),
        resolve(w.entities, id) is Some ==> resolve(w.spawn_marked(data).entities, id) == resolve(
            w.entities,
            id,
        ),
{
    let after = w.spawn_marked(data).entities;
    let f = new_index(w.entities);
    lemma_first_free(w.entities, 0);
    lemma_marked_index(after, w.next_marker, 0);
    let found = marked_index(after, w.next_marker, 0);
    assert(has_marker(after[f], w.next_marker));
    if found != f {
        assert(after[found] == w.entities[found]);
    }
    if resolve(w.entities, id) is Some {
        lemma_marked_index(w.entities, id, 0);
        lemma_marked_index(after, id, 0);
        let before_index = marked_index(w.entities, id, 0);
        let after_index = marked_index(after, id, 0);
        assert(before_index != f);
        assert(after[before_index] == w.entities[before_index]);
        if after_index < before_index {
            if after_index != f {
                assert(after[after_index] == w.entities[after_index]);
            }
        }
    }
}

} // verus!
