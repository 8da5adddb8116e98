//! The saved session: the entities that were made while the game ran, with
//! what is needed to make them again.

use crate::ai::AiMoveToPlayer;
use crate::components::{Description, DescriptionView, PickupTrigger, Player, Position};
use crate::game::DynamicMarker;
use crate::render::Renderable;
use crate::room::BelongsToRoom;
use crate::store::{
    gather, kept_before_free, lemma_gather_new_entity, lemma_gather_skips, looks_at_components,
    views_of, with_entity, EntityRecord, EntityView,
};
use crate::world::{World, WorldView};
use vstd::prelude::*;

verus! {

/// What the saved session holds of an entity: its stable identity, its
/// position, its role, its glyph, what is picked up with it, the room it is
/// part of, and its description.
pub struct SavedEntity {
    pub marker: DynamicMarker,
    pub position: Option<Position>,
    pub player: Option<Player>,
    pub ai_move_to_player: Option<AiMoveToPlayer>,
    pub renderable: Option<Renderable>,
    pub pickup_trigger: Option<PickupTrigger>,
    pub belongs_to_room: Option<BelongsToRoom>,
    pub description: Option<Description>,
}

/// What a [`SavedEntity`] holds, as plain values.
pub struct SavedView {
    pub marker: DynamicMarker,
    pub position: Option<Position>,
    pub player: Option<Player>,
    pub ai_move_to_player: Option<AiMoveToPlayer>,
    pub renderable: Option<Renderable>,
    pub pickup_trigger: Option<PickupTrigger>,
    pub belongs_to_room: Option<BelongsToRoom>,
    pub description: Option<DescriptionView>,
}

impl View for SavedEntity {
    type V = SavedView;

    open spec fn view(&self) -> SavedView {
        SavedView {
            marker: self.marker,
            position: self.position,
            player: self.player,
            ai_move_to_player: self.ai_move_to_player,
            renderable: self.renderable,
            pickup_trigger: self.pickup_trigger,
            belongs_to_room: self.belongs_to_room,
            description: match self.description {
                Some(d) => Some(d@),
                None => None,
            },
        }
    }
}

/// The test for the entities that the saved session holds: those with a
/// stable identity.
pub open spec fn is_saved() -> spec_fn(EntityView) -> bool {
    |e: EntityView| e.alive && e.marker is Some
}

/// What the saved session holds of an entity.
pub open spec fn saved_of() -> spec_fn(EntityView) -> SavedView {
    |e: EntityView|
        SavedView {
            marker: e.marker->0,
            position: e.position,
            player: e.player,
            ai_move_to_player: e.ai_move_to_player,
            renderable: e.renderable,
            pickup_trigger: e.pickup_trigger,
            belongs_to_room: e.belongs_to_room,
            description: e.description,
        }
}

/// The saved session of a store: what it holds of every entity with a
/// stable identity, in the order of the slots.
pub open spec fn snapshot_of(entities: Seq<EntityView>) -> Seq<SavedView> {
    gather(entities, is_saved(), saved_of(), entities.len() as int)
}

/// Takes the saved session of the world.
pub fn snapshot(world: &World) -> (r: Vec<SavedEntity>)
    ensures
        views_of(r@) == snapshot_of(world@.entities),
{
    let mut saved: Vec<SavedEntity> = Vec::new();
    let mut i: usize = 0;
    assert(views_of(saved@) =~= Seq::<SavedView>::empty());
    while i < world.slots.len()
        invariant
            i <= world.slots.len(),
            views_of(saved@) == gather(world@.entities, is_saved(), saved_of(), i as int),
        decreases world.slots.len() - i,
    {
        let slot = &world.slots[i];
        if slot.alive {
            match slot.marker {
                Some(marker) => {
                    let entity = SavedEntity {
                        marker,
                        position: slot.position,
                        player: slot.player,
                        ai_move_to_player: slot.ai_move_to_player,
                        renderable: slot.renderable,
                        pickup_trigger: slot.pickup_trigger,
                        belongs_to_room: slot.belongs_to_room,
                        description: match &slot.description {
                            Some(d) => Some(d.clone()),
                            None => None,
                        },
                    };
                    assert(views_of(saved@.push(entity)) =~= views_of(saved@).push(entity@));
                    saved.push(entity);
                },
                None => {},
            }
        }
        i += 1;
    }
    saved
}

/// The store without the entities that a saved session holds: the slot of
/// each is vacant and keeps its generation.
pub open spec fn without_saved(entities: Seq<EntityView>) -> Seq<EntityView> {
    Seq::new(
        entities.len(),
        |i: int|
            if entities[i].alive && entities[i].marker is Some {
                EntityView::vacant(entities[i].generation)
            } else {
                entities[i]
            },
    )
}

/// The entity that is made from what the saved session holds of it.
pub open spec fn restored_entity(saved: SavedView) -> EntityView {
    EntityView {
        marker: Some(saved.marker),
        position: saved.position,
        player: saved.player,
        ai_move_to_player: saved.ai_move_to_player,
        renderable: saved.renderable,
        pickup_trigger: saved.pickup_trigger,
        belongs_to_room: saved.belongs_to_room,
        description: saved.description,
        ..EntityView::vacant(0)
    }
}

/// The store with the first `n` entities of a saved session made again.
pub open spec fn with_restored(entities: Seq<EntityView>, saved: Seq<SavedView>, n: int) -> Seq<
    EntityView,
>
    decreases n,
{
    if n <= 0 {
        entities
    } else {
        with_entity(with_restored(entities, saved, n - 1), restored_entity(saved[n - 1]))
    }
}

/// The next stable identity to hand out once the first `n` entities of a
/// saved session have been made again: one that lies beyond the identity of
/// each, as far as there is one.
pub open spec fn next_beyond(next_marker: u64, saved: Seq<SavedView>, n: int) -> u64
    decreases n,
{
    if n <= 0 {
        next_marker
    } else {
        let before = next_beyond(next_marker, saved, n - 1);
        let id = saved[n - 1].marker.id;
        if id < before {
            before
        } else if id < u64::MAX {
            (id + 1) as u64
        } else {
            u64::MAX
        }
    }
}

/// The world with a saved session restored: the entities with a stable
/// identity are deleted, the entities of the saved session are made in
/// their place, and the next stable identity lies beyond those of the
/// saved session.
pub open spec fn with_session(w: WorldView, saved: Seq<SavedView>) -> WorldView {
    WorldView {
        entities: with_restored(without_saved(w.entities), saved, saved.len() as int),
        next_marker: next_beyond(w.next_marker, saved, saved.len() as int),
        ..w
    }
}

/// Restores a saved session.
pub fn restore(world: &mut World, saved: &Vec<SavedEntity>)
    ensures
        final(world)@ == with_session(old(world)@, views_of(saved@)),
{
    let ghost initial = world@.entities;
    let n = world.slots.len();
    let mut i: usize = 0;
    while i < n
        invariant
            i <= n,
            n == world.slots@.len(),
            n == initial.len(),
            initial == old(world)@.entities,
            *world == (World { slots: world.slots, ..*old(world) }),
            forall|k: int| 0 <= k < i ==> #[trigger] world@.entities[k] == without_saved(initial)[k],
            forall|k: int| i <= k < n ==> #[trigger] world@.entities[k] == initial[k],
        decreases n - i,
    {
        let ghost before = world@.entities;
        assert(before[i as int] == initial[i as int]);
        if world.slots[i].alive && world.slots[i].marker.is_some() {
            let mut record = EntityRecord::new();
            record.generation = world.slots[i].generation;
            assert(record@ == EntityView::vacant(initial[i as int].generation));
            world.slots[i] = record;
            assert(world@.entities =~= before.update(
                i as int,
                EntityView::vacant(initial[i as int].generation),
            ));
        }
        i += 1;
    }
    assert(world@.entities =~= without_saved(initial));
    let ghost cleared = world@.entities;
    let ghost list = views_of(saved@);
    let ghost start = old(world)@.next_marker;
    let mut k: usize = 0;
    while k < saved.len()
        invariant
            k <= saved.len(),
            list == views_of(saved@),
            start == old(world)@.next_marker,
            cleared == without_saved(old(world)@.entities),
            world@ == (WorldView {
                entities: world@.entities,
                next_marker: world@.next_marker,
                ..old(world)@
            }),
            world@.entities == with_restored(cleared, list, k as int),
            world.next_marker == next_beyond(start, list, k as int),
        decreases saved.len() - k,
    {
        let entity = &saved[k];
        assert(entity@ == list[k as int]);
        let mut record = EntityRecord::new();
        record.marker = Some(entity.marker);
        record.position = entity.position;
        record.player = entity.player;
        record.ai_move_to_player = entity.ai_move_to_player;
        record.renderable = entity.renderable;
        record.pickup_trigger = entity.pickup_trigger;
        record.belongs_to_room = entity.belongs_to_room;
        record.description = match &entity.description {
            Some(d) => Some(d.clone()),
            None => None,
        };
        assert(record@ == restored_entity(list[k as int]));
        world.create_entity(record);
        if entity.marker.id >= world.next_marker {
            world.next_marker = if entity.marker.id < u64::MAX {
                entity.marker.id + 1
            } else {
                u64::MAX
            };
        }
        k += 1;
    }
}

/// Making the first `n` entities of a saved session again adds them to the
/// saved session of the store, in their order.
pub proof fn lemma_restored_are_saved(entities: Seq<EntityView>, saved: Seq<SavedView>, n: int)
    requires
        0 <= n <= saved.len(),
        kept_before_free(entities, is_saved()),
    ensures
        snapshot_of(with_restored(entities, saved, n)) == snapshot_of(entities) + saved.take(n),
        kept_before_free(with_restored(entities, saved, n), is_saved()),
    decreases n,
{
    assert(looks_at_components(is_saved(), saved_of()));
    if n > 0 {
        lemma_restored_are_saved(entities, saved, n - 1);
        let before = with_restored(entities, saved, n - 1);
        lemma_gather_new_entity(before, restored_entity(saved[n - 1]), is_saved(), saved_of());
        assert(snapshot_of(entities) + saved.take(n - 1).push(saved[n - 1]) =~= snapshot_of(entities)
            + saved.take(n));
        assert((snapshot_of(entities) + saved.take(n - 1)).push(saved[n - 1]) =~= snapshot_of(
            entities,
        ) + saved.take(n));
    } else {
        assert(snapshot_of(entities) + saved.take(0) =~= snapshot_of(entities));
    }
}

/// A saved session that is restored is the saved session of the world
/// afterwards: what is saved, restored and saved again is the same.
pub proof fn lemma_session_round_trip(w: WorldView, saved: Seq<SavedView>)
    ensures
        snapshot_of(with_session(w, saved).entities) == saved,
{
    let cleared = without_saved(w.entities);
    lemma_gather_skips(cleared, is_saved(), saved_of(), 0, cleared.len() as int);
    lemma_restored_are_saved(cleared, saved, saved.len() as int);
    assert(saved.take(saved.len() as int) =~= saved);
    assert(Seq::<SavedView>::empty() + saved =~= saved);
}

/// After a saved session has been restored, the next stable identity lies
/// beyond that of every entity of the session, unless the identities are
/// used up.
pub proof fn lemma_next_marker_is_beyond(next_marker: u64, saved: Seq<SavedView>, n: int, k: int)
    requires
        0 <= k < n <= saved.len(),
    ensures
        next_marker <= next_beyond(next_marker, saved, n),
        saved[k].marker.id < next_beyond(next_marker, saved, n) || next_beyond(
            next_marker,
            saved,
            n,
        ) == u64::MAX,
    decreases n,
{
    if n - 1 > k {
        lemma_next_marker_is_beyond(next_marker, saved, n - 1, k);
    } else {
        lemma_next_marker_grows(next_marker, saved, n - 1);
    }
    lemma_next_marker_grows(next_marker, saved, n);
}

/// Restoring a saved session never lowers the next stable identity.
pub proof fn lemma_next_marker_grows(next_marker: u64, saved: Seq<SavedView>, n: int)
    ensures
        next_marker <= next_beyond(next_marker, saved, n),
    decreases n,
{
    if n > 0 {
        lemma_next_marker_grows(next_marker, saved, n - 1);
    }
}

} // verus!
