//! The entity store: an arena of entity records, each reached through a
//! handle that is checked against the generation of its slot.

use crate::ai::AiMoveToPlayer;
use crate::components::{
    ActiveDescriptionComponent, AppliesDamage, ApplyDamageComponent, ColliderComponent, CombatLog,
    CombatStats, DeadTag, DebugHudComponent, DebugName, Description, DescriptionView,
    InventoryComponent, Movement, PendingDamage, PickupTrigger, Player, PlayerInputComponent,
    PlayerInputMappingComponent, PlayerTextInputComponent, Position, TextInputView, WantsToAttack,
};
use crate::game::DynamicMarker;
use crate::render::Renderable;
use crate::room::{BelongsToRoom, ExitTrigger};
use vstd::prelude::*;

verus! {

/// A handle to an entity: the slot it lives in and the generation of that
/// slot at the time the entity was made.
#[derive(Debug, Copy, Clone, PartialEq, Eq, Structural)]
pub struct Entity {
    pub index: usize,
    pub generation: u32,
}

/// One slot of the store: whether an entity lives in it, the generation of
/// the slot, and the components of the entity.
pub struct EntityRecord {
    pub alive: bool,
    pub generation: u32,
    pub position: Option<Position>,
    pub renderable: Option<Renderable>,
    pub movement: Option<Movement>,
    pub collider: Option<ColliderComponent>,
    pub belongs_to_room: Option<BelongsToRoom>,
    pub exit_trigger: Option<ExitTrigger>,
    pub combat_stats: Option<CombatStats>,
    pub applies_damage: Option<AppliesDamage>,
    pub wants_to_attack: Option<WantsToAttack>,
    pub apply_damage: Option<ApplyDamageComponent>,
    pub dead: Option<DeadTag>,
    pub description: Option<Description>,
    pub inventory: Option<InventoryComponent>,
    pub player: Option<Player>,
    pub ai_move_to_player: Option<AiMoveToPlayer>,
    pub pickup_trigger: Option<PickupTrigger>,
    pub debug_name: Option<DebugName>,
    pub debug_hud: Option<DebugHudComponent>,
    pub combat_log: Option<CombatLog>,
    pub player_input: Option<PlayerInputComponent>,
    pub player_input_mapping: Option<PlayerInputMappingComponent>,
    pub player_text_input: Option<PlayerTextInputComponent>,
    pub active_description: Option<ActiveDescriptionComponent>,
    pub marker: Option<DynamicMarker>,
}

/// What a slot of the store holds, as plain values.
pub struct EntityView {
    pub alive: bool,
    pub generation: u32,
    pub position: Option<Position>,
    pub renderable: Option<Renderable>,
    pub movement: Option<Movement>,
    pub collider: Option<ColliderComponent>,
    pub belongs_to_room: Option<BelongsToRoom>,
    pub exit_trigger: Option<ExitTrigger>,
    pub combat_stats: Option<CombatStats>,
    pub applies_damage: Option<AppliesDamage>,
    pub wants_to_attack: Option<WantsToAttack>,
    pub apply_damage: Option<PendingDamage>,
    pub dead: Option<DeadTag>,
    pub description: Option<DescriptionView>,
    pub inventory: Option<InventoryComponent>,
    pub player: Option<Player>,
    pub ai_move_to_player: Option<AiMoveToPlayer>,
    pub pickup_trigger: Option<PickupTrigger>,
    pub debug_name: Option<Seq<char>>,
    pub debug_hud: Option<DebugHudComponent>,
    pub combat_log: Option<Seq<Seq<char>>>,
    pub player_input: Option<PlayerInputComponent>,
    pub player_input_mapping: Option<PlayerInputMappingComponent>,
    pub player_text_input: Option<TextInputView>,
    pub active_description: Option<Seq<char>>,
    pub marker: Option<DynamicMarker>,
}

/// The plain value of an optional component.
pub open spec fn view_of<T: View>(component: Option<T>) -> Option<T::V> {
    match component {
        Some(c) => Some(c@),
        None => None,
    }
}

/// The plain values of a sequence.
pub open spec fn views_of<T: View>(s: Seq<T>) -> Seq<T::V> {
    s.map_values(|x: T| x@)
}

impl View for EntityRecord {
    type V = EntityView;

    open spec fn view(&self) -> EntityView {
        EntityView {
            alive: self.alive,
            generation: self.generation,
            position: self.position,
            renderable: self.renderable,
            movement: self.movement,
            collider: self.collider,
            belongs_to_room: self.belongs_to_room,
            exit_trigger: self.exit_trigger,
            combat_stats: self.combat_stats,
            applies_damage: self.applies_damage,
            wants_to_attack: self.wants_to_attack,
            apply_damage: view_of(self.apply_damage),
            dead: self.dead,
            description: view_of(self.description),
            inventory: self.inventory,
            player: self.player,
            ai_move_to_player: self.ai_move_to_player,
            pickup_trigger: self.pickup_trigger,
            debug_name: view_of(self.debug_name),
            debug_hud: self.debug_hud,
            combat_log: view_of(self.combat_log),
            player_input: self.player_input,
            player_input_mapping: self.player_input_mapping,
            player_text_input: view_of(self.player_text_input),
            active_description: view_of(self.active_description),
            marker: self.marker,
        }
    }
}

impl EntityView {
    /// A slot of the given generation that holds no entity and no
    /// component.
    pub open spec fn vacant(generation: u32) -> EntityView {
        EntityView {
            alive: false,
            generation,
            position: None,
            renderable: None,
            movement: None,
            collider: None,
            belongs_to_room: None,
            exit_trigger: None,
            combat_stats: None,
            applies_damage: None,
            wants_to_attack: None,
            apply_damage: None,
            dead: None,
            description: None,
            inventory: None,
            player: None,
            ai_move_to_player: None,
            pickup_trigger: None,
            debug_name: None,
            debug_hud: None,
            combat_log: None,
            player_input: None,
            player_input_mapping: None,
            player_text_input: None,
            active_description: None,
            marker: None,
        }
    }

    /// Tells whether a new entity can be put into the slot: no entity lives
    /// in it, and its generation can still be raised.
    pub open spec fn is_free(self) -> bool {
        !self.alive && self.generation < u32::MAX
    }

    /// Tells whether the slot holds an entity of the given room.
    pub open spec fn in_room(self, room: i32) -> bool {
        self.alive && self.belongs_to_room == Some(BelongsToRoom { room })
    }
}

impl EntityRecord {
    /// A record without any component, to be filled in and handed to
    /// [`create_entity`].
    pub fn new() -> (r: Self)
        ensures
            r@ == EntityView::vacant(0),
    {
        Self {
            alive: false,
            generation: 0,
            position: None,
            renderable: None,
            movement: None,
            collider: None,
            belongs_to_room: None,
            exit_trigger: None,
            combat_stats: None,
            applies_damage: None,
            wants_to_attack: None,
            apply_damage: None,
            dead: None,
            description: None,
            inventory: None,
            player: None,
            ai_move_to_player: None,
            pickup_trigger: None,
            debug_name: None,
            debug_hud: None,
            combat_log: None,
            player_input: None,
            player_input_mapping: None,
            player_text_input: None,
            active_description: None,
            marker: None,
        }
    }
}

/// The index of the first free slot from `from` on, or the number of slots
/// where none is free.
pub open spec fn first_free(slots: Seq<EntityView>, from: int) -> int
    decreases slots.len() - from,
{
    if from < 0 || from >= slots.len() {
        slots.len() as int
    } else if slots[from].is_free() {
        from
    } else {
        first_free(slots, from + 1)
    }
}

/// The slot that a new entity with the components of `data` gets.
pub open spec fn new_index(slots: Seq<EntityView>) -> int {
    first_free(slots, 0)
}

/// The generation that a new entity gets: one more than that of the slot it
/// takes over, and zero in a new slot.
pub open spec fn new_generation(slots: Seq<EntityView>) -> u32 {
    let index = new_index(slots);
    if index < slots.len() {
        (slots[index].generation + 1) as u32
    } else {
        0
    }
}

/// The store after an entity with the components of `data` has been made:
/// it takes over the first free slot, or a new slot at the end.
pub open spec fn with_entity(slots: Seq<EntityView>, data: EntityView) -> Seq<EntityView> {
    let index = new_index(slots);
    let record = EntityView { alive: true, generation: new_generation(slots), ..data };
    if index < slots.len() {
        slots.update(index, record)
    } else {
        slots.push(record)
    }
}

/// Tells whether a handle names an entity that lives in the store.
pub open spec fn is_alive(slots: Seq<EntityView>, entity: Entity) -> bool {
    &&& entity.index < slots.len()
    &&& slots[entity.index as int].alive
    &&& slots[entity.index as int].generation == entity.generation
}

/// The store after the entity of a handle has been deleted: its slot is
/// vacant and keeps its generation. A handle that names no living entity
/// changes nothing.
pub open spec fn without_entity(slots: Seq<EntityView>, entity: Entity) -> Seq<EntityView> {
    if is_alive(slots, entity) {
        slots.update(entity.index as int, EntityView::vacant(entity.generation))
    } else {
        slots
    }
}

/// The first free slot lies at or after `from`, no slot between the two is
/// free, and the slot itself is free where it exists.
pub proof fn lemma_first_free(slots: Seq<EntityView>, from: int)
    requires
        0 <= from <= slots.len(),
    ensures
        from <= first_free(slots, from) <= slots.len(),
        forall|k: int| from <= k < first_free(slots, from) ==> !(#[trigger] slots[k]).is_free(),
        first_free(slots, from) < slots.len() ==> slots[first_free(slots, from)].is_free(),
    decreases slots.len() - from,
{
    if from < slots.len() && !slots[from].is_free() {
        lemma_first_free(slots, from + 1);
    }
}

/// Makes an entity with the components of `data` and returns its handle.
pub fn create_entity(slots: &mut Vec<EntityRecord>, data: EntityRecord) -> (entity: Entity)
    ensures
        views_of(final(slots)@) == with_entity(views_of(old(slots)@), data@),
        entity.index == new_index(views_of(old(slots)@)),
        entity.generation == new_generation(views_of(old(slots)@)),
        is_alive(views_of(final(slots)@), entity),
        !is_alive(views_of(old(slots)@), entity),
{
    let ghost before = views_of(slots@);
    let mut data = data;
    let n = slots.len();
    let mut index: usize = 0;
    while index < n && !(!slots[index].alive && slots[index].generation < u32::MAX)
        invariant
            n == slots@.len(),
            index <= n,
            before == views_of(slots@),
            first_free(before, 0) == first_free(before, index as int),
        decreases n - index,
    {
        index += 1;
    }
    proof {
        lemma_first_free(before, 0);
    }
    data.alive = true;
    if index < n {
        data.generation = slots[index].generation + 1;
        let ghost record = data@;
        slots[index] = data;
        assert(views_of(slots@) =~= before.update(index as int, record));
    } else {
        data.generation = 0;
        let ghost record = data@;
        slots.push(data);
        assert(views_of(slots@) =~= before.push(record));
    }
    entity_at(slots, index)
}

/// Tells whether a handle names an entity that lives in the store.
pub fn entity_is_alive(slots: &Vec<EntityRecord>, entity: Entity) -> (r: bool)
    ensures
        r == is_alive(views_of(slots@), entity),
{
    entity.index < slots.len() && slots[entity.index].alive && slots[entity.index].generation
        == entity.generation
}

/// The handle of the entity that lives in the slot at `index`.
pub fn entity_at(slots: &Vec<EntityRecord>, index: usize) -> (entity: Entity)
    requires
        index < slots@.len(),
    ensures
        entity == handle_at(views_of(slots@), index as int),
{
    Entity { index, generation: slots[index].generation }
}

/// The handle that names the slot at `index` in its present generation.
pub open spec fn handle_at(slots: Seq<EntityView>, index: int) -> Entity {
    Entity { index: index as usize, generation: slots[index].generation }
}

/// Deletes the entity of a handle and tells whether there was one.
pub fn delete_entity(slots: &mut Vec<EntityRecord>, entity: Entity) -> (deleted: bool)
    ensures
        deleted == is_alive(views_of(old(slots)@), entity),
        views_of(final(slots)@) == without_entity(views_of(old(slots)@), entity),
{
    if entity_is_alive(slots, entity) {
        let ghost before = views_of(slots@);
        let mut record = EntityRecord::new();
        record.generation = entity.generation;
        slots[entity.index] = record;
        assert(views_of(slots@) =~= before.update(
            entity.index as int,
            EntityView::vacant(entity.generation),
        ));
        true
    } else {
        false
    }
}

/// What is gathered from the first `n` slots: for every slot that `keep`
/// holds of, what `elem` makes of it, in the order of the slots.
pub open spec fn gather<T>(
    entities: Seq<EntityView>,
    keep: spec_fn(EntityView) -> bool,
    elem: spec_fn(EntityView) -> T,
    n: int,
) -> Seq<T>
    decreases n,
{
    if n <= 0 {
        Seq::empty()
    } else if keep(entities[n - 1]) {
        gather(entities, keep, elem, n - 1).push(elem(entities[n - 1]))
    } else {
        gather(entities, keep, elem, n - 1)
    }
}

/// Two stores that agree on their first `n` slots gather the same from
/// them.
pub proof fn lemma_gather_agrees<T>(
    a: Seq<EntityView>,
    b: Seq<EntityView>,
    keep: spec_fn(EntityView) -> bool,
    elem: spec_fn(EntityView) -> T,
    n: int,
)
    requires
        forall|k: int| 0 <= k < n ==> a[k] == b[k],
    ensures
        gather(a, keep, elem, n) == gather(b, keep, elem, n),
    decreases n,
{
    if n > 0 {
        lemma_gather_agrees(a, b, keep, elem, n - 1);
    }
}

/// Slots that `keep` does not hold of add nothing to what is gathered.
pub proof fn lemma_gather_skips<T>(
    a: Seq<EntityView>,
    keep: spec_fn(EntityView) -> bool,
    elem: spec_fn(EntityView) -> T,
    m: int,
    n: int,
)
    requires
        0 <= m <= n,
        forall|k: int| m <= k < n ==> !keep(#[trigger] a[k]),
    ensures
        gather(a, keep, elem, n) == gather(a, keep, elem, m),
    decreases n,
{
    if n > m {
        lemma_gather_skips(a, keep, elem, m, n - 1);
    }
}

/// Where `keep` holds of every one of the first `n` slots, and `elem` makes
/// of each what a list holds at the same place, that list is gathered.
pub proof fn lemma_gather_all<T>(
    a: Seq<EntityView>,
    keep: spec_fn(EntityView) -> bool,
    elem: spec_fn(EntityView) -> T,
    target: Seq<T>,
    n: int,
)
    requires
        0 <= n <= target.len(),
        forall|k: int| 0 <= k < n ==> keep(#[trigger] a[k]) && elem(a[k]) == target[k],
    ensures
        gather(a, keep, elem, n) == target.take(n),
    decreases n,
{
    if n > 0 {
        lemma_gather_all(a, keep, elem, target, n - 1);
        assert(keep(a[n - 1]));
        assert(target.take(n) =~= target.take(n - 1).push(target[n - 1]));
    } else {
        assert(target.take(0) =~= Seq::<T>::empty());
    }
}

/// A slot with another generation.
pub open spec fn regenerated(e: EntityView, generation: u32) -> EntityView {
    EntityView { generation, ..e }
}

/// Tells whether `keep` holds of living entities only, and neither `keep`
/// nor `elem` looks at the generation of a slot.
pub open spec fn looks_at_components<T>(
    keep: spec_fn(EntityView) -> bool,
    elem: spec_fn(EntityView) -> T,
) -> bool {
    &&& forall|e: EntityView| #[trigger] keep(e) ==> e.alive
    &&& forall|e: EntityView, g: u32|
        keep(#[trigger] regenerated(e, g)) == keep(e) && elem(regenerated(e, g)) == elem(e)
}

/// Tells whether every slot that `keep` holds of lies before the first free
/// slot.
pub open spec fn kept_before_free(entities: Seq<EntityView>, keep: spec_fn(EntityView) -> bool) -> bool {
    forall|i: int| 0 <= i < entities.len() && keep(#[trigger] entities[i]) ==> i < new_index(entities)
}

/// A slot where no slot before it is free lies at or before the first free
/// slot.
pub proof fn lemma_first_free_after(slots: Seq<EntityView>, from: int, bound: int)
    requires
        0 <= from <= bound <= slots.len(),
        forall|k: int| from <= k < bound ==> !(#[trigger] slots[k]).is_free(),
    ensures
        first_free(slots, from) >= bound,
    decreases bound - from,
{
    if from < bound {
        lemma_first_free_after(slots, from + 1, bound);
    } else {
        lemma_first_free(slots, from);
    }
}

/// A new entity is gathered after everything that was gathered before it,
/// as long as all of that lies before the first free slot; and then the
/// same holds of the store with the new entity.
pub proof fn lemma_gather_new_entity<T>(
    entities: Seq<EntityView>,
    data: EntityView,
    keep: spec_fn(EntityView) -> bool,
    elem: spec_fn(EntityView) -> T,
)
    requires
        looks_at_components(keep, elem),
        kept_before_free(entities, keep),
    ensures
        gather(
            with_entity(entities, data),
            keep,
            elem,
            with_entity(entities, data).len() as int,
        ) == if keep(EntityView { alive: true, ..data }) {
            gather(entities, keep, elem, entities.len() as int).push(
                elem(EntityView { alive: true, ..data }),
            )
        } else {
            gather(entities, keep, elem, entities.len() as int)
        },
        kept_before_free(with_entity(entities, data), keep),
{
    let f = new_index(entities);
    let after = with_entity(entities, data);
    let record = EntityView { alive: true, generation: new_generation(entities), ..data };
    let live = EntityView { alive: true, ..data };
    assert(record == regenerated(live, new_generation(entities)));
    assert(keep(record) == keep(live) && elem(record) == elem(live));
    lemma_first_free(entities, 0);
    assert(after[f] == record);
    // What came before the new entity is gathered as it was.
    lemma_gather_agrees(after, entities, keep, elem, f);
    assert forall|k: int| f <= k < entities.len() implies !keep(#[trigger] entities[k]) by {
        if k == f {
            assert(entities[f].is_free());
        }
    }
    lemma_gather_skips(entities, keep, elem, f, entities.len() as int);
    // Nothing after the new entity is gathered.
    assert forall|k: int| f + 1 <= k < after.len() implies !keep(#[trigger] after[k]) by {
        assert(after[k] == entities[k]);
    }
    lemma_gather_skips(after, keep, elem, f + 1, after.len() as int);
    // The first free slot has moved on.
    assert forall|k: int| 0 <= k < f + 1 implies !(#[trigger] after[k]).is_free() by {
        if k < f {
            assert(after[k] == entities[k]);
        }
    }
    lemma_first_free_after(after, 0, f + 1);
    assert forall|i: int| 0 <= i < after.len() && keep(#[trigger] after[i]) implies i < new_index(
        after,
    ) by {
        if i != f {
            assert(after[i] == entities[i]);
        }
    }
}

/// Tells whether a handle is spent: the entity it named has been deleted,
/// whether or not its slot has been taken over since.
pub open spec fn is_spent(slots: Seq<EntityView>, entity: Entity) -> bool {
    &&& entity.index < slots.len()
    &&& entity.generation < slots[entity.index as int].generation || (entity.generation
        == slots[entity.index as int].generation && !slots[entity.index as int].alive)
}

/// The handle of a deleted entity is spent, and a spent handle names no
/// living entity.
pub proof fn lemma_deleted_handle_is_spent(slots: Seq<EntityView>, entity: Entity)
    requires
        is_alive(slots, entity),
    ensures
        is_spent(without_entity(slots, entity), entity),
        !is_alive(without_entity(slots, entity), entity),
{
}

/// A spent handle stays spent, whatever entity is made or deleted: it
/// never names a living entity again.
pub proof fn lemma_spent_handle_stays_spent(
    slots: Seq<EntityView>,
    entity: Entity,
    data: EntityView,
    other: Entity,
)
    requires
        is_spent(slots, entity),
    ensures
        !is_alive(slots, entity),
        is_spent(with_entity(slots, data), entity),
        is_spent(without_entity(slots, other), entity),
{
    lemma_first_free(slots, 0);
}

/// Tells whether every entity that lives in the first store lives in the
/// second, in the same slot and with the same components.
pub open spec fn keeps_living(a: Seq<EntityView>, b: Seq<EntityView>) -> bool {
    &&& a.len() <= b.len()
    &&& forall|i: int| 0 <= i < a.len() && (#[trigger] a[i]).alive ==> b[i] == a[i]
}

/// Making an entity leaves every living entity as it is.
pub proof fn lemma_new_entity_keeps_living(slots: Seq<EntityView>, data: EntityView)
    ensures
        keeps_living(slots, with_entity(slots, data)),
{
    lemma_first_free(slots, 0);
}

} // verus!
