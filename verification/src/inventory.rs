//! Picking things up: a player that walks onto an item takes it.

use crate::components::{InventoryComponent, Position};
use crate::state::{StateAction, StateActionView};
use crate::store::{entity_at, handle_at, views_of, Entity, EntityRecord, EntityView};
use crate::world::{World, WorldView};
use vstd::prelude::*;

verus! {

/// Tells whether a slot holds an entity that collects items: a player with
/// a movement intent, a position and an inventory.
pub open spec fn is_collector(e: EntityView) -> bool {
    e.alive && e.player is Some && e.movement is Some && e.position is Some && e.inventory is Some
}

/// Tells whether a slot holds an item that lies in the cell.
pub open spec fn is_pickup_at(e: EntityView, cell: Position) -> bool {
    e.alive && e.pickup_trigger is Some && e.position == Some(cell)
}

/// The index of the first item from `from` on that lies in the cell, or the
/// number of slots where there is none.
pub open spec fn pickup_index(entities: Seq<EntityView>, cell: Position, from: int) -> int
    decreases entities.len() - from,
{
    if from < 0 || from >= entities.len() {
        entities.len() as int
    } else if is_pickup_at(entities[from], cell) {
        from
    } else {
        pickup_index(entities, cell, from + 1)
    }
}

/// Tells whether the entity in a slot picks something up this tick: it
/// collects items, has moved this tick, and an item lies in its cell.
pub open spec fn picks_up(entities: Seq<EntityView>, i: int) -> bool {
    let e = entities[i];
    is_collector(e) && e.movement->0.moved_this_frame && pickup_index(entities, e.position->0, 0)
        < entities.len()
}

/// The index of the item that the entity in slot `i` picks up.
pub open spec fn picked_index(entities: Seq<EntityView>, i: int) -> int {
    pickup_index(entities, entities[i].position->0, 0)
}

/// A slot after the pickup stage: an entity that picks something up has the
/// item in its inventory.
pub open spec fn after_pickup(entities: Seq<EntityView>, i: int) -> EntityView {
    let e = entities[i];
    if picks_up(entities, i) {
        EntityView {
            inventory: Some(
                InventoryComponent {
                    items: e.inventory->0.items.spec_union(
                        entities[picked_index(entities, i)].pickup_trigger->0.item_to_pickup,
                    ),
                },
            ),
            ..e
        }
    } else {
        e
    }
}

/// The handles of the items that the entities of the first `n` slots pick
/// up, in the order of the slots.
pub open spec fn picked_up(entities: Seq<EntityView>, n: int) -> Seq<Entity>
    decreases n,
{
    if n <= 0 {
        Seq::empty()
    } else if picks_up(entities, n - 1) {
        picked_up(entities, n - 1).push(handle_at(entities, picked_index(entities, n - 1)))
    } else {
        picked_up(entities, n - 1)
    }
}

/// The world after the pickup stage: every player that moved onto an item
/// has it in its inventory, and the deletion of the items picked up is
/// asked for.
pub open spec fn with_pickups(w: WorldView) -> WorldView {
    WorldView {
        entities: Seq::new(w.entities.len(), |i: int| after_pickup(w.entities, i)),
        pending_actions: w.pending_actions.push(
            StateActionView::DeleteEntities {
                entities: picked_up(w.entities, w.entities.len() as int),
            },
        ),
        ..w
    }
}

/// The pickup index does not depend on the inventories.
pub proof fn lemma_same_pickups(a: Seq<EntityView>, b: Seq<EntityView>, cell: Position, from: int)
    requires
        a.len() == b.len(),
        0 <= from <= a.len(),
        forall|k: int|
            0 <= k < a.len() ==> {
                &&& (#[trigger] a[k]).alive == b[k].alive
                &&& a[k].position == b[k].position
                &&& a[k].pickup_trigger == b[k].pickup_trigger
            },
    ensures
        pickup_index(a, cell, from) == pickup_index(b, cell, from),
    decreases a.len() - from,
{
    if from < a.len() {
        assert(a[from].alive == b[from].alive);
        if !is_pickup_at(a[from], cell) {
            lemma_same_pickups(a, b, cell, from + 1);
        }
    }
}

/// Finds the first item that lies in a cell.
pub fn find_pickup_at(slots: &Vec<EntityRecord>, cell: Position) -> (r: Option<usize>)
    ensures
        match r {
            Some(index) => index < slots@.len() && index == pickup_index(views_of(slots@), cell, 0)
                && is_pickup_at(views_of(slots@)[index as int], cell),
            None => pickup_index(views_of(slots@), cell, 0) == slots@.len(),
        },
{
    let mut i: usize = 0;
    while i < slots.len()
        invariant
            i <= slots.len(),
            pickup_index(views_of(slots@), cell, 0) == pickup_index(views_of(slots@), cell, i as int),
        decreases slots.len() - i,
    {
        if slots[i].alive && slots[i].pickup_trigger.is_some() {
            match slots[i].position {
                Some(position) => {
                    if position.x == cell.x && position.y == cell.y {
                        return Some(i);
                    }
                },
                None => {},
            }
        }
        i += 1;
    }
    None
}

/// The pickup stage of a tick.
pub struct PickupTriggerSystem {}

impl PickupTriggerSystem {
    /// The pickup stage.
    pub fn new() -> Self {
        Self {  }
    }

    /// Runs the stage: every player that moved onto an item takes it, and
    /// the deletion of the items taken is asked for.
    pub fn run(&mut self, world: &mut World)
        ensures
            final(world)@ == with_pickups(old(world)@),
    {
        let ghost w = world@;
        let ghost initial = w.entities;
        let mut picked_up_items: Vec<Entity> = Vec::new();
        let n = world.slots.len();
        let mut i: usize = 0;
        while i < n
            invariant
                i <= n,
                n == world.slots@.len(),
                n == initial.len(),
                w == old(world)@,
                initial == w.entities,
                *world == (World { slots: world.slots, ..*old(world) }),
                picked_up_items@ == picked_up(initial, i as int),
                forall|k: int|
                    0 <= k < i ==> #[trigger] views_of(world.slots@)[k] == after_pickup(initial, k),
                forall|k: int| i <= k < n ==> #[trigger] views_of(world.slots@)[k] == initial[k],
                forall|k: int|
                    0 <= k < n ==> {
                        &&& (#[trigger] views_of(world.slots@)[k]).alive == initial[k].alive
                        &&& views_of(world.slots@)[k].position == initial[k].position
                        &&& views_of(world.slots@)[k].pickup_trigger == initial[k].pickup_trigger
                        &&& views_of(world.slots@)[k].generation == initial[k].generation
                    },
            decreases n - i,
        {
            let ghost before = views_of(world.slots@);
            assert(before[i as int] == initial[i as int]);
            if world.slots[i].alive && world.slots[i].player.is_some() {
                match (world.slots[i].movement, world.slots[i].position, world.slots[i].inventory) {
                    (Some(movement), Some(position), Some(inventory)) => {
                        if movement.did_move() {
                            proof {
                                lemma_same_pickups(before, initial, position, 0);
                            }
                            match find_pickup_at(&world.slots, position) {
                                Some(index) => {
                                    assert(before[index as int].pickup_trigger
                                        == initial[index as int].pickup_trigger);
                                    let item = world.slots[index].pickup_trigger.unwrap().item_to_pickup;
                                    let mut inventory = inventory;
                                    inventory.add(item);
                                    picked_up_items.push(entity_at(&world.slots, index));
                                    world.slots[i].inventory = Some(inventory);
                                    assert(views_of(world.slots@) =~= before.update(
                                        i as int,
                                        after_pickup(initial, i as int),
                                    ));
                                },
                                None => {},
                            }
                        }
                    },
                    _ => {},
                }
            }
            i += 1;
        }
        assert(views_of(world.slots@) =~= with_pickups(w).entities);
        world.push_action(StateAction::DeleteEntities { entities: picked_up_items });
    }
}

} // verus!
