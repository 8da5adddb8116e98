//! The rules of a tick: movement, exits, and the player's commands.

use crate::components::{
    ActiveDescriptionComponent, AppliesDamage, ColliderComponent, CombatLog, CombatStats,
    DebugHudComponent, DebugName, InventoryComponent, Movement, Player, PlayerInputComponent,
    PlayerInputMappingComponent, PlayerTextInputComponent, Position, TextInputView,
};
use crate::items::{ItemFlags, MAGICWAND, SCEPTER};
use crate::room::ExitDirection;
use crate::text::{ascii_lower, parse_i32, parse_number, text_is, to_ascii_lowercase};
use crate::textinput::{parse_input, parse_input_spec, split_words, views, words, TextCommand};
use crate::render::{cp437_index, white, Color, Renderable};
use crate::room::ExitTrigger;
use crate::state::{StateAction, StateActionView};
use crate::store::{views_of, EntityRecord, EntityView};
use crate::world::{World, WorldView};
use vstd::prelude::*;
use vstd::string::StringExecFns;

verus! {

/// The stable identity of an entity that was made while the game ran: a
/// number that no other such entity has.
#[derive(Debug, Copy, Clone, PartialEq, Eq, Structural)]
pub struct DynamicMarker {
    pub id: u64,
}

/// The index of the room the player is in.
#[derive(Debug, Copy, Clone, PartialEq, Eq, Structural)]
pub struct CurrentRoom(pub i32);

impl CurrentRoom {
    /// The index of the room.
    pub fn get_room_index(&self) -> (r: i32)
        ensures
            r == self.0,
    {
        self.0
    }
}

/// Tells whether a slot holds an entity that blocks its cell.
pub open spec fn is_blocker(e: EntityView) -> bool {
    e.alive && e.position is Some && e.collider is Some
}

/// Tells whether a slot holds an entity that takes part in movement: one
/// that blocks its cell and has a movement intent.
pub open spec fn is_mover(e: EntityView) -> bool {
    is_blocker(e) && e.movement is Some
}

/// The cell a mover asks to enter: its own cell, displaced by its intent.
pub open spec fn target_x(e: EntityView) -> int {
    e.position->0.x + e.movement->0.intent().0
}

/// See [`target_x`].
pub open spec fn target_y(e: EntityView) -> int {
    e.position->0.y + e.movement->0.intent().1
}

/// See [`target_x`].
pub open spec fn target_cell(e: EntityView) -> Position {
    Position { x: target_x(e) as i32, y: target_y(e) as i32 }
}

/// Tells whether the cell that the mover asks to enter has coordinates of
/// the coordinate type.
pub open spec fn target_fits(e: EntityView) -> bool {
    &&& i32::MIN <= target_x(e) <= i32::MAX
    &&& i32::MIN <= target_y(e) <= i32::MAX
}

/// Tells whether the target cell of every mover has coordinates of the
/// coordinate type.
pub open spec fn movement_in_range(slots: Seq<EntityView>) -> bool {
    forall|i: int| 0 <= i < slots.len() && is_mover(#[trigger] slots[i]) ==> target_fits(slots[i])
}

/// The cells of the blockers among the first `n` slots, in the order of the
/// slots.
pub open spec fn blocker_cells(slots: Seq<EntityView>, n: int) -> Seq<Position>
    decreases n,
{
    if n <= 0 {
        Seq::empty()
    } else if is_blocker(slots[n - 1]) {
        blocker_cells(slots, n - 1).push(slots[n - 1].position->0)
    } else {
        blocker_cells(slots, n - 1)
    }
}

/// A mover after its step has taken place: it stands in its target cell, its
/// intent is taken, and the move is recorded.
pub open spec fn moved_entity(e: EntityView) -> EntityView {
    EntityView {
        position: Some(target_cell(e)),
        movement: Some(Movement { moved_this_frame: true, ..e.movement->0.cleared() }),
        ..e
    }
}

/// A mover after its step has been refused: it stays, its intent is taken,
/// and the step it attempted is kept.
pub open spec fn blocked_entity(e: EntityView) -> EntityView {
    EntityView { movement: Some(e.movement->0.cleared()), ..e }
}

/// A slot after the intents have been taken: the intent of a mover is
/// taken, and no move is recorded yet; every other slot is as it was.
pub open spec fn taken(e: EntityView) -> EntityView {
    if is_mover(e) {
        blocked_entity(e)
    } else {
        e
    }
}

/// The store after the intents have been taken.
pub open spec fn take_intents(entities: Seq<EntityView>) -> Seq<EntityView> {
    Seq::new(entities.len(), |i: int| taken(entities[i]))
}

/// Tells whether a slot holds a mover that waits for its step: it has
/// attempted a step that has not taken place.
pub open spec fn is_waiting(e: EntityView) -> bool {
    is_mover(e) && e.movement->0.spec_was_move_blocked()
}

/// The cell that a waiting mover attempts to enter.
pub open spec fn wanted_x(e: EntityView) -> int {
    e.position->0.x + e.movement->0.attempted_x_movement
}

/// See [`wanted_x`].
pub open spec fn wanted_y(e: EntityView) -> int {
    e.position->0.y + e.movement->0.attempted_y_movement
}

/// See [`wanted_x`].
pub open spec fn wanted_cell(e: EntityView) -> Position {
    Position { x: wanted_x(e) as i32, y: wanted_y(e) as i32 }
}

/// A waiting mover after its step has taken place.
pub open spec fn arrived_entity(e: EntityView) -> EntityView {
    EntityView {
        position: Some(wanted_cell(e)),
        movement: Some(Movement { moved_this_frame: true, ..e.movement->0 }),
        ..e
    }
}

/// The state of one tick of movement: the slots as far as they have been
/// resolved, the cells that movers have left, and the cells that movers have
/// entered.
pub struct MoveState {
    pub slots: Seq<EntityView>,
    pub freed: Seq<Position>,
    pub claimed: Seq<Position>,
}

/// Tells whether a mover may enter a cell: the cell held no blocker when the
/// tick began, or a mover has left it this tick; and no mover has entered it
/// this tick.
pub open spec fn may_enter(blockers: Seq<Position>, state: MoveState, cell: Position) -> bool {
    &&& !blockers.contains(cell) || state.freed.contains(cell)
    &&& !state.claimed.contains(cell)
}

/// The state after the slot at `i` has had a turn: a mover that waits for
/// its step takes it where it may enter the cell; otherwise nothing
/// changes.
pub open spec fn move_step(blockers: Seq<Position>, state: MoveState, i: int) -> MoveState {
    let e = state.slots[i];
    if is_waiting(e) && may_enter(blockers, state, wanted_cell(e)) {
        MoveState {
            slots: state.slots.update(i, arrived_entity(e)),
            freed: state.freed.push(e.position->0),
            claimed: state.claimed.push(wanted_cell(e)),
        }
    } else {
        state
    }
}

/// The state after the first `n` slots have had a turn, in the order of the
/// slots.
pub open spec fn pass_upto(blockers: Seq<Position>, state: MoveState, n: int) -> MoveState
    decreases n,
{
    if n <= 0 {
        state
    } else {
        move_step(blockers, pass_upto(blockers, state, n - 1), n - 1)
    }
}

/// The state after every slot has had a turn.
pub open spec fn run_pass(blockers: Seq<Position>, state: MoveState) -> MoveState {
    pass_upto(blockers, state, state.slots.len() as int)
}

/// The state after `k` passes over the slots.
pub open spec fn passes(blockers: Seq<Position>, state: MoveState, k: int) -> MoveState
    decreases k,
{
    if k <= 0 {
        state
    } else {
        run_pass(blockers, passes(blockers, state, k - 1))
    }
}

/// The cells that hold a blocker when the tick begins.
pub open spec fn all_blocker_cells(initial: Seq<EntityView>) -> Seq<Position> {
    blocker_cells(initial, initial.len() as int)
}

/// The state in which a tick of movement begins: the intents are taken, and
/// no mover has moved.
pub open spec fn begin_moves(initial: Seq<EntityView>) -> MoveState {
    MoveState { slots: take_intents(initial), freed: Seq::empty(), claimed: Seq::empty() }
}

/// The state in which a tick of movement ends. The movers are given turn
/// after turn, pass after pass, so that a mover that was refused while the
/// cell it asks for was still held can take its step once the cell has been
/// left. There are as many passes as slots, and that is enough: no further
/// pass would change anything ([`lemma_movement_is_settled`]).
pub open spec fn resolved(initial: Seq<EntityView>) -> MoveState {
    passes(all_blocker_cells(initial), begin_moves(initial), initial.len() as int)
}

/// The store after one tick of movement.
pub open spec fn resolve_movement(initial: Seq<EntityView>) -> Seq<EntityView> {
    resolved(initial).slots
}

/// Tells whether a list of cells holds a cell.
pub fn contains_cell(cells: &Vec<Position>, cell: Position) -> (r: bool)
    ensures
        r == cells@.contains(cell),
{
    let mut i: usize = 0;
    while i < cells.len()
        invariant
            i <= cells.len(),
            forall|k: int| 0 <= k < i ==> cells@[k] != cell,
        decreases cells.len() - i,
    {
        if cells[i].x == cell.x && cells[i].y == cell.y {
            return true;
        }
        i += 1;
    }
    false
}

/// Tells whether the mover in slot `k` has taken its step.
pub open spec fn has_moved(initial: Seq<EntityView>, state: MoveState, k: int) -> bool {
    is_mover(initial[k]) && state.slots[k] == moved_entity(initial[k])
}

/// Tells whether a cell is one that a mover has left by taking its step.
#[verifier::opaque]
pub open spec fn left_by_mover(initial: Seq<EntityView>, state: MoveState, cell: Position) -> bool {
    exists|k: int|
        0 <= k < initial.len() && #[trigger] has_moved(initial, state, k) && initial[k].position
            == Some(cell)
}

/// Tells whether a cell is one that a mover has entered by taking its step.
#[verifier::opaque]
pub open spec fn entered_by_mover(initial: Seq<EntityView>, state: MoveState, cell: Position) -> bool {
    exists|k: int|
        0 <= k < initial.len() && #[trigger] has_moved(initial, state, k) && target_cell(initial[k])
            == cell
}

/// The cell where a mover that has moved stood is a cell left by a mover,
/// and the cell it asked for is a cell entered by a mover.
pub proof fn lemma_mover_left_and_entered(initial: Seq<EntityView>, state: MoveState, k: int)
    requires
        0 <= k < initial.len(),
        has_moved(initial, state, k),
    ensures
        left_by_mover(initial, state, initial[k].position->0),
        entered_by_mover(initial, state, target_cell(initial[k])),
{
    reveal(left_by_mover);
    reveal(entered_by_mover);
}

/// A mover that has left a cell.
pub proof fn lemma_who_left(initial: Seq<EntityView>, state: MoveState, cell: Position) -> (k: int)
    requires
        left_by_mover(initial, state, cell),
    ensures
        0 <= k < initial.len(),
        has_moved(initial, state, k),
        initial[k].position == Some(cell),
{
    reveal(left_by_mover);
    choose|k: int|
        0 <= k < initial.len() && #[trigger] has_moved(initial, state, k) && initial[k].position
            == Some(cell)
}

/// A mover that has entered a cell.
pub proof fn lemma_who_entered(initial: Seq<EntityView>, state: MoveState, cell: Position) -> (k:
    int)
    requires
        entered_by_mover(initial, state, cell),
    ensures
        0 <= k < initial.len(),
        has_moved(initial, state, k),
        target_cell(initial[k]) == cell,
{
    reveal(entered_by_mover);
    choose|k: int|
        0 <= k < initial.len() && #[trigger] has_moved(initial, state, k) && target_cell(initial[k])
            == cell
}

/// Tells whether a state of a tick of movement is one that the tick can be
/// in: every slot is as it was after the intents were taken, or has moved;
/// the cells left are those where the movers that moved stood, and the
/// cells entered are those they asked for; every mover that moved was
/// allowed into its cell; and no two movers have entered the same cell.
pub open spec fn is_sound(initial: Seq<EntityView>, state: MoveState) -> bool {
    &&& state.slots.len() == initial.len()
    &&& forall|i: int|
        0 <= i < initial.len() ==> #[trigger] state.slots[i] == taken(initial[i]) || has_moved(
            initial,
            state,
            i,
        )
    &&& forall|c: Position| #[trigger] state.freed.contains(c) ==> left_by_mover(initial, state, c)
    &&& forall|c: Position| #[trigger]
        state.claimed.contains(c) ==> entered_by_mover(initial, state, c)
    &&& forall|k: int|
        0 <= k < initial.len() && #[trigger] has_moved(initial, state, k) ==> {
            &&& state.freed.contains(initial[k].position->0)
            &&& state.claimed.contains(target_cell(initial[k]))
            &&& !all_blocker_cells(initial).contains(target_cell(initial[k]))
                || state.freed.contains(target_cell(initial[k]))
        }
    &&& forall|j: int, k: int|
        0 <= j < initial.len() && 0 <= k < initial.len() && j != k && #[trigger] has_moved(
            initial,
            state,
            j,
        ) && #[trigger] has_moved(initial, state, k) ==> target_cell(initial[j]) != target_cell(
            initial[k],
        )
}

/// Tells whether the second state comes after the first: the movers that
/// had moved stay where they are, a slot changes only by its mover taking
/// the step it waited for, and the cells left and entered are still so.
pub open spec fn comes_after(a: MoveState, b: MoveState) -> bool {
    &&& a.slots.len() == b.slots.len()
    &&& forall|i: int|
        0 <= i < a.slots.len() ==> #[trigger] b.slots[i] == a.slots[i] || (is_waiting(a.slots[i])
            && b.slots[i] == arrived_entity(a.slots[i]))
    &&& forall|c: Position| #[trigger] a.freed.contains(c) ==> b.freed.contains(c)
    &&& forall|c: Position| #[trigger] a.claimed.contains(c) ==> b.claimed.contains(c)
}

/// A list with one more cell holds the cells it held, and that cell.
pub proof fn lemma_pushed_cells(cells: Seq<Position>, cell: Position)
    ensures
        cells.push(cell).contains(cell),
        forall|c: Position| #[trigger] cells.contains(c) ==> cells.push(cell).contains(c),
        forall|c: Position| #[trigger] cells.push(cell).contains(c) ==> cells.contains(c) || c == cell,
{
    assert(cells.push(cell)[cells.len() as int] == cell);
    assert forall|c: Position| #[trigger] cells.contains(c) implies cells.push(cell).contains(c) by {
        let w = choose|w: int| 0 <= w < cells.len() && cells[w] == c;
        assert(cells.push(cell)[w] == c);
    }
    assert forall|c: Position| #[trigger] cells.push(cell).contains(c) implies cells.contains(c) || c
        == cell by {
        let w = choose|w: int| 0 <= w < cells.push(cell).len() && cells.push(cell)[w] == c;
        if w < cells.len() {
            assert(cells[w] == c);
        }
    }
}

/// The tick begins in a state that it can be in.
pub proof fn lemma_begin_is_sound(initial: Seq<EntityView>)
    ensures
        is_sound(initial, begin_moves(initial)),
{
}

/// A turn leads from a state that the tick can be in to one that comes
/// after it and that the tick can be in; it changes no slot but its own; and
/// a waiting mover that may enter its cell has moved after its turn.
pub proof fn lemma_move_step(initial: Seq<EntityView>, state: MoveState, i: int)
    requires
        movement_in_range(initial),
        is_sound(initial, state),
        0 <= i < initial.len(),
    ensures
        is_sound(initial, move_step(all_blocker_cells(initial), state, i)),
        comes_after(state, move_step(all_blocker_cells(initial), state, i)),
        forall|k: int|
            0 <= k < initial.len() && k != i ==> move_step(
                all_blocker_cells(initial),
                state,
                i,
            ).slots[k] == state.slots[k],
        is_mover(initial[i]) && initial[i].movement->0.intent() != (0int, 0int) && !has_moved(
            initial,
            state,
            i,
        ) && may_enter(all_blocker_cells(initial), state, target_cell(initial[i])) ==> has_moved(
            initial,
            move_step(all_blocker_cells(initial), state, i),
            i,
        ),
{
    let blockers = all_blocker_cells(initial);
    let e = state.slots[i];
    let after = move_step(blockers, state, i);
    assert(state.slots[i] == taken(initial[i]) || has_moved(initial, state, i));
    if is_mover(initial[i]) && !has_moved(initial, state, i) {
        assert(e == blocked_entity(initial[i]));
        assert(wanted_cell(e) == target_cell(initial[i]));
        assert(arrived_entity(e) == moved_entity(initial[i]));
    }
    if is_waiting(e) && may_enter(blockers, state, wanted_cell(e)) {
        assert(is_mover(initial[i]) && !has_moved(initial, state, i));
        let from = e.position->0;
        let to = wanted_cell(e);
        lemma_pushed_cells(state.freed, from);
        lemma_pushed_cells(state.claimed, to);
        assert(has_moved(initial, after, i));
        assert forall|k: int| 0 <= k < initial.len() && has_moved(initial, state, k) implies has_moved(
            initial,
            after,
            k,
        ) by {
            assert(k != i);
        }
        assert forall|k: int|
            0 <= k < initial.len() && #[trigger] has_moved(initial, after, k) implies k == i
            || has_moved(initial, state, k) by {
            if k != i {
                assert(after.slots[k] == state.slots[k]);
            }
        }
        assert forall|k: int| 0 <= k < initial.len() implies #[trigger] after.slots[k] == taken(
            initial[k],
        ) || has_moved(initial, after, k) by {
            if k != i {
                assert(after.slots[k] == state.slots[k]);
                assert(state.slots[k] == taken(initial[k]) || has_moved(initial, state, k));
            }
        }
        assert forall|c: Position| #[trigger] after.freed.contains(c) implies left_by_mover(
            initial,
            after,
            c,
        ) by {
            if state.freed.contains(c) {
                let k = lemma_who_left(initial, state, c);
                assert(has_moved(initial, after, k));
                lemma_mover_left_and_entered(initial, after, k);
            } else {
                assert(initial[i].position == Some(c));
                lemma_mover_left_and_entered(initial, after, i);
            }
        }
        assert forall|c: Position| #[trigger] after.claimed.contains(c) implies entered_by_mover(
            initial,
            after,
            c,
        ) by {
            if state.claimed.contains(c) {
                let k = lemma_who_entered(initial, state, c);
                assert(has_moved(initial, after, k));
                lemma_mover_left_and_entered(initial, after, k);
            } else {
                assert(target_cell(initial[i]) == c);
                lemma_mover_left_and_entered(initial, after, i);
            }
        }
        assert forall|j: int, k: int|
            0 <= j < initial.len() && 0 <= k < initial.len() && j != k && #[trigger] has_moved(
                initial,
                after,
                j,
            ) && #[trigger] has_moved(initial, after, k) implies target_cell(initial[j])
            != target_cell(initial[k]) by {
            if j != i && k != i {
                assert(has_moved(initial, state, j) && has_moved(initial, state, k));
            } else if j == i {
                assert(has_moved(initial, state, k));
                assert(state.claimed.contains(target_cell(initial[k])));
            } else {
                assert(has_moved(initial, state, j));
                assert(state.claimed.contains(target_cell(initial[j])));
            }
        }
        assert(is_sound(initial, after));
        assert(comes_after(state, after));
    }
}

/// What comes after what comes after a state comes after that state.
pub proof fn lemma_comes_after_twice(a: MoveState, b: MoveState, c: MoveState)
    requires
        comes_after(a, b),
        comes_after(b, c),
    ensures
        comes_after(a, c),
{
    assert forall|i: int| 0 <= i < a.slots.len() implies #[trigger] c.slots[i] == a.slots[i] || (
    is_waiting(a.slots[i]) && c.slots[i] == arrived_entity(a.slots[i])) by {
        assert(b.slots[i] == a.slots[i] || (is_waiting(a.slots[i]) && b.slots[i] == arrived_entity(
            a.slots[i],
        )));
        assert(c.slots[i] == b.slots[i] || (is_waiting(b.slots[i]) && c.slots[i] == arrived_entity(
            b.slots[i],
        )));
    }
}

/// The turns of the slots from `m` up to `n` lead from a state that the
/// tick can be in to one that comes after it and that the tick can be in,
/// and change no slot from `n` on.
pub proof fn lemma_pass_upto(initial: Seq<EntityView>, state: MoveState, m: int, n: int)
    requires
        movement_in_range(initial),
        is_sound(initial, state),
        0 <= m <= n <= initial.len(),
    ensures
        is_sound(initial, pass_upto(all_blocker_cells(initial), state, n)),
        comes_after(
            pass_upto(all_blocker_cells(initial), state, m),
            pass_upto(all_blocker_cells(initial), state, n),
        ),
        forall|k: int|
            n <= k < initial.len() ==> pass_upto(all_blocker_cells(initial), state, n).slots[k]
                == state.slots[k],
    decreases n,
{
    let blockers = all_blocker_cells(initial);
    if n > 0 {
        if m < n {
            lemma_pass_upto(initial, state, m, n - 1);
        } else {
            lemma_pass_upto(initial, state, n - 1, n - 1);
        }
        let before = pass_upto(blockers, state, n - 1);
        lemma_move_step(initial, before, n - 1);
        if m < n {
            lemma_comes_after_twice(
                pass_upto(blockers, state, m),
                before,
                pass_upto(blockers, state, n),
            );
        }
    }
}

/// The passes from the `j`-th up to the `k`-th lead from a state that the
/// tick can be in to one that comes after it and that the tick can be in.
pub proof fn lemma_passes(initial: Seq<EntityView>, j: int, k: int)
    requires
        movement_in_range(initial),
        0 <= j <= k,
    ensures
        is_sound(initial, passes(all_blocker_cells(initial), begin_moves(initial), k)),
        comes_after(
            passes(all_blocker_cells(initial), begin_moves(initial), j),
            passes(all_blocker_cells(initial), begin_moves(initial), k),
        ),
    decreases k,
{
    let blockers = all_blocker_cells(initial);
    let begin = begin_moves(initial);
    if k > 0 {
        if j < k {
            lemma_passes(initial, j, k - 1);
        } else {
            lemma_passes(initial, k - 1, k - 1);
        }
        let before = passes(blockers, begin, k - 1);
        lemma_pass_upto(initial, before, 0, initial.len() as int);
        if j < k {
            lemma_comes_after_twice(passes(blockers, begin, j), before, passes(blockers, begin, k));
        }
    } else {
        lemma_begin_is_sound(initial);
    }
}

/// Once a pass changes nothing, no later pass changes anything.
pub proof fn lemma_passes_rest(blockers: Seq<Position>, state: MoveState, j: int, k: int)
    requires
        0 <= j <= k,
        run_pass(blockers, passes(blockers, state, j)) == passes(blockers, state, j),
    ensures
        passes(blockers, state, k) == passes(blockers, state, j),
    decreases k,
{
    if k > j {
        lemma_passes_rest(blockers, state, j, k - 1);
    }
}

/// A mover that has moved stays where it is in every state that comes
/// after.
pub proof fn lemma_moved_stays(initial: Seq<EntityView>, a: MoveState, b: MoveState, k: int)
    requires
        0 <= k < initial.len(),
        a.slots.len() == initial.len(),
        comes_after(a, b),
        has_moved(initial, a, k),
    ensures
        has_moved(initial, b, k),
{
    assert(b.slots[k] == a.slots[k] || (is_waiting(a.slots[k]) && b.slots[k] == arrived_entity(
        a.slots[k],
    )));
}

/// Takes the intent of every mover: the step asked for is kept as the step
/// attempted, the accumulator is empty, and no move is recorded.
pub fn take_all_intents(slots: &mut Vec<EntityRecord>)
    ensures
        final(slots)@.len() == old(slots)@.len(),
        views_of(final(slots)@) == take_intents(views_of(old(slots)@)),
{
    let ghost initial = views_of(slots@);
    let n = slots.len();
    let mut i: usize = 0;
    while i < n
        invariant
            i <= n,
            n == slots@.len(),
            n == initial.len(),
            forall|k: int| 0 <= k < i ==> #[trigger] views_of(slots@)[k] == taken(initial[k]),
            forall|k: int| i <= k < n ==> #[trigger] views_of(slots@)[k] == initial[k],
        decreases n - i,
    {
        let ghost before = views_of(slots@);
        assert(before[i as int] == initial[i as int]);
        if slots[i].alive && slots[i].collider.is_some() && slots[i].position.is_some() {
            match slots[i].movement {
                Some(movement) => {
                    let mut movement = movement;
                    movement.clear_movement();
                    slots[i].movement = Some(movement);
                    assert(views_of(slots@) =~= before.update(i as int, taken(initial[i as int])));
                },
                None => {},
            }
        }
        i += 1;
    }
    assert(views_of(slots@) =~= take_intents(initial));
}

/// Moves every mover by one tick. The intents are taken; then the movers
/// are given turn after turn, in the order of the slots and pass after pass,
/// until a pass moves nobody: on its turn a mover that has not moved yet
/// enters the cell it asks for where [`may_enter`] allows it.
pub fn resolve_moves(slots: &mut Vec<EntityRecord>)
    requires
        movement_in_range(views_of(old(slots)@)),
    ensures
        final(slots)@.len() == old(slots)@.len(),
        views_of(final(slots)@) == resolve_movement(views_of(old(slots)@)),
{
    let ghost initial = views_of(slots@);
    let ghost cells = all_blocker_cells(initial);
    let n = slots.len();
    let mut blockers: Vec<Position> = Vec::new();
    let mut b: usize = 0;
    while b < n
        invariant
            b <= n,
            n == slots@.len(),
            initial == views_of(slots@),
            blockers@ == blocker_cells(initial, b as int),
        decreases n - b,
    {
        if slots[b].alive && slots[b].collider.is_some() {
            match slots[b].position {
                Some(position) => {
                    blockers.push(position);
                },
                None => {},
            }
        }
        b += 1;
    }
    take_all_intents(slots);
    let mut new_blockers: Vec<Position> = Vec::new();
    let mut free_blockers: Vec<Position> = Vec::new();
    let ghost begin = begin_moves(initial);
    let mut done: usize = 0;
    let mut progress = true;
    assert(begin == (MoveState {
        slots: views_of(slots@),
        freed: free_blockers@,
        claimed: new_blockers@,
    }));
    while done < n && progress
        invariant
            done <= n,
            n == slots@.len(),
            n == initial.len(),
            movement_in_range(initial),
            cells == all_blocker_cells(initial),
            blockers@ == cells,
            begin == begin_moves(initial),
            (MoveState { slots: views_of(slots@), freed: free_blockers@, claimed: new_blockers@ })
                == passes(cells, begin, done as int),
            !progress ==> run_pass(cells, passes(cells, begin, done as int)) == passes(
                cells,
                begin,
                done as int,
            ),
        decreases n - done,
    {
        let ghost start = passes(cells, begin, done as int);
        proof {
            lemma_passes(initial, done as int, done as int);
        }
        progress = false;
        let mut i: usize = 0;
        while i < n
            invariant
                i <= n,
                n == slots@.len(),
                n == initial.len(),
                n == start.slots.len(),
                movement_in_range(initial),
                is_sound(initial, start),
                cells == all_blocker_cells(initial),
                blockers@ == cells,
                (MoveState {
                    slots: views_of(slots@),
                    freed: free_blockers@,
                    claimed: new_blockers@,
                }) == pass_upto(cells, start, i as int),
                !progress ==> pass_upto(cells, start, i as int) == start,
            decreases n - i,
        {
            let ghost state = pass_upto(cells, start, i as int);
            let ghost e = state.slots[i as int];
            proof {
                lemma_pass_upto(initial, start, i as int, i as int);
                assert(state.slots[i as int] == taken(initial[i as int]) || has_moved(
                    initial,
                    state,
                    i as int,
                ));
            }
            assert(e == slots@[i as int]@);
            if slots[i].alive && slots[i].collider.is_some() && slots[i].position.is_some()
                && slots[i].movement.is_some() {
                let position = slots[i].position.unwrap();
                let movement = slots[i].movement.unwrap();
                if movement.was_move_blocked() {
                    assert(is_waiting(e));
                    assert(e == blocked_entity(initial[i as int]));
                    let (delta_x, delta_y) = movement.get_attempted_move();
                    let tentative = Position { x: position.x + delta_x, y: position.y + delta_y };
                    assert(tentative == wanted_cell(e));
                    let blocked = contains_cell(&blockers, tentative);
                    let freed = contains_cell(&free_blockers, tentative);
                    let claimed = contains_cell(&new_blockers, tentative);
                    if (!blocked || freed) && !claimed {
                        let ghost before = views_of(slots@);
                        new_blockers.push(tentative);
                        free_blockers.push(position);
                        let mut movement = movement;
                        movement.moved();
                        slots[i].position = Some(tentative);
                        slots[i].movement = Some(movement);
                        progress = true;
                        assert(slots@[i as int]@ == arrived_entity(e));
                        assert(views_of(slots@) =~= before.update(i as int, arrived_entity(e)));
                    }
                }
            }
            i += 1;
        }
        done += 1;
    }
    proof {
        if done < n {
            lemma_passes_rest(cells, begin, done as int, n as int);
        }
    }
}

/// Tells whether [`resolve_moves`] may be called on the store.
pub fn moves_in_range(slots: &Vec<EntityRecord>) -> (r: bool)
    ensures
        r == movement_in_range(views_of(slots@)),
{
    let mut i: usize = 0;
    while i < slots.len()
        invariant
            i <= slots.len(),
            forall|k: int|
                0 <= k < i && is_mover(#[trigger] views_of(slots@)[k]) ==> target_fits(
                    views_of(slots@)[k],
                ),
        decreases slots.len() - i,
    {
        if slots[i].alive && slots[i].collider.is_some() && slots[i].position.is_some()
            && slots[i].movement.is_some() {
            let position = slots[i].position.unwrap();
            let (delta_x, delta_y) = slots[i].movement.unwrap().get_movement_input();
            if position.x.checked_add(delta_x).is_none() || position.y.checked_add(delta_y).is_none() {
                assert(is_mover(views_of(slots@)[i as int]));
                return false;
            }
        }
        i += 1;
    }
    true
}

/// The cell of every blocker is among the blocker cells.
pub proof fn lemma_blocker_cells_hold(slots: Seq<EntityView>, n: int, j: int)
    requires
        0 <= j < n <= slots.len(),
        is_blocker(slots[j]),
    ensures
        blocker_cells(slots, n).contains(slots[j].position->0),
    decreases n,
{
    if j < n - 1 {
        lemma_blocker_cells_hold(slots, n - 1, j);
        let cells = blocker_cells(slots, n - 1);
        let w = choose|w: int| 0 <= w < cells.len() && cells[w] == slots[j].position->0;
        assert(blocker_cells(slots, n)[w] == slots[j].position->0);
    } else {
        let cells = blocker_cells(slots, n);
        assert(cells[cells.len() - 1] == slots[j].position->0);
    }
}

/// After a tick of movement every mover has either moved into its target
/// cell or been refused and stayed; either way its intent is taken: the
/// accumulator is empty, and the step it asked for is kept as the step it
/// attempted. Every other slot is as it was.
pub proof fn lemma_every_intent_is_taken(initial: Seq<EntityView>, i: int)
    requires
        movement_in_range(initial),
        0 <= i < initial.len(),
    ensures
        resolve_movement(initial).len() == initial.len(),
        !is_mover(initial[i]) ==> resolve_movement(initial)[i] == initial[i],
        is_mover(initial[i]) ==> {
            &&& resolve_movement(initial)[i] == moved_entity(initial[i]) || resolve_movement(
                initial,
            )[i] == blocked_entity(initial[i])
            &&& resolve_movement(initial)[i].movement->0.intent() == (0int, 0int)
            &&& resolve_movement(initial)[i].movement->0.attempted_x_movement
                == initial[i].movement->0.intent().0
            &&& resolve_movement(initial)[i].movement->0.attempted_y_movement
                == initial[i].movement->0.intent().1
        },
{
    lemma_passes(initial, 0, initial.len() as int);
    let end = resolved(initial);
    assert(end.slots[i] == taken(initial[i]) || has_moved(initial, end, i));
}

/// A mover whose target cell holds a collider, and is left by no mover
/// during the tick, does not move: it keeps its cell, no move is recorded,
/// and the step it attempted is the step it asked for.
pub proof fn lemma_blocked_by_collider(initial: Seq<EntityView>, i: int, j: int)
    requires
        movement_in_range(initial),
        0 <= i < initial.len(),
        0 <= j < initial.len(),
        is_mover(initial[i]),
        is_blocker(initial[j]),
        initial[j].position == Some(target_cell(initial[i])),
        !resolved(initial).freed.contains(target_cell(initial[i])),
    ensures
        resolve_movement(initial)[i] == blocked_entity(initial[i]),
        resolve_movement(initial)[i].position == initial[i].position,
        !resolve_movement(initial)[i].movement->0.moved_this_frame,
        resolve_movement(initial)[i].movement->0.attempted_x_movement
            == initial[i].movement->0.intent().0,
        resolve_movement(initial)[i].movement->0.attempted_y_movement
            == initial[i].movement->0.intent().1,
{
    let end = resolved(initial);
    lemma_passes(initial, 0, initial.len() as int);
    lemma_blocker_cells_hold(initial, initial.len() as int, j);
    assert(end.slots[i] == taken(initial[i]) || has_moved(initial, end, i));
}

/// A mover whose target cell holds a collider, and is the cell of no mover,
/// does not move: it keeps its cell, no move is recorded, and the step it
/// attempted is the step it asked for.
pub proof fn lemma_blocked_by_static_collider(initial: Seq<EntityView>, i: int, j: int)
    requires
        movement_in_range(initial),
        0 <= i < initial.len(),
        0 <= j < initial.len(),
        is_mover(initial[i]),
        is_blocker(initial[j]),
        initial[j].position == Some(target_cell(initial[i])),
        forall|k: int|
            0 <= k < initial.len() && is_mover(#[trigger] initial[k]) ==> initial[k].position
                != Some(target_cell(initial[i])),
    ensures
        resolve_movement(initial)[i] == blocked_entity(initial[i]),
        resolve_movement(initial)[i].position == initial[i].position,
        !resolve_movement(initial)[i].movement->0.moved_this_frame,
        resolve_movement(initial)[i].movement->0.attempted_x_movement
            == initial[i].movement->0.intent().0,
        resolve_movement(initial)[i].movement->0.attempted_y_movement
            == initial[i].movement->0.intent().1,
{
    let end = resolved(initial);
    lemma_passes(initial, 0, initial.len() as int);
    if end.freed.contains(target_cell(initial[i])) {
        let k = lemma_who_left(initial, end, target_cell(initial[i]));
        assert(is_mover(initial[k]));
    }
    lemma_blocked_by_collider(initial, i, j);
}

/// Two movers, one following the other, whichever slot comes first: the
/// leader, in slot `b`, asks for a cell that held no blocker when the tick
/// began; the follower, in slot `a`, asks for the cell that the leader
/// leaves; and no other mover asks for either cell. Then both moves take
/// place.
pub proof fn lemma_follow_move(initial: Seq<EntityView>, a: int, b: int)
    requires
        movement_in_range(initial),
        0 <= a < initial.len(),
        0 <= b < initial.len(),
        a != b,
        is_mover(initial[a]),
        is_mover(initial[b]),
        initial[a].position != initial[b].position,
        initial[b].position == Some(target_cell(initial[a])),
        !all_blocker_cells(initial).contains(target_cell(initial[b])),
        forall|k: int|
            0 <= k < initial.len() && k != a && k != b && is_mover(#[trigger] initial[k]) ==> {
                &&& target_cell(initial[k]) != target_cell(initial[a])
                &&& target_cell(initial[k]) != target_cell(initial[b])
            },
    ensures
        resolve_movement(initial)[a] == moved_entity(initial[a]),
        resolve_movement(initial)[b] == moved_entity(initial[b]),
        resolve_movement(initial)[a].position == initial[b].position,
        resolve_movement(initial)[b].position == Some(target_cell(initial[b])),
{
    let n = initial.len() as int;
    let cells = all_blocker_cells(initial);
    let begin = begin_moves(initial);
    let cell_b = target_cell(initial[a]);
    let cell_c = target_cell(initial[b]);
    lemma_blocker_cells_hold(initial, n, b);
    assert(cell_b != cell_c);
    lemma_begin_is_sound(initial);
    // The first pass: the turn of the leader.
    let at_b = pass_upto(cells, begin, b);
    lemma_pass_upto(initial, begin, b, b);
    assert(at_b.slots[b] == begin.slots[b]);
    assert(!has_moved(initial, at_b, b));
    if at_b.claimed.contains(cell_c) {
        let k = lemma_who_entered(initial, at_b, cell_c);
        assert(is_mover(initial[k]));
        assert(false);
    }
    lemma_move_step(initial, at_b, b);
    let after_b = pass_upto(cells, begin, b + 1);
    assert(has_moved(initial, after_b, b));
    lemma_pass_upto(initial, begin, b + 1, n);
    let first = passes(cells, begin, 1);
    assert(passes(cells, begin, 0) == begin);
    assert(first == pass_upto(cells, begin, n));
    lemma_moved_stays(initial, after_b, first, b);
    lemma_passes(initial, 1, n);
    lemma_moved_stays(initial, first, resolved(initial), b);
    // The second pass: the turn of the follower, unless it has moved before.
    if has_moved(initial, first, a) {
        lemma_moved_stays(initial, first, resolved(initial), a);
    } else {
        assert(first.slots[a] == taken(initial[a]) || has_moved(initial, first, a));
        let at_a = pass_upto(cells, first, a);
        lemma_pass_upto(initial, first, 0, a);
        assert(pass_upto(cells, first, 0) == first);
        assert(at_a.slots[a] == first.slots[a]);
        assert(!has_moved(initial, at_a, a));
        assert(first.freed.contains(cell_b));
        assert(at_a.freed.contains(cell_b));
        if at_a.claimed.contains(cell_b) {
            let k = lemma_who_entered(initial, at_a, cell_b);
            assert(is_mover(initial[k]));
            assert(false);
        }
        lemma_move_step(initial, at_a, a);
        let after_a = pass_upto(cells, first, a + 1);
        assert(has_moved(initial, after_a, a));
        lemma_pass_upto(initial, first, a + 1, n);
        let second = passes(cells, begin, 2);
        assert(second == pass_upto(cells, first, n));
        lemma_moved_stays(initial, after_a, second, a);
        lemma_passes(initial, 2, n);
        lemma_moved_stays(initial, second, resolved(initial), a);
    }
}

/// No two movers enter the same cell: where a mover has moved, every other
/// mover that asks for the same cell is refused and stays where it is.
pub proof fn lemma_one_mover_per_cell(initial: Seq<EntityView>, k: int, w: int)
    requires
        movement_in_range(initial),
        0 <= k < initial.len(),
        0 <= w < initial.len(),
        k != w,
        is_mover(initial[k]),
        is_mover(initial[w]),
        target_cell(initial[k]) == target_cell(initial[w]),
        resolve_movement(initial)[k] == moved_entity(initial[k]),
    ensures
        resolve_movement(initial)[w] == blocked_entity(initial[w]),
        resolve_movement(initial)[w].position == initial[w].position,
        !resolve_movement(initial)[w].movement->0.moved_this_frame,
        initial[w].movement->0.intent() != (0int, 0int) ==> resolve_movement(
            initial,
        )[w].movement->0.spec_was_move_blocked(),
{
    let end = resolved(initial);
    lemma_passes(initial, 0, initial.len() as int);
    assert(has_moved(initial, end, k));
    assert(end.slots[w] == taken(initial[w]) || has_moved(initial, end, w));
}

/// Colliders that stand in cells of their own when the tick begins stand in
/// cells of their own when it ends: no two of them end in one cell.
pub proof fn lemma_colliders_stay_apart(initial: Seq<EntityView>, u: int, v: int)
    requires
        movement_in_range(initial),
        0 <= u < initial.len(),
        0 <= v < initial.len(),
        u != v,
        is_blocker(initial[u]),
        is_blocker(initial[v]),
        forall|j: int, k: int|
            0 <= j < initial.len() && 0 <= k < initial.len() && j != k && is_blocker(
                #[trigger] initial[j],
            ) && is_blocker(#[trigger] initial[k]) ==> initial[j].position != initial[k].position,
    ensures
        is_blocker(resolve_movement(initial)[u]),
        is_blocker(resolve_movement(initial)[v]),
        resolve_movement(initial)[u].position != resolve_movement(initial)[v].position,
{
    let end = resolved(initial);
    let n = initial.len() as int;
    lemma_passes(initial, 0, n);
    assert(end.slots[u] == taken(initial[u]) || has_moved(initial, end, u));
    assert(end.slots[v] == taken(initial[v]) || has_moved(initial, end, v));
    if has_moved(initial, end, u) && !has_moved(initial, end, v) {
        lemma_moved_apart(initial, u, v);
    } else if has_moved(initial, end, v) && !has_moved(initial, end, u) {
        lemma_moved_apart(initial, v, u);
    }
}

/// A mover that has moved does not stand in the cell of a collider that has
/// stayed, where the colliders stood in cells of their own when the tick
/// began.
pub proof fn lemma_moved_apart(initial: Seq<EntityView>, u: int, v: int)
    requires
        movement_in_range(initial),
        0 <= u < initial.len(),
        0 <= v < initial.len(),
        u != v,
        is_blocker(initial[v]),
        has_moved(initial, resolved(initial), u),
        !has_moved(initial, resolved(initial), v),
        forall|j: int, k: int|
            0 <= j < initial.len() && 0 <= k < initial.len() && j != k && is_blocker(
                #[trigger] initial[j],
            ) && is_blocker(#[trigger] initial[k]) ==> initial[j].position != initial[k].position,
    ensures
        target_cell(initial[u]) != initial[v].position->0,
{
    let end = resolved(initial);
    let n = initial.len() as int;
    let cell = target_cell(initial[u]);
    lemma_passes(initial, 0, n);
    if initial[v].position == Some(cell) {
        lemma_blocker_cells_hold(initial, n, v);
        assert(end.freed.contains(cell));
        let k = lemma_who_left(initial, end, cell);
        assert(is_blocker(initial[k]));
        assert(k != v);
        assert(false);
    }
}

/// How many of the first `m` slots hold a mover that waits for its step.
pub open spec fn waiting_count(slots: Seq<EntityView>, m: int) -> int
    decreases m,
{
    if m <= 0 {
        0
    } else if is_waiting(slots[m - 1]) {
        waiting_count(slots, m - 1) + 1
    } else {
        waiting_count(slots, m - 1)
    }
}

/// At most every slot holds a mover that waits.
pub proof fn lemma_waiting_count_bounds(slots: Seq<EntityView>, m: int)
    requires
        0 <= m,
    ensures
        0 <= waiting_count(slots, m) <= m,
    decreases m,
{
    if m > 0 {
        lemma_waiting_count_bounds(slots, m - 1);
    }
}

/// A mover that takes its step waits no more: there is one waiting mover
/// less.
pub proof fn lemma_one_waits_less(slots: Seq<EntityView>, i: int, m: int)
    requires
        0 <= i < slots.len(),
        0 <= m <= slots.len(),
        is_waiting(slots[i]),
    ensures
        waiting_count(slots.update(i, arrived_entity(slots[i])), m) == if i < m {
            waiting_count(slots, m) - 1
        } else {
            waiting_count(slots, m)
        },
    decreases m,
{
    if m > 0 {
        lemma_one_waits_less(slots, i, m - 1);
    }
}

/// The turns of a pass never add a waiting mover, and take one away where
/// they change anything; and they leave the number of slots as it is.
pub proof fn lemma_pass_counts(blockers: Seq<Position>, state: MoveState, n: int)
    requires
        0 <= n <= state.slots.len(),
    ensures
        pass_upto(blockers, state, n).slots.len() == state.slots.len(),
        waiting_count(pass_upto(blockers, state, n).slots, state.slots.len() as int)
            <= waiting_count(state.slots, state.slots.len() as int),
        pass_upto(blockers, state, n) != state ==> waiting_count(
            pass_upto(blockers, state, n).slots,
            state.slots.len() as int,
        ) < waiting_count(state.slots, state.slots.len() as int),
    decreases n,
{
    if n > 0 {
        lemma_pass_counts(blockers, state, n - 1);
        let before = pass_upto(blockers, state, n - 1);
        let e = before.slots[n - 1];
        if is_waiting(e) && may_enter(blockers, before, wanted_cell(e)) {
            lemma_one_waits_less(before.slots, n - 1, state.slots.len() as int);
        }
    }
}

/// After `k` passes either a pass has changed nothing, or at least `k`
/// movers wait no more.
pub proof fn lemma_passes_settle(blockers: Seq<Position>, state: MoveState, k: int)
    requires
        0 <= k,
    ensures
        passes(blockers, state, k).slots.len() == state.slots.len(),
        run_pass(blockers, passes(blockers, state, k)) == passes(blockers, state, k)
            || waiting_count(passes(blockers, state, k).slots, state.slots.len() as int)
            <= state.slots.len() - k,
    decreases k,
{
    let n = state.slots.len() as int;
    if k > 0 {
        lemma_passes_settle(blockers, state, k - 1);
        let before = passes(blockers, state, k - 1);
        let after = passes(blockers, state, k);
        lemma_pass_counts(blockers, before, n);
        if run_pass(blockers, before) == before {
            assert(after == before);
        }
    } else {
        lemma_waiting_count_bounds(state.slots, n);
    }
}

/// Where no mover waits, a pass changes nothing.
pub proof fn lemma_nobody_waits(blockers: Seq<Position>, state: MoveState, n: int)
    requires
        0 <= n <= state.slots.len(),
        waiting_count(state.slots, state.slots.len() as int) <= 0,
    ensures
        pass_upto(blockers, state, n) == state,
    decreases n,
{
    if n > 0 {
        lemma_nobody_waits(blockers, state, n - 1);
        lemma_none_waits(state.slots, state.slots.len() as int, n - 1);
    }
}

/// Where the count of waiting movers among the first `m` slots is zero,
/// none of these slots holds one.
pub proof fn lemma_none_waits(slots: Seq<EntityView>, m: int, i: int)
    requires
        0 <= i < m,
        waiting_count(slots, m) <= 0,
    ensures
        !is_waiting(slots[i]),
    decreases m,
{
    lemma_waiting_count_bounds(slots, m - 1);
    if i < m - 1 {
        lemma_none_waits(slots, m - 1, i);
    }
}

/// A slot whose mover does not wait is left as it is by the turns that
/// follow.
pub proof fn lemma_settled_slot_stays(
    blockers: Seq<Position>,
    state: MoveState,
    m: int,
    n: int,
    k: int,
)
    requires
        0 <= m <= n <= state.slots.len(),
        0 <= k < state.slots.len(),
        !is_waiting(pass_upto(blockers, state, m).slots[k]),
    ensures
        pass_upto(blockers, state, n).slots[k] == pass_upto(blockers, state, m).slots[k],
    decreases n,
{
    if n > m {
        lemma_settled_slot_stays(blockers, state, m, n - 1, k);
        lemma_pass_counts(blockers, state, n - 1);
    }
}

/// Where a pass changes nothing, none of its turns changes anything.
pub proof fn lemma_idle_pass(blockers: Seq<Position>, state: MoveState, n: int)
    requires
        0 <= n <= state.slots.len(),
        run_pass(blockers, state) == state,
    ensures
        pass_upto(blockers, state, n) == state,
    decreases n,
{
    if n > 0 {
        lemma_idle_pass(blockers, state, n - 1);
        let e = state.slots[n - 1];
        if is_waiting(e) && may_enter(blockers, state, wanted_cell(e)) {
            lemma_settled_slot_stays(blockers, state, n, state.slots.len() as int, n - 1);
            assert(false);
        }
    }
}

/// The tick of movement ends in a state that no further pass would change:
/// as many passes as there are slots are enough. In that state no mover
/// that still waits may enter the cell it asks for.
pub proof fn lemma_movement_is_settled(initial: Seq<EntityView>, i: int)
    requires
        0 <= i < initial.len(),
    ensures
        run_pass(all_blocker_cells(initial), resolved(initial)) == resolved(initial),
        resolved(initial).slots.len() == initial.len(),
        is_waiting(resolved(initial).slots[i]) ==> !may_enter(
            all_blocker_cells(initial),
            resolved(initial),
            wanted_cell(resolved(initial).slots[i]),
        ),
{
    let cells = all_blocker_cells(initial);
    let begin = begin_moves(initial);
    let n = initial.len() as int;
    let end = resolved(initial);
    lemma_passes_settle(cells, begin, n);
    if run_pass(cells, end) != end {
        lemma_nobody_waits(cells, end, n);
    }
    lemma_idle_pass(cells, end, i);
    lemma_idle_pass(cells, end, i + 1);
}

/// The movement stage of a tick.
pub struct MovementSystem {}

impl MovementSystem {
    /// The movement stage.
    pub fn new() -> Self {
        Self {  }
    }

    /// Runs the stage where the target cell of every mover has coordinates
    /// of the coordinate type, and tells whether it did; otherwise nobody
    /// moves. Either way the intent of every mover is taken.
    pub fn run(&mut self, world: &mut World) -> (done: bool)
        ensures
            done == movement_in_range(old(world)@.entities),
            final(world)@ == if done {
                WorldView { entities: resolve_movement(old(world)@.entities), ..old(world)@ }
            } else {
                WorldView { entities: take_intents(old(world)@.entities), ..old(world)@ }
            },
    {
        if moves_in_range(&world.slots) {
            resolve_moves(&mut world.slots);
            true
        } else {
            take_all_intents(&mut world.slots);
            false
        }
    }
}

/// The displacement that the directions asked for add up to, on the x axis.
pub open spec fn input_dx(input: PlayerInputComponent) -> int {
    (if input.move_right {
        1int
    } else {
        0int
    }) - (if input.move_left {
        1int
    } else {
        0int
    })
}

/// The displacement that the directions asked for add up to, on the y axis.
pub open spec fn input_dy(input: PlayerInputComponent) -> int {
    (if input.move_down {
        1int
    } else {
        0int
    }) - (if input.move_up {
        1int
    } else {
        0int
    })
}

/// Tells whether a slot holds an entity that is steered: one with player
/// input and a movement intent.
pub open spec fn is_steered(e: EntityView) -> bool {
    e.alive && e.player_input is Some && e.movement is Some
}

/// Tells whether any direction is asked for.
pub open spec fn any_direction(input: PlayerInputComponent) -> bool {
    input.move_left || input.move_right || input.move_up || input.move_down
}

/// A slot after the player's input has been applied: the directions asked
/// for are added to the movement intent of a steered entity.
pub open spec fn steered(e: EntityView) -> EntityView {
    if is_steered(e) {
        EntityView {
            movement: Some(
                e.movement->0.with_input(input_dx(e.player_input->0), input_dy(e.player_input->0)),
            ),
            ..e
        }
    } else {
        e
    }
}

/// The store after the player's input has been applied.
pub open spec fn apply_input(entities: Seq<EntityView>) -> Seq<EntityView> {
    Seq::new(entities.len(), |i: int| steered(entities[i]))
}

/// Tells whether the intent of every steered entity stays within the range
/// of its type.
pub open spec fn input_in_range(entities: Seq<EntityView>) -> bool {
    forall|i: int|
        0 <= i < entities.len() && is_steered(#[trigger] entities[i])
            ==> entities[i].movement->0.input_fits(
            input_dx(entities[i].player_input->0),
            input_dy(entities[i].player_input->0),
        )
}

/// Tells whether a steered entity asks for a direction.
pub open spec fn player_moves(entities: Seq<EntityView>) -> bool {
    exists|i: int|
        0 <= i < entities.len() && is_steered(#[trigger] entities[i]) && any_direction(
            entities[i].player_input->0,
        )
}

/// The stage that turns the player's input into movement intent.
pub struct ApplyPlayerMovementInputSystem {
    pub player_moved: bool,
}

impl ApplyPlayerMovementInputSystem {
    /// The stage, before it has run.
    pub fn new() -> (r: Self)
        ensures
            !r.player_moved,
    {
        Self { player_moved: false }
    }

    /// Tells whether [`ApplyPlayerMovementInputSystem::apply`] may be
    /// called on the store.
    pub fn in_range(slots: &Vec<EntityRecord>) -> (r: bool)
        ensures
            r == input_in_range(views_of(slots@)),
    {
        let mut i: usize = 0;
        while i < slots.len()
            invariant
                i <= slots.len(),
                forall|k: int|
                    0 <= k < i && is_steered(#[trigger] views_of(slots@)[k]) ==> views_of(
                        slots@,
                    )[k].movement->0.input_fits(
                        input_dx(views_of(slots@)[k].player_input->0),
                        input_dy(views_of(slots@)[k].player_input->0),
                    ),
            decreases slots.len() - i,
        {
            if slots[i].alive {
                match (slots[i].player_input, slots[i].movement) {
                    (Some(input), Some(movement)) => {
                        let (dx, dy) = Self::net_input(&input);
                        if !movement.can_add_movement_input(dx, dy) {
                            assert(is_steered(views_of(slots@)[i as int]));
                            return false;
                        }
                    },
                    _ => {},
                }
            }
            i += 1;
        }
        true
    }

    /// The displacement that the directions asked for add up to.
    pub fn net_input(input: &PlayerInputComponent) -> (r: (i32, i32))
        ensures
            r.0 == input_dx(*input),
            r.1 == input_dy(*input),
    {
        let mut dx: i32 = 0;
        let mut dy: i32 = 0;
        if input.move_left {
            dx = dx - 1;
        }
        if input.move_right {
            dx = dx + 1;
        }
        if input.move_up {
            dy = dy - 1;
        }
        if input.move_down {
            dy = dy + 1;
        }
        (dx, dy)
    }

    /// Adds the directions asked for to the movement intent of every
    /// steered entity, and records whether any direction was asked for.
    pub fn apply(&mut self, slots: &mut Vec<EntityRecord>)
        requires
            input_in_range(views_of(old(slots)@)),
        ensures
            views_of(final(slots)@) == apply_input(views_of(old(slots)@)),
            final(self).player_moved == player_moves(views_of(old(slots)@)),
    {
        let ghost initial = views_of(slots@);
        self.player_moved = false;
        let n = slots.len();
        let mut i: usize = 0;
        while i < n
            invariant
                i <= n,
                n == slots@.len(),
                n == initial.len(),
                input_in_range(initial),
                forall|k: int| 0 <= k < i ==> #[trigger] views_of(slots@)[k] == steered(initial[k]),
                forall|k: int| i <= k < n ==> #[trigger] views_of(slots@)[k] == initial[k],
                self.player_moved == exists|k: int|
                    0 <= k < i && is_steered(#[trigger] initial[k]) && any_direction(
                        initial[k].player_input->0,
                    ),
            decreases n - i,
        {
            let ghost before = views_of(slots@);
            assert(before[i as int] == initial[i as int]);
            if slots[i].alive {
                match (slots[i].player_input, slots[i].movement) {
                    (Some(input), Some(movement)) => {
                        let mut movement = movement;
                        let (dx, dy) = Self::net_input(&input);
                        movement.add_movement_input(dx, dy);
                        slots[i].movement = Some(movement);
                        if input.move_left || input.move_right || input.move_up || input.move_down {
                            self.player_moved = true;
                        }
                        assert(views_of(slots@) =~= before.update(
                            i as int,
                            steered(initial[i as int]),
                        ));
                    },
                    _ => {},
                }
            }
            i += 1;
        }
        assert(views_of(slots@) =~= apply_input(initial));
    }

    /// Runs the stage where the intent of every steered entity stays within
    /// the range of its type, and tells whether it did; otherwise nothing
    /// changes but that no move of the player is recorded.
    pub fn run(&mut self, world: &mut World) -> (done: bool)
        ensures
            done == input_in_range(old(world)@.entities),
            final(world)@ == if done {
                WorldView { entities: apply_input(old(world)@.entities), ..old(world)@ }
            } else {
                old(world)@
            },
            final(self).player_moved == (done && player_moves(old(world)@.entities)),
    {
        if Self::in_range(&world.slots) {
            self.apply(&mut world.slots);
            true
        } else {
            self.player_moved = false;
            false
        }
    }
}

/// Tells whether a slot holds a player that moved this tick and stands
/// somewhere.
pub open spec fn is_moved_player(e: EntityView) -> bool {
    e.alive && e.player is Some && e.movement is Some && e.position is Some
        && e.movement->0.moved_this_frame
}

/// Tells whether a slot holds an exit trigger that stands in the cell.
pub open spec fn is_trigger_at(e: EntityView, cell: Position) -> bool {
    e.alive && e.exit_trigger is Some && e.position == Some(cell)
}

/// The index of the first exit trigger from `from` on that stands in the
/// cell, or the number of slots where there is none.
pub open spec fn trigger_index(entities: Seq<EntityView>, cell: Position, from: int) -> int
    decreases entities.len() - from,
{
    if from < 0 || from >= entities.len() {
        entities.len() as int
    } else if is_trigger_at(entities[from], cell) {
        from
    } else {
        trigger_index(entities, cell, from + 1)
    }
}

/// The exit trigger that a player who moved this tick stands on: for the
/// first such player from slot `from` on that stands on one, the first
/// trigger in its cell.
pub open spec fn exit_taken(entities: Seq<EntityView>, from: int) -> Option<ExitTrigger>
    decreases entities.len() - from,
{
    if from < 0 || from >= entities.len() {
        None
    } else if is_moved_player(entities[from]) && trigger_index(
        entities,
        entities[from].position->0,
        0,
    ) < entities.len() {
        entities[trigger_index(entities, entities[from].position->0, 0)].exit_trigger
    } else {
        exit_taken(entities, from + 1)
    }
}

/// The world after the exit stage: a change of room is asked for where a
/// player has walked onto an exit trigger.
pub open spec fn with_exit_taken(w: WorldView) -> WorldView {
    match exit_taken(w.entities, 0) {
        Some(trigger) => w.with_action(
            StateActionView::ChangeRoom {
                direction: trigger.from_direction,
                to_room: trigger.to_room,
            },
        ),
        None => w,
    }
}

/// Finds the first exit trigger that stands in a cell.
pub fn find_trigger_at(slots: &Vec<EntityRecord>, cell: Position) -> (r: Option<ExitTrigger>)
    ensures
        r == if trigger_index(views_of(slots@), cell, 0) < slots@.len() {
            views_of(slots@)[trigger_index(views_of(slots@), cell, 0)].exit_trigger
        } else {
            None
        },
        r is Some <==> trigger_index(views_of(slots@), cell, 0) < slots@.len(),
{
    let mut i: usize = 0;
    while i < slots.len()
        invariant
            i <= slots.len(),
            trigger_index(views_of(slots@), cell, 0) == trigger_index(views_of(slots@), cell, i as int),
        decreases slots.len() - i,
    {
        if slots[i].alive {
            match (slots[i].exit_trigger, slots[i].position) {
                (Some(trigger), Some(position)) => {
                    if position.x == cell.x && position.y == cell.y {
                        return Some(trigger);
                    }
                },
                _ => {},
            }
        }
        i += 1;
    }
    None
}

/// The exit stage of a tick.
pub struct ExitTriggerSystem {}

impl ExitTriggerSystem {
    /// The exit stage.
    pub fn new() -> Self {
        Self {  }
    }

    /// Runs the stage: where a player that moved this tick stands on an
    /// exit trigger, a change to the trigger's room is asked for.
    pub fn run(&mut self, world: &mut World)
        ensures
            final(world)@ == with_exit_taken(old(world)@),
    {
        let ghost w = world@;
        let mut i: usize = 0;
        while i < world.slots.len()
            invariant
                i <= world.slots.len(),
                world@ == w,
                w == old(world)@,
                exit_taken(w.entities, 0) == exit_taken(w.entities, i as int),
            decreases world.slots.len() - i,
        {
            if world.slots[i].alive && world.slots[i].player.is_some() {
                match (world.slots[i].movement, world.slots[i].position) {
                    (Some(movement), Some(position)) => {
                        if movement.did_move() {
                            match find_trigger_at(&world.slots, position) {
                                Some(exit_trigger) => {
                                    assert(w.entities[i as int] == world.slots@[i as int]@);
                                    assert(is_moved_player(w.entities[i as int]));
                                    assert(exit_taken(w.entities, i as int) == Some(exit_trigger));
                                    world.push_action(
                                        StateAction::ChangeRoom {
                                            direction: exit_trigger.from_direction,
                                            to_room: exit_trigger.to_room,
                                        },
                                    );
                                    return ;
                                },
                                None => {},
                            }
                        }
                    },
                    _ => {},
                }
            }
            assert(w.entities[i as int] == world.slots@[i as int]@);
            i += 1;
        }
    }
}

/// The entity that the player is when the game begins: it stands in the
/// middle of the room, is steered by the keyboard, can type commands, carry
/// items, be hurt and deal damage, has a combat log, and may give the
/// privileged commands.
pub open spec fn player_entity() -> EntityView {
    EntityView {
        player_input_mapping: Some(PlayerInputMappingComponent {  }),
        player_input: Some(
            PlayerInputComponent {
                move_left: false,
                move_right: false,
                move_up: false,
                move_down: false,
            },
        ),
        player_text_input: Some(TextInputView { text: Seq::empty(), submitted: false }),
        position: Some(Position { x: 12, y: 9 }),
        renderable: Some(
            Renderable {
                glyph: cp437_index('\u{2663}'),
                color: Color { r: 255, g: 255, b: 255 },
                zorder: 1,
            },
        ),
        player: Some(Player {  }),
        movement: Some(
            Movement {
                cumulative_x_movement: 0,
                cumulative_y_movement: 0,
                moved_this_frame: false,
                attempted_x_movement: 0,
                attempted_y_movement: 0,
            },
        ),
        collider: Some(ColliderComponent {  }),
        active_description: Some(Seq::empty()),
        inventory: Some(InventoryComponent { items: ItemFlags { bits: 0 } }),
        debug_hud: Some(DebugHudComponent {  }),
        combat_stats: Some(CombatStats { max_health: 10, health: 10 }),
        applies_damage: Some(AppliesDamage { damage: 10 }),
        debug_name: Some("player"@),
        combat_log: Some(seq![Seq::empty(), Seq::empty()]),
        ..EntityView::vacant(0)
    }
}

/// Makes the player.
pub fn create_player_entity(world: &mut World)
    ensures
        final(world)@ == old(world)@.spawn(player_entity()),
{
    let mut record = EntityRecord::new();
    record.player_input_mapping = Some(PlayerInputMappingComponent {  });
    record.player_input = Some(PlayerInputComponent::new());
    record.player_text_input = Some(PlayerTextInputComponent::new());
    record.position = Some(Position { x: 12, y: 9 });
    record.renderable = Some(Renderable::new_with_z('\u{2663}', white(), 1));
    record.player = Some(Player {  });
    record.movement = Some(Movement::new());
    record.collider = Some(ColliderComponent {  });
    record.active_description = Some(ActiveDescriptionComponent::new());
    record.inventory = Some(InventoryComponent::new());
    record.debug_hud = Some(DebugHudComponent {  });
    record.combat_stats = Some(CombatStats { max_health: 10, health: 10 });
    record.applies_damage = Some(AppliesDamage { damage: 10 });
    record.debug_name = Some(DebugName { text: String::from_str("player") });
    record.combat_log = Some(CombatLog::new());
    world.create_entity(record);
}

/// Tells whether a slot holds an entity that goes by a name: the name is
/// the lookup name of its description, or its shown name in lower case.
pub open spec fn is_described_as(e: EntityView, target: Seq<char>) -> bool {
    e.alive && e.description is Some && (e.description->0.input_name == target || ascii_lower(
        e.description->0.name,
    ) == target)
}

/// The index of the first slot from `from` on whose entity goes by the
/// name, or the number of slots where there is none.
pub open spec fn look_index(entities: Seq<EntityView>, target: Seq<char>, from: int) -> int
    decreases entities.len() - from,
{
    if from < 0 || from >= entities.len() {
        entities.len() as int
    } else if is_described_as(entities[from], target) {
        from
    } else {
        look_index(entities, target, from + 1)
    }
}

/// The answer to looking at something: the flavour text of the first entity
/// that goes by the name, and a fixed answer where there is none.
pub open spec fn look_target_answer(entities: Seq<EntityView>, target: Seq<char>) -> Seq<char> {
    if look_index(entities, target, 0) < entities.len() {
        entities[look_index(entities, target, 0)].description->0.description
    } else {
        "look at target"@
    }
}

/// The answer to looking: at the named thing, or at the room.
pub open spec fn look_answer(entities: Seq<EntityView>, target: Option<Seq<char>>) -> Seq<char> {
    match target {
        Some(name) => look_target_answer(entities, name),
        None => "look at room with long description here"@,
    }
}

/// What a command comes to: the answer shown to the player, if the command
/// is understood, and the structural change it asks for, if any.
pub struct CommandOutcome {
    pub answer: Option<Seq<char>>,
    pub action: Option<StateActionView>,
}

/// Tells whether a command word wields a thing.
pub open spec fn is_wielding(command: Seq<char>) -> bool {
    command == "use"@ || command == "wave"@
}

/// What using the scepter comes to.
pub open spec fn scepter_outcome(room: i32, inventory: ItemFlags, command: Seq<char>) -> CommandOutcome {
    CommandOutcome {
        answer: Some(
            if !inventory.spec_contains(ItemFlags { bits: SCEPTER }) {
                "you don't have a scepter"@
            } else if !is_wielding(command) {
                "that doesn't work"@
            } else if room == 0 {
                "you win!"@
            } else {
                "nothing happens"@
            },
        ),
        action: None,
    }
}

/// Tells whether the wand opens the secret passage: it is held, wielded,
/// and the player is in the winding passage.
pub open spec fn wand_opens(room: i32, inventory: ItemFlags, command: Seq<char>) -> bool {
    inventory.spec_contains(ItemFlags { bits: MAGICWAND }) && is_wielding(command) && room == 76
}

/// What using the wand comes to.
pub open spec fn wand_outcome(room: i32, inventory: ItemFlags, command: Seq<char>) -> CommandOutcome {
    CommandOutcome {
        answer: Some(
            if !inventory.spec_contains(ItemFlags { bits: MAGICWAND }) {
                "you don't have a wand"@
            } else if !is_wielding(command) {
                "that doesn't work"@
            } else if room == 76 {
                "a secret passage opens!"@
            } else {
                "nothing happens"@
            },
        ),
        action: if wand_opens(room, inventory, command) {
            Some(StateActionView::RedirectRoom { original_room: 76, new_room: 1 })
        } else {
            None
        },
    }
}

/// The outcome of a command that is not understood.
pub open spec fn no_outcome() -> CommandOutcome {
    CommandOutcome { answer: None, action: None }
}

/// What using a thing comes to.
pub open spec fn use_outcome(
    room: i32,
    inventory: ItemFlags,
    command: Seq<char>,
    target: Option<Seq<char>>,
) -> CommandOutcome {
    match target {
        Some(name) => if name == "scepter"@ {
            scepter_outcome(room, inventory, command)
        } else if name == "wand"@ {
            wand_outcome(room, inventory, command)
        } else {
            no_outcome()
        },
        None => no_outcome(),
    }
}

/// Tells whether a command word is one of the words for using a thing.
pub open spec fn is_use_word(command: Seq<char>) -> bool {
    command == "use"@ || command == "wave"@ || command == "show"@ || command == "play"@
}

/// What a line of player input comes to.
pub open spec fn command_outcome(
    entities: Seq<EntityView>,
    room: i32,
    inventory: ItemFlags,
    text: Seq<char>,
) -> CommandOutcome {
    match parse_input_spec(text) {
        Some((command, arg)) => if command == "look"@ {
            CommandOutcome { answer: Some(look_answer(entities, arg)), action: None }
        } else if is_use_word(command) {
            use_outcome(room, inventory, command, arg)
        } else if command == "quit"@ {
            CommandOutcome { answer: None, action: Some(StateActionView::Quit) }
        } else {
            no_outcome()
        },
        None => no_outcome(),
    }
}

/// The pending actions with one more, if there is one.
pub open spec fn with_optional(actions: Seq<StateActionView>, action: Option<StateActionView>) -> Seq<
    StateActionView,
> {
    match action {
        Some(a) => actions.push(a),
        None => actions,
    }
}

/// What the privileged command `go` asks for: a change to the room whose
/// number follows, and nothing where no number follows.
pub open spec fn debug_go(to_room: Option<Seq<char>>) -> StateActionView {
    match to_room {
        Some(text) => match parse_number(text) {
            Some(room) => StateActionView::ChangeRoom {
                direction: ExitDirection::Invalid,
                to_room: room,
            },
            None => StateActionView::Idle,
        },
        None => StateActionView::Idle,
    }
}

/// What the privileged command `redirect` asks for: the redirection of the
/// first room to the second, and nothing where two numbers do not follow.
pub open spec fn debug_redirect(
    original_room: Option<Seq<char>>,
    new_room: Option<Seq<char>>,
) -> StateActionView {
    match (original_room, new_room) {
        (Some(a), Some(b)) => match (parse_number(a), parse_number(b)) {
            (Some(original_room), Some(new_room)) => StateActionView::RedirectRoom {
                original_room,
                new_room,
            },
            _ => StateActionView::Idle,
        },
        _ => StateActionView::Idle,
    }
}

/// The word at a place of a list, if the list is that long.
pub open spec fn word_at(tokens: Seq<Seq<char>>, index: int) -> Option<Seq<char>> {
    if 0 <= index < tokens.len() {
        Some(tokens[index])
    } else {
        None
    }
}

/// What a line asks for as a privileged command, if it is one.
pub open spec fn debug_action(text: Seq<char>) -> Option<StateActionView> {
    let tokens = words(text);
    if tokens.len() == 0 {
        None
    } else if tokens[0] == "go"@ {
        Some(debug_go(word_at(tokens, 1)))
    } else if tokens[0] == "dsave"@ {
        Some(StateActionView::DebugSave)
    } else if tokens[0] == "dload"@ {
        Some(StateActionView::DebugLoad)
    } else if tokens[0] == "redirect"@ {
        Some(debug_redirect(word_at(tokens, 1), word_at(tokens, 2)))
    } else {
        None
    }
}

/// Adds an action to the pending actions.
pub fn push_state_action(state_actions: &mut Vec<StateAction>, action: StateAction)
    ensures
        views_of(final(state_actions)@) == views_of(old(state_actions)@).push(action@),
{
    let ghost before = views_of(state_actions@);
    let ghost view = action@;
    state_actions.push(action);
    assert(views_of(state_actions@) =~= before.push(view));
}

/// The stage that carries out the player's commands.
pub struct PlayerTextCommandSystem {}

impl PlayerTextCommandSystem {
    /// The command stage.
    pub fn new() -> Self {
        Self {  }
    }

    /// Carries out a line of player input and returns the answer, if the
    /// line is understood.
    pub fn process_text_input(
        &mut self,
        current_room: CurrentRoom,
        inventory: &InventoryComponent,
        text_command: &String,
        slots: &Vec<EntityRecord>,
        state_actions: &mut Vec<StateAction>,
    ) -> (r: Option<String>)
        ensures
            match r {
                Some(answer) => Some(answer@),
                None => None,
            } == command_outcome(
                views_of(slots@),
                current_room.0,
                inventory.items,
                text_command@,
            ).answer,
            views_of(final(state_actions)@) == with_optional(
                views_of(old(state_actions)@),
                command_outcome(
                    views_of(slots@),
                    current_room.0,
                    inventory.items,
                    text_command@,
                ).action,
            ),
    {
        match parse_input(text_command) {
            TextCommand::Given { command, arg } => {
                if text_is(&command, "look") {
                    self.process_look(arg, slots)
                } else if text_is(&command, "use") || text_is(&command, "wave") || text_is(
                    &command,
                    "show",
                ) || text_is(&command, "play") {
                    self.process_use(state_actions, current_room, inventory, command, arg)
                } else if text_is(&command, "quit") {
                    self.process_quit(state_actions)
                } else {
                    None
                }
            },
            TextCommand::Blank => None,
        }
    }

    /// Answers a look: at the named thing, or at the room.
    pub fn process_look(&self, look_at_target_name: Option<String>, slots: &Vec<EntityRecord>) -> (r:
        Option<String>)
        ensures
            r is Some,
            r->0@ == look_answer(
                views_of(slots@),
                match look_at_target_name {
                    Some(n) => Some(n@),
                    None => None,
                },
            ),
    {
        match look_at_target_name {
            Some(target_name) => self.process_look_target(target_name.as_str(), slots),
            None => self.process_look_room(),
        }
    }

    /// Answers a look at a named thing.
    pub fn process_look_target(&self, target_name: &str, slots: &Vec<EntityRecord>) -> (r: Option<
        String,
    >)
        ensures
            r is Some,
            r->0@ == look_target_answer(views_of(slots@), target_name@),
    {
        let mut i: usize = 0;
        while i < slots.len()
            invariant
                i <= slots.len(),
                look_index(views_of(slots@), target_name@, 0) == look_index(
                    views_of(slots@),
                    target_name@,
                    i as int,
                ),
            decreases slots.len() - i,
        {
            if slots[i].alive {
                match &slots[i].description {
                    Some(description) => {
                        if text_is(&description.input_name, target_name) {
                            return Some(description.description.clone());
                        }
                        if text_is(&to_ascii_lowercase(description.name.as_str()), target_name) {
                            return Some(description.description.clone());
                        }
                    },
                    None => {},
                }
            }
            i += 1;
        }
        Some(String::from_str("look at target"))
    }

    /// Answers a look at the room.
    pub fn process_look_room(&self) -> (r: Option<String>)
        ensures
            r is Some,
            r->0@ == "look at room with long description here"@,
    {
        Some(String::from_str("look at room with long description here"))
    }

    /// Carries out the use of a thing.
    pub fn process_use(
        &self,
        state_actions: &mut Vec<StateAction>,
        current_room: CurrentRoom,
        inventory: &InventoryComponent,
        use_command: String,
        maybe_use_target_name: Option<String>,
    ) -> (r: Option<String>)
        ensures
            match r {
                Some(answer) => Some(answer@),
                None => None,
            } == use_outcome(
                current_room.0,
                inventory.items,
                use_command@,
                match maybe_use_target_name {
                    Some(n) => Some(n@),
                    None => None,
                },
            ).answer,
            views_of(final(state_actions)@) == with_optional(
                views_of(old(state_actions)@),
                use_outcome(
                    current_room.0,
                    inventory.items,
                    use_command@,
                    match maybe_use_target_name {
                        Some(n) => Some(n@),
                        None => None,
                    },
                ).action,
            ),
    {
        if let Some(use_target_name) = maybe_use_target_name {
            if text_is(&use_target_name, "scepter") {
                return self.process_scepter(state_actions, current_room, inventory, use_command);
            } else if text_is(&use_target_name, "wand") {
                return self.process_wand(state_actions, current_room, inventory, use_command);
            }
        }
        None
    }

    /// Carries out the use of the scepter.
    pub fn process_scepter(
        &self,
        state_actions: &mut Vec<StateAction>,
        current_room: CurrentRoom,
        inventory: &InventoryComponent,
        use_command: String,
    ) -> (r: Option<String>)
        ensures
            r is Some,
            Some(r->0@) == scepter_outcome(current_room.0, inventory.items, use_command@).answer,
            final(state_actions)@ == old(state_actions)@,
    {
        if !inventory.has(ItemFlags { bits: SCEPTER }) {
            return Some(String::from_str("you don't have a scepter"));
        }
        if text_is(&use_command, "use") || text_is(&use_command, "wave") {
            let room_index = current_room.get_room_index();
            if room_index == 0 {
                Some(String::from_str("you win!"))
            } else {
                Some(String::from_str("nothing happens"))
            }
        } else {
            Some(String::from_str("that doesn't work"))
        }
    }

    /// Carries out the use of the wand.
    pub fn process_wand(
        &self,
        state_actions: &mut Vec<StateAction>,
        current_room: CurrentRoom,
        inventory: &InventoryComponent,
        use_command: String,
    ) -> (r: Option<String>)
        ensures
            r is Some,
            Some(r->0@) == wand_outcome(current_room.0, inventory.items, use_command@).answer,
            views_of(final(state_actions)@) == with_optional(
                views_of(old(state_actions)@),
                wand_outcome(current_room.0, inventory.items, use_command@).action,
            ),
    {
        if !inventory.has(ItemFlags { bits: MAGICWAND }) {
            return Some(String::from_str("you don't have a wand"));
        }
        if text_is(&use_command, "use") || text_is(&use_command, "wave") {
            let room_index = current_room.get_room_index();
            if room_index == 76 {
                push_state_action(
                    state_actions,
                    StateAction::RedirectRoom { original_room: 76, new_room: 1 },
                );
                Some(String::from_str("a secret passage opens!"))
            } else {
                Some(String::from_str("nothing happens"))
            }
        } else {
            Some(String::from_str("that doesn't work"))
        }
    }

    /// Asks for the end of the game.
    pub fn process_quit(&mut self, state_actions: &mut Vec<StateAction>) -> (r: Option<String>)
        ensures
            r is None,
            views_of(final(state_actions)@) == views_of(old(state_actions)@).push(
                StateActionView::Quit,
            ),
    {
        push_state_action(state_actions, StateAction::Quit);
        None
    }

    /// Carries out a line of player input as a privileged command, if it is
    /// one.
    pub fn process_debug_input(&mut self, text_command: &String, state_actions: &mut Vec<StateAction>)
        ensures
            views_of(final(state_actions)@) == with_optional(
                views_of(old(state_actions)@),
                debug_action(text_command@),
            ),
    {
        let tokens = split_words(text_command.as_str());
        if tokens.len() == 0 {
            return ;
        }
        let ghost names = views(tokens@);
        assert(names == words(text_command@));
        assert(names[0] == tokens@[0]@);
        let first: Option<&str> = if tokens.len() > 1 {
            Some(tokens[1].as_str())
        } else {
            None
        };
        let second: Option<&str> = if tokens.len() > 2 {
            Some(tokens[2].as_str())
        } else {
            None
        };
        assert(tokens.len() > 1 ==> names[1] == tokens@[1]@);
        assert(tokens.len() > 2 ==> names[2] == tokens@[2]@);
        if text_is(&tokens[0], "go") {
            let action = self.process_debug_go(first);
            push_state_action(state_actions, action);
        } else if text_is(&tokens[0], "dsave") {
            push_state_action(state_actions, StateAction::DebugSave);
        } else if text_is(&tokens[0], "dload") {
            push_state_action(state_actions, StateAction::DebugLoad);
        } else if text_is(&tokens[0], "redirect") {
            let action = self.process_debug_redirect(first, second);
            push_state_action(state_actions, action);
        }
    }

    /// What the privileged command `go` asks for.
    pub fn process_debug_go(&mut self, to_room_text: Option<&str>) -> (r: StateAction)
        ensures
            r@ == debug_go(
                match to_room_text {
                    Some(t) => Some(t@),
                    None => None,
                },
            ),
    {
        match to_room_text {
            Some(to_room_str) => {
                if let Some(to_room) = parse_i32(to_room_str) {
                    return StateAction::ChangeRoom { direction: ExitDirection::Invalid, to_room };
                }
            },
            None => {},
        }
        StateAction::Idle
    }

    /// What the privileged command `redirect` asks for.
    pub fn process_debug_redirect(
        &mut self,
        original_room_text: Option<&str>,
        new_room_text: Option<&str>,
    ) -> (r: StateAction)
        ensures
            r@ == debug_redirect(
                match original_room_text {
                    Some(t) => Some(t@),
                    None => None,
                },
                match new_room_text {
                    Some(t) => Some(t@),
                    None => None,
                },
            ),
    {
        if let Some(original_room) = original_room_text {
            if let Some(new_room) = new_room_text {
                match (parse_i32(original_room), parse_i32(new_room)) {
                    (Some(original_room), Some(new_room)) => {
                        return StateAction::RedirectRoom { original_room, new_room };
                    },
                    _ => {},
                }
            }
        }
        StateAction::Idle
    }
}

/// Tells whether a slot holds an entity that gives commands: a player with
/// an inventory, a line to type on and a place for the answer.
pub open spec fn is_commander(e: EntityView) -> bool {
    e.alive && e.player is Some && e.inventory is Some && e.player_text_input is Some
        && e.active_description is Some
}

/// The answer that is shown for the outcome of a command.
pub open spec fn shown_answer(outcome: CommandOutcome) -> Seq<char> {
    match outcome.answer {
        Some(answer) => answer,
        None => "I don't understand"@,
    }
}

/// The world after the entity in slot `i` has had its command carried out:
/// where it has submitted a line, the line is consumed, the answer is
/// shown, and what the command asks for is pending; an entity that may give
/// privileged commands has the line carried out as one as well.
pub open spec fn command_step(w: WorldView, i: int) -> WorldView {
    let e = w.entities[i];
    if is_commander(e) && e.player_text_input->0.submitted {
        let text = e.player_text_input->0.text;
        let outcome = command_outcome(w.entities, w.current_room, e.inventory->0.items, text);
        let actions = with_optional(w.pending_actions, outcome.action);
        WorldView {
            entities: w.entities.update(
                i,
                EntityView {
                    player_text_input: Some(e.player_text_input->0.consumed()),
                    active_description: Some(shown_answer(outcome)),
                    ..e
                },
            ),
            pending_actions: if e.debug_hud is Some {
                with_optional(actions, debug_action(text))
            } else {
                actions
            },
            ..w
        }
    } else {
        w
    }
}

/// The world after the entities of the first `n` slots have had their
/// commands carried out, in the order of the slots.
pub open spec fn commands_upto(w: WorldView, n: int) -> WorldView
    decreases n,
{
    if n <= 0 {
        w
    } else {
        command_step(commands_upto(w, n - 1), n - 1)
    }
}

/// The world after the command stage.
pub open spec fn with_commands(w: WorldView) -> WorldView {
    commands_upto(w, w.entities.len() as int)
}

impl PlayerTextCommandSystem {
    /// Runs the stage: the line that each player has submitted is carried
    /// out.
    pub fn run(&mut self, world: &mut World)
        ensures
            final(world)@ == with_commands(old(world)@),
    {
        let ghost start = world@;
        let n = world.slots.len();
        let mut i: usize = 0;
        while i < n
            invariant
                i <= n,
                n == world.slots@.len(),
                n == start.entities.len(),
                world@ == commands_upto(start, i as int),
            decreases n - i,
        {
            let ghost w = world@;
            let ghost e = w.entities[i as int];
            assert(e == world.slots@[i as int]@);
            let submitted: Option<String> = if world.slots[i].alive && world.slots[i].player.is_some()
                && world.slots[i].inventory.is_some() && world.slots[i].active_description.is_some() {
                match &world.slots[i].player_text_input {
                    Some(text_input) => if text_input.submitted {
                        Some(text_input.input_text.clone())
                    } else {
                        None
                    },
                    None => None,
                }
            } else {
                None
            };
            match submitted {
                Some(text_command) => {
                    assert(is_commander(e) && e.player_text_input->0.submitted);
                    assert(text_command@ == e.player_text_input->0.text);
                    let inventory = world.slots[i].inventory.unwrap();
                    let has_debug = world.slots[i].debug_hud.is_some();
                    let current_room = world.current_room;
                    let result = self.process_text_input(
                        current_room,
                        &inventory,
                        &text_command,
                        &world.slots,
                        &mut world.pending_actions,
                    );
                    let ghost outcome = command_outcome(
                        w.entities,
                        w.current_room,
                        inventory.items,
                        text_command@,
                    );
                    match &mut world.slots[i].player_text_input {
                        Some(text_input) => {
                            text_input.consume();
                        },
                        None => {},
                    }
                    match &mut world.slots[i].active_description {
                        Some(description) => {
                            match &result {
                                Some(answer) => description.set(answer.as_str()),
                                None => description.set("I don't understand"),
                            }
                        },
                        None => {},
                    }
                    if has_debug {
                        self.process_debug_input(&text_command, &mut world.pending_actions);
                    }
                    assert(world@.entities =~= w.entities.update(
                        i as int,
                        EntityView {
                            player_text_input: Some(e.player_text_input->0.consumed()),
                            active_description: Some(shown_answer(outcome)),
                            ..e
                        },
                    ));
                    assert(world@ == command_step(w, i as int));
                },
                None => {
                    assert(world@ == command_step(w, i as int));
                },
            }
            i += 1;
        }
    }
}

} // verus!
