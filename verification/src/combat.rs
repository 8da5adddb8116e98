//! Melee combat: who attacks whom, how much damage is dealt, and who dies.

use crate::components::{
    log_pushed, ApplyDamageComponent, CombatStats, DeadTag, PendingDamage, Position, WantsToAttack,
};
use crate::store::{
    entity_at, entity_is_alive, handle_at, is_alive, views_of, Entity, EntityRecord, EntityView,
};
use crate::state::{StateAction, StateActionView};
use crate::world::{World, WorldView};
use vstd::prelude::*;
use vstd::string::StringExecFns;

verus! {

/// Tells whether a slot holds an entity that stands in the given cell.
pub open spec fn stands_at(e: EntityView, cell: Position) -> bool {
    e.alive && e.position == Some(cell)
}

/// The index of the first slot from `from` on whose entity stands in the
/// cell, or the number of slots where there is none.
pub open spec fn first_at(slots: Seq<EntityView>, cell: Position, from: int) -> int
    decreases slots.len() - from,
{
    if from < 0 || from >= slots.len() {
        slots.len() as int
    } else if stands_at(slots[from], cell) {
        from
    } else {
        first_at(slots, cell, from + 1)
    }
}

/// The entity that stands in a cell: the first one in the order of the
/// slots.
pub open spec fn target_at(slots: Seq<EntityView>, cell: Position) -> Option<Entity> {
    let index = first_at(slots, cell, 0);
    if index < slots.len() {
        Some(handle_at(slots, index))
    } else {
        None
    }
}

/// The first entity in a cell lies at or after `from`, no slot between the
/// two holds an entity in the cell, and the slot itself does where it
/// exists.
pub proof fn lemma_first_at(slots: Seq<EntityView>, cell: Position, from: int)
    requires
        0 <= from <= slots.len(),
    ensures
        from <= first_at(slots, cell, from) <= slots.len(),
        forall|k: int| from <= k < first_at(slots, cell, from) ==> !stands_at(#[trigger] slots[k], cell),
        first_at(slots, cell, from) < slots.len() ==> stands_at(slots[first_at(slots, cell, from)], cell),
    decreases slots.len() - from,
{
    if from < slots.len() && !stands_at(slots[from], cell) {
        lemma_first_at(slots, cell, from + 1);
    }
}

/// Finds the entity that stands in the cell `(target_x, target_y)`.
pub fn find_target_at(target_x: i32, target_y: i32, slots: &Vec<EntityRecord>) -> (r: Option<Entity>)
    ensures
        r == target_at(views_of(slots@), Position { x: target_x, y: target_y }),
{
    let ghost cell = Position { x: target_x, y: target_y };
    let ghost views = views_of(slots@);
    let mut i: usize = 0;
    while i < slots.len()
        invariant
            i <= slots.len(),
            views == views_of(slots@),
            cell == (Position { x: target_x, y: target_y }),
            first_at(views, cell, 0) == first_at(views, cell, i as int),
        decreases slots.len() - i,
    {
        if slots[i].alive {
            match &slots[i].position {
                Some(position) => {
                    if position.equals_xy(target_x, target_y) {
                        return Some(entity_at(slots, i));
                    }
                },
                None => {},
            }
        }
        i += 1;
    }
    None
}

/// Tells whether a slot holds an entity that can attack by walking into its
/// target: one that has a movement intent, stands somewhere, and deals
/// damage.
pub open spec fn is_fighter(e: EntityView) -> bool {
    e.alive && e.movement is Some && e.position is Some && e.applies_damage is Some
}

/// The cell that a blocked fighter tried to enter.
pub open spec fn attempted_x(e: EntityView) -> int {
    e.position->0.x + e.movement->0.attempted_x_movement
}

/// See [`attempted_x`].
pub open spec fn attempted_y(e: EntityView) -> int {
    e.position->0.y + e.movement->0.attempted_y_movement
}

/// See [`attempted_x`].
pub open spec fn attempted_cell(e: EntityView) -> Position {
    Position { x: attempted_x(e) as i32, y: attempted_y(e) as i32 }
}

/// Tells whether a slot holds a fighter whose step was blocked this tick.
pub open spec fn is_blocked_fighter(e: EntityView) -> bool {
    is_fighter(e) && e.movement->0.spec_was_move_blocked()
}

/// Tells whether the cell that every blocked fighter tried to enter has
/// coordinates of the coordinate type.
pub open spec fn engagement_in_range(slots: Seq<EntityView>) -> bool {
    forall|i: int|
        0 <= i < slots.len() && is_blocked_fighter(#[trigger] slots[i]) ==> {
            &&& i32::MIN <= attempted_x(slots[i]) <= i32::MAX
            &&& i32::MIN <= attempted_y(slots[i]) <= i32::MAX
        }
}

/// A slot after the engagement stage: a blocked fighter wants to attack the
/// entity that stands in the cell it tried to enter, if there is one; every
/// other slot is as it was.
pub open spec fn engaged(slots: Seq<EntityView>, i: int) -> EntityView {
    let e = slots[i];
    if is_blocked_fighter(e) {
        match target_at(slots, attempted_cell(e)) {
            Some(target) => EntityView { wants_to_attack: Some(WantsToAttack { target }), ..e },
            None => e,
        }
    } else {
        e
    }
}

/// The store after the engagement stage.
pub open spec fn engage(slots: Seq<EntityView>) -> Seq<EntityView> {
    Seq::new(slots.len(), |i: int| engaged(slots, i))
}

/// The store after an entity has decided on an attack: the attacker wants to
/// attack the target. A handle that names no living attacker changes
/// nothing.
pub open spec fn with_attack(slots: Seq<EntityView>, attacker: Entity, target: Entity) -> Seq<
    EntityView,
> {
    if is_alive(slots, attacker) {
        slots.update(
            attacker.index as int,
            EntityView {
                wants_to_attack: Some(WantsToAttack { target }),
                ..slots[attacker.index as int]
            },
        )
    } else {
        slots
    }
}

/// Records that `attacker` wants to attack `target`; an earlier decision of
/// the attacker is replaced.
pub fn attack(attacker: Entity, target: Entity, slots: &mut Vec<EntityRecord>)
    ensures
        views_of(final(slots)@) == with_attack(views_of(old(slots)@), attacker, target),
        final(slots)@.len() == old(slots)@.len(),
{
    if entity_is_alive(slots, attacker) {
        let ghost before = views_of(slots@);
        slots[attacker.index].wants_to_attack = Some(WantsToAttack { target });
        assert(views_of(slots@) =~= with_attack(before, attacker, target));
    }
}

/// The engagement stage: every fighter whose step was blocked this tick
/// decides to attack the entity in the cell it tried to enter.
pub fn engage_fighters(slots: &mut Vec<EntityRecord>)
    requires
        engagement_in_range(views_of(old(slots)@)),
    ensures
        views_of(final(slots)@) == engage(views_of(old(slots)@)),
{
    let ghost initial = views_of(slots@);
    let n = slots.len();
    let mut i: usize = 0;
    while i < n
        invariant
            i <= n,
            n == slots@.len(),
            n == initial.len(),
            engagement_in_range(initial),
            forall|k: int| 0 <= k < i ==> #[trigger] views_of(slots@)[k] == engaged(initial, k),
            forall|k: int| i <= k < n ==> #[trigger] views_of(slots@)[k] == initial[k],
            forall|k: int|
                0 <= k < n ==> {
                    &&& (#[trigger] views_of(slots@)[k]).alive == initial[k].alive
                    &&& views_of(slots@)[k].position == initial[k].position
                    &&& views_of(slots@)[k].generation == initial[k].generation
                },
        decreases n - i,
    {
        let ghost e = initial[i as int];
        assert(views_of(slots@)[i as int] == e);
        if slots[i].alive && slots[i].applies_damage.is_some() && slots[i].position.is_some()
            && slots[i].movement.is_some() {
            let movement = slots[i].movement.unwrap();
            let position = slots[i].position.unwrap();
            if movement.was_move_blocked() {
                let (delta_x, delta_y) = movement.get_attempted_move();
                let target_x: i32 = position.x + delta_x;
                let target_y: i32 = position.y + delta_y;
                let ghost cell = Position { x: target_x, y: target_y };
                let ghost now = views_of(slots@);
                let found = find_target_at(target_x, target_y, slots);
                proof {
                    lemma_same_target(now, initial, cell, 0);
                }
                match found {
                    Some(target) => {
                        let attacker = entity_at(slots, i);
                        attack(attacker, target, slots);
                    },
                    None => {},
                }
            }
        }
        assert(views_of(slots@)[i as int] == engaged(initial, i as int));
        i += 1;
    }
    assert(views_of(slots@) =~= engage(initial));
}

/// Two stores whose slots agree on who lives where, and in which
/// generation, hold the same entity in every cell.
pub proof fn lemma_same_target(a: Seq<EntityView>, b: Seq<EntityView>, cell: Position, from: int)
    requires
        a.len() == b.len(),
        0 <= from <= a.len(),
        forall|k: int|
            0 <= k < a.len() ==> {
                &&& (#[trigger] a[k]).alive == b[k].alive
                &&& a[k].position == b[k].position
                &&& a[k].generation == b[k].generation
            },
    ensures
        first_at(a, cell, from) == first_at(b, cell, from),
        from == 0 ==> target_at(a, cell) == target_at(b, cell),
    decreases a.len() - from,
{
    if from < a.len() {
        assert(a[from].alive == b[from].alive);
        if !stands_at(a[from], cell) {
            lemma_same_target(a, b, cell, from + 1);
        }
    }
    if from == 0 {
        lemma_first_at(a, cell, 0);
        let index = first_at(a, cell, 0);
        if index < a.len() {
            assert(a[index].generation == b[index].generation);
        }
    }
}

/// Tells whether [`engage_fighters`] may be called on the store.
pub fn engagement_fits(slots: &Vec<EntityRecord>) -> (r: bool)
    ensures
        r == engagement_in_range(views_of(slots@)),
{
    let mut i: usize = 0;
    while i < slots.len()
        invariant
            i <= slots.len(),
            forall|k: int|
                0 <= k < i && is_blocked_fighter(#[trigger] views_of(slots@)[k]) ==> {
                    &&& i32::MIN <= attempted_x(views_of(slots@)[k]) <= i32::MAX
                    &&& i32::MIN <= attempted_y(views_of(slots@)[k]) <= i32::MAX
                },
        decreases slots.len() - i,
    {
        if slots[i].alive && slots[i].applies_damage.is_some() && slots[i].position.is_some()
            && slots[i].movement.is_some() {
            let movement = slots[i].movement.unwrap();
            let position = slots[i].position.unwrap();
            if movement.was_move_blocked() {
                let (delta_x, delta_y) = movement.get_attempted_move();
                if position.x.checked_add(delta_x).is_none() || position.y.checked_add(
                    delta_y,
                ).is_none() {
                    assert(is_blocked_fighter(views_of(slots@)[i as int]));
                    return false;
                }
            }
        }
        i += 1;
    }
    true
}

/// Tells whether a slot holds an entity that deals damage and has decided
/// on an attack.
pub open spec fn is_attacking(e: EntityView) -> bool {
    e.alive && e.applies_damage is Some && e.wants_to_attack is Some
}

/// The pending damage of an entity after one more hit: the amount is added
/// at the end, and the instigator is the one of this hit.
pub open spec fn with_hit(pending: Option<PendingDamage>, amount: i32, instigator: Entity) -> Option<
    PendingDamage,
> {
    match pending {
        Some(p) => Some(PendingDamage { amounts: p.amounts.push(amount), instigator }),
        None => Some(PendingDamage { amounts: seq![amount], instigator }),
    }
}

/// The store after an attack has dealt its damage: the amount waits on the
/// target. A handle that names no living target changes nothing.
pub open spec fn with_damage(
    slots: Seq<EntityView>,
    instigator: Entity,
    target: Entity,
    amount: i32,
) -> Seq<EntityView> {
    if is_alive(slots, target) {
        slots.update(
            target.index as int,
            EntityView {
                apply_damage: with_hit(slots[target.index as int].apply_damage, amount, instigator),
                ..slots[target.index as int]
            },
        )
    } else {
        slots
    }
}

/// Adds the damage of one attack to what waits on the target.
pub fn add_damage(instigator: Entity, target: Entity, amount: i32, slots: &mut Vec<EntityRecord>)
    ensures
        views_of(final(slots)@) == with_damage(views_of(old(slots)@), instigator, target, amount),
        final(slots)@.len() == old(slots)@.len(),
{
    if entity_is_alive(slots, target) {
        let ghost before = views_of(slots@);
        match &mut slots[target.index].apply_damage {
            Some(damage) => {
                damage.amounts.push(amount);
                damage.instigator = instigator;
            },
            None => {
                let mut amounts: Vec<i32> = Vec::new();
                amounts.push(amount);
                slots[target.index].apply_damage = Some(ApplyDamageComponent { amounts, instigator });
            },
        }
        assert(views_of(slots@) =~= with_damage(before, instigator, target, amount));
    }
}

/// The damage that waits on the entity in slot `t` once the attackers among
/// the first `n` slots have dealt theirs, in the order of the slots.
pub open spec fn pending_upto(slots: Seq<EntityView>, t: int, n: int) -> Option<PendingDamage>
    decreases n,
{
    if n <= 0 {
        slots[t].apply_damage
    } else {
        let attacker = slots[n - 1];
        if is_attacking(attacker) && slots[t].alive && attacker.wants_to_attack->0.target
            == handle_at(slots, t) {
            with_hit(
                pending_upto(slots, t, n - 1),
                attacker.applies_damage->0.damage,
                handle_at(slots, n - 1),
            )
        } else {
            pending_upto(slots, t, n - 1)
        }
    }
}

/// A slot after every attack has dealt its damage: the damage waits on the
/// slot, and no attack is left.
pub open spec fn collected(slots: Seq<EntityView>, t: int) -> EntityView {
    EntityView {
        apply_damage: pending_upto(slots, t, slots.len() as int),
        wants_to_attack: None,
        ..slots[t]
    }
}

/// The sum of some amounts of damage.
pub open spec fn sum_of(amounts: Seq<i32>) -> int
    decreases amounts.len(),
{
    if amounts.len() == 0 {
        0
    } else {
        sum_of(amounts.drop_last()) + amounts.last()
    }
}

/// Tells whether a slot holds an entity that is hurt this tick: it has
/// health left, and at least one amount of damage waits on it.
pub open spec fn is_hit(e: EntityView) -> bool {
    e.alive && e.combat_stats is Some && e.apply_damage is Some && e.apply_damage->0.amounts.len()
        > 0 && e.combat_stats->0.health > 0
}

/// The health of a hurt entity after the damage that waits on it has been
/// taken off.
pub open spec fn health_after(e: EntityView) -> int {
    e.combat_stats->0.health - sum_of(e.apply_damage->0.amounts)
}

/// The line that is logged when an entity without a log of its own is hit.
pub open spec fn hit_message(name: Option<Seq<char>>) -> Seq<char> {
    match name {
        Some(name) => name + " was hit!"@,
        None => "unknown was hit!"@,
    }
}

/// The name an entity is shown with, if it has a description.
pub open spec fn shown_name(e: EntityView) -> Option<Seq<char>> {
    match e.description {
        Some(d) => Some(d.name),
        None => None,
    }
}

/// The line that the hit on the entity in slot `t`, if it is hit, writes
/// into the log of the entity in slot `q`: a player that is hit is told so
/// in its own log; the hit on any other target is told to every player
/// that has a log.
pub open spec fn hit_line(slots: Seq<EntityView>, t: int, q: int) -> Option<Seq<char>> {
    if !is_hit(slots[t]) {
        None
    } else if slots[t].player is Some {
        if q == t {
            Some("you were hit"@)
        } else {
            None
        }
    } else if slots[q].alive && slots[q].player is Some {
        Some(hit_message(shown_name(slots[t])))
    } else {
        None
    }
}

/// The log of the entity in slot `q` after the hits on the first `n` slots
/// have been logged, in the order of the slots.
pub open spec fn log_upto(slots: Seq<EntityView>, q: int, n: int) -> Option<Seq<Seq<char>>>
    decreases n,
{
    if n <= 0 {
        slots[q].combat_log
    } else {
        match (log_upto(slots, q, n - 1), hit_line(slots, n - 1, q)) {
            (Some(log), Some(line)) => Some(log_pushed(log, line)),
            (log, _) => log,
        }
    }
}

/// Logging never makes a log where there was none, nor takes one away.
pub proof fn lemma_log_presence(slots: Seq<EntityView>, q: int, n: int)
    ensures
        log_upto(slots, q, n) is Some <==> slots[q].combat_log is Some,
    decreases n,
{
    if n > 0 {
        lemma_log_presence(slots, q, n - 1);
    }
}

/// The combat stats of a slot after the damage that waits on it has been
/// applied.
pub open spec fn stats_after(e: EntityView) -> Option<CombatStats> {
    if is_hit(e) {
        Some(CombatStats { health: health_after(e) as i32, ..e.combat_stats->0 })
    } else {
        e.combat_stats
    }
}

/// The death tag of a slot after the damage that waits on it has been
/// applied: a hurt entity whose health is used up is dead.
pub open spec fn dead_after(e: EntityView) -> Option<DeadTag> {
    if is_hit(e) && health_after(e) <= 0 {
        Some(DeadTag {  })
    } else {
        e.dead
    }
}

/// A slot while damage is being applied: the stats and the death tag are
/// those after the damage where the slot lies before `stats_done`, and the
/// log holds the hits on the slots before `log_done`.
pub open spec fn staged(slots: Seq<EntityView>, q: int, stats_done: int, log_done: int) -> EntityView {
    EntityView {
        combat_stats: if q < stats_done {
            stats_after(slots[q])
        } else {
            slots[q].combat_stats
        },
        dead: if q < stats_done {
            dead_after(slots[q])
        } else {
            slots[q].dead
        },
        combat_log: log_upto(slots, q, log_done),
        ..slots[q]
    }
}

/// A slot after the damage stage, given the store in which every attack has
/// dealt its damage: the damage is applied and logged, and none waits any
/// more.
pub open spec fn damaged(slots: Seq<EntityView>, q: int) -> EntityView {
    EntityView {
        apply_damage: None,
        ..staged(slots, q, slots.len() as int, slots.len() as int)
    }
}

/// The store in which every attack has dealt its damage.
pub open spec fn collect_damage(slots: Seq<EntityView>) -> Seq<EntityView> {
    Seq::new(slots.len(), |t: int| collected(slots, t))
}

/// Tells whether the health of every entity that is hurt this tick stays
/// within the range of its type.
pub open spec fn damage_in_range(slots: Seq<EntityView>) -> bool {
    forall|t: int|
        0 <= t < slots.len() && is_hit(#[trigger] collect_damage(slots)[t]) ==> i32::MIN
            <= health_after(collect_damage(slots)[t]) <= i32::MAX
}

/// The store after the damage stage: every attack deals its damage to its
/// target; every entity with health left loses the sum of the damage dealt
/// to it and is dead where its health is used up; each hit is logged; and
/// no attack and no damage is left waiting.
pub open spec fn apply_damage(slots: Seq<EntityView>) -> Seq<EntityView> {
    Seq::new(slots.len(), |q: int| damaged(collect_damage(slots), q))
}

/// Tags an entity as dead. A handle that names no living entity changes
/// nothing.
pub fn kill(target: Entity, slots: &mut Vec<EntityRecord>)
    ensures
        final(slots)@.len() == old(slots)@.len(),
        views_of(final(slots)@) == if is_alive(views_of(old(slots)@), target) {
            views_of(old(slots)@).update(
                target.index as int,
                EntityView { dead: Some(DeadTag {  }), ..views_of(old(slots)@)[target.index as int] },
            )
        } else {
            views_of(old(slots)@)
        },
{
    if entity_is_alive(slots, target) {
        let ghost before = views_of(slots@);
        slots[target.index].dead = Some(DeadTag {  });
        assert(views_of(slots@) =~= before.update(
            target.index as int,
            EntityView { dead: Some(DeadTag {  }), ..before[target.index as int] },
        ));
    }
}

/// The name an entity is shown with, if it lives and has a description.
pub fn get_entity_name(e: Entity, slots: &Vec<EntityRecord>) -> (r: Option<String>)
    ensures
        r is Some <==> is_alive(views_of(slots@), e) && views_of(
            slots@,
        )[e.index as int].description is Some,
        r is Some ==> Some(r->0@) == shown_name(views_of(slots@)[e.index as int]),
{
    if entity_is_alive(slots, e) {
        match &slots[e.index].description {
            Some(description) => Some(description.name.clone()),
            None => None,
        }
    } else {
        None
    }
}

/// The sum of some amounts of damage.
pub fn total_damage(amounts: &Vec<i32>) -> (r: i128)
    ensures
        r == sum_of(amounts@),
        -0x8000_0000_0000_0000_0000_0000 <= r <= 0x8000_0000_0000_0000_0000_0000,
{
    let mut total: i128 = 0;
    let mut k: usize = 0;
    assert(amounts@.take(0) =~= Seq::<i32>::empty());
    while k < amounts.len()
        invariant
            k <= amounts.len(),
            total == sum_of(amounts@.take(k as int)),
            -2147483648 * k <= total <= 2147483648 * k,
        decreases amounts.len() - k,
    {
        assert(amounts@.take(k + 1).drop_last() =~= amounts@.take(k as int));
        total = total + amounts[k] as i128;
        k += 1;
    }
    assert(amounts@.take(k as int) =~= amounts@);
    total
}

/// The first part of the damage stage: every attack deals its damage to its
/// target, and no attack is left.
pub fn collect_attacks(slots: &mut Vec<EntityRecord>)
    ensures
        views_of(final(slots)@) == collect_damage(views_of(old(slots)@)),
        final(slots)@.len() == old(slots)@.len(),
{
    let ghost initial = views_of(slots@);
    let n = slots.len();
    let mut i: usize = 0;
    while i < n
        invariant
            i <= n,
            n == slots@.len(),
            n == initial.len(),
            forall|t: int|
                0 <= t < n ==> #[trigger] views_of(slots@)[t] == (EntityView {
                    apply_damage: pending_upto(initial, t, i as int),
                    ..initial[t]
                }),
        decreases n - i,
    {
        let ghost before = views_of(slots@);
        assert(before[i as int].alive == initial[i as int].alive);
        if slots[i].alive && slots[i].applies_damage.is_some() && slots[i].wants_to_attack.is_some() {
            let target = slots[i].wants_to_attack.unwrap().target;
            let amount = slots[i].applies_damage.unwrap().damage;
            let instigator = entity_at(slots, i);
            add_damage(instigator, target, amount, slots);
            proof {
                assert(instigator == handle_at(initial, i as int));
                if is_alive(before, target) {
                    assert(before[target.index as int].alive);
                }
                assert forall|t: int| 0 <= t < n implies #[trigger] views_of(slots@)[t] == (EntityView {
                    apply_damage: pending_upto(initial, t, i + 1),
                    ..initial[t]
                }) by {
                    assert(before[t].alive == initial[t].alive);
                    assert(before[t].generation == initial[t].generation);
                }
            }
        }
        i += 1;
    }
    let mut j: usize = 0;
    while j < n
        invariant
            j <= n,
            n == slots@.len(),
            n == initial.len(),
            forall|t: int| 0 <= t < j ==> #[trigger] views_of(slots@)[t] == collected(initial, t),
            forall|t: int|
                j <= t < n ==> #[trigger] views_of(slots@)[t] == (EntityView {
                    apply_damage: pending_upto(initial, t, n as int),
                    ..initial[t]
                }),
        decreases n - j,
    {
        let ghost before = views_of(slots@);
        slots[j].wants_to_attack = None;
        assert(views_of(slots@) =~= before.update(
            j as int,
            EntityView { wants_to_attack: None, ..before[j as int] },
        ));
        j += 1;
    }
    assert(views_of(slots@) =~= collect_damage(initial));
}

/// The line that is logged when an entity without a log of its own is hit.
pub fn hit_message_for(name: Option<String>) -> (r: String)
    ensures
        r@ == hit_message(
            match name {
                Some(n) => Some(n@),
                None => None,
            },
        ),
{
    match name {
        Some(name) => {
            let mut message = name;
            message.append(" was hit!");
            message
        },
        None => String::from_str("unknown was hit!"),
    }
}

/// The second part of the damage stage: the damage that waits on each
/// entity is applied and logged, and none is left waiting.
pub fn apply_collected_damage(slots: &mut Vec<EntityRecord>)
    requires
        forall|t: int|
            0 <= t < old(slots)@.len() && is_hit(#[trigger] views_of(old(slots)@)[t]) ==> i32::MIN
                <= health_after(views_of(old(slots)@)[t]) <= i32::MAX,
    ensures
        final(slots)@.len() == old(slots)@.len(),
        forall|q: int|
            0 <= q < old(slots)@.len() ==> #[trigger] views_of(final(slots)@)[q] == damaged(
                views_of(old(slots)@),
                q,
            ),
{
    let ghost initial = views_of(slots@);
    let n = slots.len();
    let mut t: usize = 0;
    while t < n
        invariant
            t <= n,
            n == slots@.len(),
            n == initial.len(),
            forall|k: int|
                0 <= k < n && is_hit(#[trigger] initial[k]) ==> i32::MIN <= health_after(initial[k])
                    <= i32::MAX,
            forall|q: int|
                0 <= q < n ==> #[trigger] views_of(slots@)[q] == staged(initial, q, t as int, t as int),
        decreases n - t,
    {
        let ghost e = initial[t as int];
        let ghost before = views_of(slots@);
        assert(before[t as int] == staged(initial, t as int, t as int, t as int));
        proof {
            lemma_log_presence(initial, t as int, t as int);
        }
        let mut hit = false;
        if slots[t].alive && slots[t].combat_stats.is_some() && slots[t].apply_damage.is_some() {
            let stats = slots[t].combat_stats.unwrap();
            let waiting = match &slots[t].apply_damage {
                Some(damage) => damage.amounts.len() > 0,
                None => false,
            };
            if stats.health > 0 && waiting {
                hit = true;
                let total = match &slots[t].apply_damage {
                    Some(damage) => total_damage(&damage.amounts),
                    None => 0,
                };
                assert(total == sum_of(e.apply_damage->0.amounts));
                assert(is_hit(e));
                let health: i32 = (stats.health as i128 - total) as i32;
                slots[t].combat_stats = Some(CombatStats { health, ..stats });
                if health <= 0 {
                    slots[t].dead = Some(DeadTag {  });
                }
            }
        }
        assert(hit == is_hit(e));
        assert(views_of(slots@) =~= before.update(
            t as int,
            staged(initial, t as int, t + 1, t as int),
        ));
        assert forall|q: int| 0 <= q < n implies #[trigger] views_of(slots@)[q] == staged(
            initial,
            q,
            t + 1,
            t as int,
        ) by {
            if q != t {
                assert(before[q] == staged(initial, q, t as int, t as int));
            }
        }
        let ghost middle = views_of(slots@);
        if hit {
            if slots[t].player.is_some() {
                match &mut slots[t].combat_log {
                    Some(log) => {
                        log.push(String::from_str("you were hit"));
                    },
                    None => {},
                }
                assert(views_of(slots@) =~= middle.update(
                    t as int,
                    staged(initial, t as int, t + 1, t + 1),
                ));
                assert forall|q: int| 0 <= q < n implies #[trigger] views_of(slots@)[q] == staged(
                    initial,
                    q,
                    t + 1,
                    t + 1,
                ) by {
                    assert(middle[q] == staged(initial, q, t + 1, t as int));
                }
            } else {
                let name = match &slots[t].description {
                    Some(description) => Some(description.name.clone()),
                    None => None,
                };
                let message = hit_message_for(name);
                assert(message@ == hit_message(shown_name(e)));
                let mut p: usize = 0;
                while p < n
                    invariant
                        p <= n,
                        t < n,
                        n == slots@.len(),
                        n == initial.len(),
                        e == initial[t as int],
                        is_hit(e),
                        e.player is None,
                        message@ == hit_message(shown_name(e)),
                        forall|q: int|
                            0 <= q < n ==> #[trigger] views_of(slots@)[q] == staged(
                                initial,
                                q,
                                t + 1,
                                if q < p {
                                    t + 1
                                } else {
                                    t as int
                                },
                            ),
                    decreases n - p,
                {
                    let ghost before = views_of(slots@);
                    assert(before[p as int] == staged(initial, p as int, t + 1, t as int));
                    if slots[p].alive && slots[p].player.is_some() {
                        match &mut slots[p].combat_log {
                            Some(log) => {
                                log.push(message.clone());
                            },
                            None => {},
                        }
                    }
                    proof {
                        lemma_log_presence(initial, p as int, t as int);
                    }
                    assert(views_of(slots@) =~= before.update(
                        p as int,
                        staged(initial, p as int, t + 1, t + 1),
                    ));
                    assert forall|q: int| 0 <= q < n implies #[trigger] views_of(slots@)[q] == staged(
                        initial,
                        q,
                        t + 1,
                        if q < p + 1 {
                            t + 1
                        } else {
                            t as int
                        },
                    ) by {
                        if q != p {
                            assert(views_of(slots@)[q] == before[q]);
                            assert(before[q] == staged(
                                initial,
                                q,
                                t + 1,
                                if q < p {
                                    t + 1
                                } else {
                                    t as int
                                },
                            ));
                        }
                    }
                    p += 1;
                }
            }
        }
        assert forall|q: int| 0 <= q < n implies #[trigger] views_of(slots@)[q] == staged(
            initial,
            q,
            t + 1,
            t + 1,
        ) by {
            if !hit {
                assert(middle[q] == staged(initial, q, t + 1, t as int));
            }
        }
        t += 1;
    }
    let mut c: usize = 0;
    while c < n
        invariant
            c <= n,
            n == slots@.len(),
            n == initial.len(),
            forall|q: int| 0 <= q < c ==> #[trigger] views_of(slots@)[q] == damaged(initial, q),
            forall|q: int|
                c <= q < n ==> #[trigger] views_of(slots@)[q] == staged(initial, q, n as int, n as int),
        decreases n - c,
    {
        let ghost before = views_of(slots@);
        slots[c].apply_damage = None;
        assert(views_of(slots@) =~= before.update(
            c as int,
            EntityView { apply_damage: None, ..before[c as int] },
        ));
        c += 1;
    }
}

/// The damage stage: every attack deals its damage, every entity with
/// health left loses the damage dealt to it and is dead where its health is
/// used up, each hit is logged, and no attack and no damage is left
/// waiting.
pub fn apply_damages(slots: &mut Vec<EntityRecord>)
    requires
        damage_in_range(views_of(old(slots)@)),
    ensures
        views_of(final(slots)@) == apply_damage(views_of(old(slots)@)),
        final(slots)@.len() == old(slots)@.len(),
{
    let ghost initial = views_of(slots@);
    collect_attacks(slots);
    apply_collected_damage(slots);
    assert(views_of(slots@) =~= apply_damage(initial));
}

/// Tells whether the health of every hurt entity of a store, in which the
/// attacks have dealt their damage, stays within the range of its type.
pub fn collected_damage_fits(slots: &Vec<EntityRecord>) -> (r: bool)
    ensures
        r == (forall|t: int|
            0 <= t < slots@.len() && is_hit(#[trigger] views_of(slots@)[t]) ==> i32::MIN
                <= health_after(views_of(slots@)[t]) <= i32::MAX),
{
    let mut t: usize = 0;
    while t < slots.len()
        invariant
            t <= slots.len(),
            forall|k: int|
                0 <= k < t && is_hit(#[trigger] views_of(slots@)[k]) ==> i32::MIN <= health_after(
                    views_of(slots@)[k],
                ) <= i32::MAX,
        decreases slots.len() - t,
    {
        if slots[t].alive && slots[t].combat_stats.is_some() && slots[t].apply_damage.is_some() {
            let stats = slots[t].combat_stats.unwrap();
            let waiting = match &slots[t].apply_damage {
                Some(damage) => damage.amounts.len() > 0,
                None => false,
            };
            if stats.health > 0 && waiting {
                let total = match &slots[t].apply_damage {
                    Some(damage) => total_damage(&damage.amounts),
                    None => 0,
                };
                let health: i128 = stats.health as i128 - total;
                if health < -2147483648 || health > 2147483647 {
                    assert(is_hit(views_of(slots@)[t as int]));
                    return false;
                }
            }
        }
        t += 1;
    }
    true
}

/// The store after the damage stage has been given up: no attack and no
/// damage is left waiting, and nothing else has changed.
pub open spec fn drop_damage(slots: Seq<EntityView>) -> Seq<EntityView> {
    Seq::new(
        slots.len(),
        |q: int| EntityView { wants_to_attack: None, apply_damage: None, ..slots[q] },
    )
}

/// Forgets every attack and all damage that waits.
pub fn clear_damage(slots: &mut Vec<EntityRecord>)
    ensures
        final(slots)@.len() == old(slots)@.len(),
        views_of(final(slots)@) == drop_damage(views_of(old(slots)@)),
{
    let ghost initial = views_of(slots@);
    let n = slots.len();
    let mut c: usize = 0;
    while c < n
        invariant
            c <= n,
            n == slots@.len(),
            n == initial.len(),
            forall|q: int| 0 <= q < c ==> #[trigger] views_of(slots@)[q] == drop_damage(initial)[q],
            forall|q: int| c <= q < n ==> #[trigger] views_of(slots@)[q] == initial[q],
        decreases n - c,
    {
        let ghost before = views_of(slots@);
        assert(before[c as int] == initial[c as int]);
        slots[c].wants_to_attack = None;
        slots[c].apply_damage = None;
        assert(views_of(slots@)[c as int] == (EntityView {
            wants_to_attack: None,
            apply_damage: None,
            ..initial[c as int]
        }));
        assert(views_of(slots@) =~= before.update(c as int, drop_damage(initial)[c as int]));
        c += 1;
    }
    assert(views_of(slots@) =~= drop_damage(initial));
}

/// The damage stage, for every store: where the health of every hurt entity
/// stays within the range of its type, the stage takes place; otherwise
/// nobody is hurt. Either way no attack and no damage is left waiting.
pub fn try_apply_damages(slots: &mut Vec<EntityRecord>) -> (done: bool)
    ensures
        done == damage_in_range(views_of(old(slots)@)),
        final(slots)@.len() == old(slots)@.len(),
        views_of(final(slots)@) == if done {
            apply_damage(views_of(old(slots)@))
        } else {
            drop_damage(views_of(old(slots)@))
        },
{
    let ghost initial = views_of(slots@);
    collect_attacks(slots);
    if collected_damage_fits(slots) {
        apply_collected_damage(slots);
        assert(views_of(slots@) =~= apply_damage(initial));
        true
    } else {
        clear_damage(slots);
        assert(views_of(slots@) =~= drop_damage(initial));
        false
    }
}

/// A fighter whose step was blocked decides, in the engagement stage, to
/// attack the entity in the cell it tried to enter: the first entity that
/// stands there.
pub proof fn lemma_blocked_fighter_attacks(slots: Seq<EntityView>, x: int, y: int)
    requires
        0 <= x < slots.len(),
        0 <= y < slots.len(),
        is_blocked_fighter(slots[x]),
        stands_at(slots[y], attempted_cell(slots[x])),
        forall|k: int| 0 <= k < y ==> !stands_at(#[trigger] slots[k], attempted_cell(slots[x])),
    ensures
        engage(slots)[x].wants_to_attack == Some(WantsToAttack { target: handle_at(slots, y) }),
        is_attacking(engage(slots)[x]),
{
    lemma_first_at(slots, attempted_cell(slots[x]), 0);
}

/// The damage that the attackers among the first `n` slots deal to the
/// entity in slot `y`, summed.
pub open spec fn attack_damage(slots: Seq<EntityView>, y: int, n: int) -> int
    decreases n,
{
    if n <= 0 {
        0
    } else if is_attacking(slots[n - 1]) && slots[y].alive && slots[n - 1].wants_to_attack->0.target
        == handle_at(slots, y) {
        attack_damage(slots, y, n - 1) + slots[n - 1].applies_damage->0.damage
    } else {
        attack_damage(slots, y, n - 1)
    }
}

/// The amounts of some pending damage, and none where there is none.
pub open spec fn amounts_of(pending: Option<PendingDamage>) -> Seq<i32> {
    match pending {
        Some(p) => p.amounts,
        None => Seq::empty(),
    }
}

/// The damage that waits on an entity sums up to what waited before and
/// what the attackers dealt; and damage waits exactly where some waited
/// before or an attacker dealt some.
pub proof fn lemma_pending_sum(slots: Seq<EntityView>, y: int, n: int)
    requires
        0 <= y < slots.len(),
        0 <= n <= slots.len(),
    ensures
        sum_of(amounts_of(pending_upto(slots, y, n))) == sum_of(amounts_of(slots[y].apply_damage))
            + attack_damage(slots, y, n),
        pending_upto(slots, y, n) is Some <==> slots[y].apply_damage is Some || exists|k: int|
            0 <= k < n && is_attacking(#[trigger] slots[k]) && slots[y].alive
                && slots[k].wants_to_attack->0.target == handle_at(slots, y),
    decreases n,
{
    if n > 0 {
        lemma_pending_sum(slots, y, n - 1);
        let attacker = slots[n - 1];
        let before = pending_upto(slots, y, n - 1);
        if is_attacking(attacker) && slots[y].alive && attacker.wants_to_attack->0.target
            == handle_at(slots, y) {
            let after = pending_upto(slots, y, n);
            assert(amounts_of(after).drop_last() =~= amounts_of(before));
        }
    }
}

/// Damage waits on an entity once an attacker has dealt it some.
pub proof fn lemma_attack_leaves_damage(slots: Seq<EntityView>, x: int, y: int, n: int)
    requires
        0 <= y < slots.len(),
        0 <= x < n <= slots.len(),
        is_attacking(slots[x]),
        slots[y].alive,
        slots[x].wants_to_attack->0.target == handle_at(slots, y),
    ensures
        pending_upto(slots, y, n) is Some,
        amounts_of(pending_upto(slots, y, n)).len() > 0,
    decreases n,
{
    if n - 1 > x {
        lemma_attack_leaves_damage(slots, x, y, n - 1);
    }
}

/// An entity with health left that is attacked loses exactly the sum of the
/// damage of its attackers, and is dead after the damage stage if and only
/// if its health is used up.
pub proof fn lemma_attacked_entity_loses_health(slots: Seq<EntityView>, x: int, y: int)
    requires
        0 <= x < slots.len(),
        0 <= y < slots.len(),
        is_attacking(slots[x]),
        slots[x].wants_to_attack->0.target == handle_at(slots, y),
        slots[y].alive,
        slots[y].combat_stats is Some,
        slots[y].combat_stats->0.health > 0,
        slots[y].apply_damage is None,
        slots[y].dead is None,
        damage_in_range(slots),
    ensures
        apply_damage(slots)[y].combat_stats is Some,
        apply_damage(slots)[y].combat_stats->0.health == slots[y].combat_stats->0.health
            - attack_damage(slots, y, slots.len() as int),
        apply_damage(slots)[y].dead is Some <==> apply_damage(slots)[y].combat_stats->0.health <= 0,
{
    lemma_pending_sum(slots, y, slots.len() as int);
    lemma_attack_leaves_damage(slots, x, y, slots.len() as int);
    assert(sum_of(Seq::<i32>::empty()) == 0);
    assert(is_hit(collect_damage(slots)[y]));
}

/// The damage dealt to an entity that no attacker among the first `n` slots
/// attacks is zero.
pub proof fn lemma_no_attackers(slots: Seq<EntityView>, y: int, n: int)
    requires
        0 <= y < slots.len(),
        0 <= n <= slots.len(),
        forall|k: int|
            0 <= k < n && is_attacking(#[trigger] slots[k]) ==> slots[k].wants_to_attack->0.target
                != handle_at(slots, y),
    ensures
        attack_damage(slots, y, n) == 0,
    decreases n,
{
    if n > 0 {
        lemma_no_attackers(slots, y, n - 1);
    }
}

/// The damage dealt to an entity that a single attacker attacks is the
/// damage of that attacker.
pub proof fn lemma_single_attacker(slots: Seq<EntityView>, x: int, y: int, n: int)
    requires
        0 <= y < slots.len(),
        0 <= x < n <= slots.len(),
        is_attacking(slots[x]),
        slots[y].alive,
        slots[x].wants_to_attack->0.target == handle_at(slots, y),
        forall|k: int|
            0 <= k < slots.len() && k != x && is_attacking(#[trigger] slots[k])
                ==> slots[k].wants_to_attack->0.target != handle_at(slots, y),
    ensures
        attack_damage(slots, y, n) == slots[x].applies_damage->0.damage,
    decreases n,
{
    if n - 1 > x {
        lemma_single_attacker(slots, x, y, n - 1);
    } else {
        lemma_no_attackers(slots, y, x);
    }
}

/// An entity with health left that a single attacker of damage `d` attacks
/// loses exactly `d`, and is dead after the damage stage if and only if its
/// health is used up.
pub proof fn lemma_single_attack_deals_its_damage(slots: Seq<EntityView>, x: int, y: int)
    requires
        0 <= x < slots.len(),
        0 <= y < slots.len(),
        is_attacking(slots[x]),
        slots[x].wants_to_attack->0.target == handle_at(slots, y),
        forall|k: int|
            0 <= k < slots.len() && k != x && is_attacking(#[trigger] slots[k])
                ==> slots[k].wants_to_attack->0.target != handle_at(slots, y),
        slots[y].alive,
        slots[y].combat_stats is Some,
        slots[y].combat_stats->0.health > 0,
        slots[y].apply_damage is None,
        slots[y].dead is None,
        damage_in_range(slots),
    ensures
        apply_damage(slots)[y].combat_stats is Some,
        apply_damage(slots)[y].combat_stats->0.health == slots[y].combat_stats->0.health
            - slots[x].applies_damage->0.damage,
        apply_damage(slots)[y].dead is Some <==> apply_damage(slots)[y].combat_stats->0.health <= 0,
{
    lemma_attacked_entity_loses_health(slots, x, y);
    lemma_single_attacker(slots, x, y, slots.len() as int);
}

/// After the damage stage no attack and no damage is left waiting,
/// whatever became of them; and nothing but the health, the death tag and
/// the combat log of an entity has changed.
pub proof fn lemma_nothing_is_left_waiting(slots: Seq<EntityView>, q: int)
    requires
        0 <= q < slots.len(),
    ensures
        apply_damage(slots).len() == slots.len(),
        apply_damage(slots)[q].wants_to_attack is None,
        apply_damage(slots)[q].apply_damage is None,
        apply_damage(slots)[q] == (EntityView {
            wants_to_attack: None,
            apply_damage: None,
            combat_stats: apply_damage(slots)[q].combat_stats,
            dead: apply_damage(slots)[q].dead,
            combat_log: apply_damage(slots)[q].combat_log,
            ..slots[q]
        }),
{
}

/// The handles of the dead among the first `n` slots, in the order of the
/// slots.
pub open spec fn dead_entities(slots: Seq<EntityView>, n: int) -> Seq<Entity>
    decreases n,
{
    if n <= 0 {
        Seq::empty()
    } else if slots[n - 1].alive && slots[n - 1].dead is Some {
        dead_entities(slots, n - 1).push(handle_at(slots, n - 1))
    } else {
        dead_entities(slots, n - 1)
    }
}

/// The cleanup stage: the handles of all entities that are tagged dead, for
/// the caller to delete.
pub fn collect_dead(slots: &Vec<EntityRecord>) -> (r: Vec<Entity>)
    ensures
        r@ == dead_entities(views_of(slots@), slots@.len() as int),
{
    let mut entities_to_delete: Vec<Entity> = Vec::new();
    let mut i: usize = 0;
    while i < slots.len()
        invariant
            i <= slots.len(),
            entities_to_delete@ == dead_entities(views_of(slots@), i as int),
        decreases slots.len() - i,
    {
        if slots[i].alive && slots[i].dead.is_some() {
            entities_to_delete.push(entity_at(slots, i));
        }
        i += 1;
    }
    entities_to_delete
}

/// The engagement stage of a tick.
pub struct MeleeCombatSystem {}

impl MeleeCombatSystem {
    /// Runs the stage where the cell that every blocked fighter tried to
    /// enter has coordinates of the coordinate type, and tells whether it
    /// did; otherwise nothing changes.
    pub fn run(&mut self, world: &mut World) -> (done: bool)
        ensures
            done == engagement_in_range(old(world)@.entities),
            final(world)@ == if done {
                WorldView { entities: engage(old(world)@.entities), ..old(world)@ }
            } else {
                old(world)@
            },
    {
        if engagement_fits(&world.slots) {
            engage_fighters(&mut world.slots);
            true
        } else {
            false
        }
    }
}

/// The damage stage of a tick.
pub struct DamageSystem {}

impl DamageSystem {
    /// Runs the stage where the health of every hurt entity stays within
    /// the range of its type, and tells whether it did; otherwise nobody is
    /// hurt. Either way no attack and no damage is left waiting.
    pub fn run(&mut self, world: &mut World) -> (done: bool)
        ensures
            done == damage_in_range(old(world)@.entities),
            final(world)@ == if done {
                WorldView { entities: apply_damage(old(world)@.entities), ..old(world)@ }
            } else {
                WorldView { entities: drop_damage(old(world)@.entities), ..old(world)@ }
            },
    {
        try_apply_damages(&mut world.slots)
    }
}

/// The cleanup stage of a tick.
pub struct ClearDeadSystem {}

impl ClearDeadSystem {
    /// The cleanup stage.
    pub fn new() -> Self {
        Self {  }
    }

    /// Runs the stage: the deletion of every entity that is tagged dead is
    /// asked for.
    pub fn run(&mut self, world: &mut World)
        ensures
            final(world)@ == old(world)@.with_action(
                StateActionView::DeleteEntities {
                    entities: dead_entities(old(world)@.entities, old(world)@.entities.len() as int),
                },
            ),
    {
        let entities_to_delete = collect_dead(&world.slots);
        world.push_action(StateAction::DeleteEntities { entities: entities_to_delete });
    }
}

} // verus!
