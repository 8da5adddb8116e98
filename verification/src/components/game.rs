//! Components of combat, of player input and of the inventory.

use crate::input::Key;
use crate::items::ItemFlags;
use crate::store::Entity;
use crate::text::{pop_char, push_char};
use vstd::prelude::*;

verus! {

/// The health of an entity that can be hurt.
#[derive(Debug, Copy, Clone, PartialEq, Eq, Structural)]
pub struct CombatStats {
    pub health: i32,
    pub max_health: i32,
}

/// The damage an entity deals with one attack.
#[derive(Debug, Copy, Clone, PartialEq, Eq, Structural)]
pub struct AppliesDamage {
    pub damage: i32,
}

/// The damage waiting to be applied to an entity: one amount for each hit of
/// this tick, and the entity that hit last.
pub struct ApplyDamageComponent {
    pub amounts: Vec<i32>,
    pub instigator: Entity,
}

/// What an [`ApplyDamageComponent`] holds.
pub struct PendingDamage {
    pub amounts: Seq<i32>,
    pub instigator: Entity,
}

impl View for ApplyDamageComponent {
    type V = PendingDamage;

    open spec fn view(&self) -> PendingDamage {
        PendingDamage { amounts: self.amounts@, instigator: self.instigator }
    }
}

/// The attack an entity has decided on this tick.
#[derive(Debug, Copy, Clone, PartialEq, Eq, Structural)]
pub struct WantsToAttack {
    pub target: Entity,
}

/// Marks an entity whose health has run out.
#[derive(Debug, Copy, Clone, PartialEq, Eq, Structural)]
pub struct DeadTag {}

/// The last two lines of the combat log, the older one first.
pub struct CombatLog {
    previous: String,
    latest: String,
}

impl View for CombatLog {
    type V = Seq<Seq<char>>;

    closed spec fn view(&self) -> Seq<Seq<char>> {
        seq![self.previous@, self.latest@]
    }
}

/// A combat log after a line has been added: the line that was the latest,
/// then the new line.
pub open spec fn log_pushed(log: Seq<Seq<char>>, text: Seq<char>) -> Seq<Seq<char>> {
    seq![log[1], text]
}

impl CombatLog {
    /// A log of two empty lines.
    pub fn new() -> (r: Self)
        ensures
            r@ == seq![Seq::<char>::empty(), Seq::<char>::empty()],
    {
        Self { previous: String::new(), latest: String::new() }
    }

    /// The two lines of the log, the older one first.
    pub fn logs(&self) -> (r: Vec<String>)
        ensures
            r@.map_values(|s: String| s@) == self@,
    {
        let mut lines: Vec<String> = Vec::new();
        lines.push(self.previous.clone());
        lines.push(self.latest.clone());
        assert(lines@.map_values(|s: String| s@) =~= self@);
        lines
    }

    /// Adds a line; the older of the two lines held is dropped.
    pub fn push(&mut self, text: String)
        ensures
            final(self)@ == log_pushed(old(self)@, text@),
            final(self)@.len() == 2,
    {
        self.previous = self.latest.clone();
        self.latest = text;
    }

    /// Every log holds two lines.
    pub proof fn lemma_two_lines(&self)
        ensures
            self@.len() == 2,
    {
    }
}

/// The directions the player asked for this tick.
#[derive(Debug, Copy, Clone, PartialEq, Eq, Structural)]
pub struct PlayerInputComponent {
    pub move_left: bool,
    pub move_right: bool,
    pub move_up: bool,
    pub move_down: bool,
}

impl PlayerInputComponent {
    /// No direction asked for.
    pub fn new() -> (r: Self)
        ensures
            r == (PlayerInputComponent {
                move_left: false,
                move_right: false,
                move_up: false,
                move_down: false,
            }),
    {
        Self { move_left: false, move_right: false, move_up: false, move_down: false }
    }

    /// Forgets the directions asked for.
    pub fn clear(&mut self)
        ensures
            *final(self) == (PlayerInputComponent {
                move_left: false,
                move_right: false,
                move_up: false,
                move_down: false,
            }),
    {
        self.move_left = false;
        self.move_right = false;
        self.move_up = false;
        self.move_down = false;
    }
}

/// The directions asked for after a key has been pressed: an arrow key adds
/// its direction, every other key changes nothing.
pub open spec fn with_key(input: PlayerInputComponent, key: Key) -> PlayerInputComponent {
    match key {
        Key::Left => PlayerInputComponent { move_left: true, ..input },
        Key::Right => PlayerInputComponent { move_right: true, ..input },
        Key::Up => PlayerInputComponent { move_up: true, ..input },
        Key::Down => PlayerInputComponent { move_down: true, ..input },
        _ => input,
    }
}

/// Marks an entity whose movement follows the arrow keys.
#[derive(Debug, Copy, Clone, PartialEq, Eq, Structural)]
pub struct PlayerInputMappingComponent {}

impl PlayerInputMappingComponent {
    /// Records the direction of an arrow key.
    pub fn process_key(&self, key: Key, player_input: &mut PlayerInputComponent)
        ensures
            *final(player_input) == with_key(*old(player_input), key),
    {
        match key {
            Key::Left => player_input.move_left = true,
            Key::Right => player_input.move_right = true,
            Key::Up => player_input.move_up = true,
            Key::Down => player_input.move_down = true,
            _ => {},
        }
    }
}

/// The line the player is typing, and whether it has been submitted.
pub struct PlayerTextInputComponent {
    pub input_text: String,
    pub submitted: bool,
}

/// What a [`PlayerTextInputComponent`] holds.
pub struct TextInputView {
    pub text: Seq<char>,
    pub submitted: bool,
}

impl View for PlayerTextInputComponent {
    type V = TextInputView;

    open spec fn view(&self) -> TextInputView {
        TextInputView { text: self.input_text@, submitted: self.submitted }
    }
}

impl TextInputView {
    /// The line after a character has been typed. A submitted line does not
    /// change until it has been consumed.
    pub open spec fn typed(self, c: char) -> TextInputView {
        if self.submitted {
            self
        } else {
            TextInputView { text: self.text.push(c), ..self }
        }
    }

    /// The line after its last character has been rubbed out.
    pub open spec fn rubbed_out(self) -> TextInputView {
        if self.submitted || self.text.len() == 0 {
            self
        } else {
            TextInputView { text: self.text.drop_last(), ..self }
        }
    }

    /// The line after it has been emptied.
    pub open spec fn emptied(self) -> TextInputView {
        if self.submitted {
            self
        } else {
            TextInputView { text: Seq::empty(), ..self }
        }
    }

    /// The line after it has been consumed: empty, and open for typing.
    pub open spec fn consumed(self) -> TextInputView {
        if self.submitted {
            TextInputView { text: Seq::empty(), submitted: false }
        } else {
            self
        }
    }
}

impl PlayerTextInputComponent {
    /// An empty line.
    pub fn new() -> (r: Self)
        ensures
            r@ == (TextInputView { text: Seq::empty(), submitted: false }),
    {
        Self { input_text: String::new(), submitted: false }
    }

    /// Types a character.
    pub fn add_character(&mut self, c: char)
        ensures
            final(self)@ == old(self)@.typed(c),
    {
        if !self.submitted {
            push_char(&mut self.input_text, c);
        }
    }

    /// Types a space.
    pub fn add_space(&mut self)
        ensures
            final(self)@ == old(self)@.typed(' '),
    {
        if !self.submitted {
            self.add_character(' ');
        }
    }

    /// Rubs out the last character.
    pub fn backspace(&mut self)
        ensures
            final(self)@ == old(self)@.rubbed_out(),
    {
        if !self.submitted {
            pop_char(&mut self.input_text);
        }
    }

    /// Empties the line.
    pub fn clear_text(&mut self)
        ensures
            final(self)@ == old(self)@.emptied(),
    {
        if !self.submitted {
            self.input_text = String::new();
        }
    }

    /// The line as typed so far.
    pub fn get_preview(&self) -> (r: String)
        ensures
            r@ == self@.text,
    {
        self.input_text.clone()
    }

    /// Submits the line.
    pub fn submit(&mut self)
        ensures
            final(self)@ == (TextInputView { submitted: true, ..old(self)@ }),
    {
        self.submitted = true;
    }

    /// Takes a submitted line, and leaves an empty line open for typing.
    /// Returns nothing while the line has not been submitted.
    pub fn consume(&mut self) -> (r: Option<String>)
        ensures
            final(self)@ == old(self)@.consumed(),
            r is Some <==> old(self)@.submitted,
            r is Some ==> r->0@ == old(self)@.text,
    {
        if self.submitted {
            let text = self.input_text.clone();
            self.submitted = false;
            self.input_text = String::new();
            Some(text)
        } else {
            None
        }
    }
}

/// Marks an entity that is picked up by walking onto it.
#[derive(Debug, Copy, Clone, PartialEq, Eq, Structural)]
pub struct PickupTrigger {
    pub item_to_pickup: ItemFlags,
}

/// The items an entity carries.
#[derive(Debug, Copy, Clone, PartialEq, Eq, Structural)]
pub struct InventoryComponent {
    pub items: ItemFlags,
}

impl InventoryComponent {
    /// An empty inventory.
    pub fn new() -> (r: Self)
        ensures
            r.items.bits == 0,
    {
        Self { items: ItemFlags { bits: 0 } }
    }

    /// Adds items to the inventory.
    pub fn add(&mut self, item: ItemFlags)
        ensures
            final(self).items == old(self).items.spec_union(item),
    {
        self.items = self.items.union(item);
    }

    /// Tells whether the inventory holds every one of the given items.
    pub fn has(&self, item: ItemFlags) -> (r: bool)
        ensures
            r == self.items.spec_contains(item),
    {
        self.items.contains(item)
    }
}

} // verus!
