//! The components an entity may carry.

use crate::text::to_ascii_lowercase;
use vstd::prelude::*;
use vstd::string::StringExecFns;

pub mod common;
pub mod game;

pub use common::{ColliderComponent, DebugName, Position};
pub use game::{
    log_pushed, with_key, AppliesDamage, ApplyDamageComponent, CombatLog, CombatStats, DeadTag,
    InventoryComponent, PendingDamage, PickupTrigger, PlayerInputComponent,
    PlayerInputMappingComponent, PlayerTextInputComponent, TextInputView, WantsToAttack,
};

verus! {

/// One accumulated displacement, limited to a single step: -1, 0 or 1.
pub open spec fn clamp_step(v: int) -> int {
    if v < -1 {
        -1
    } else if v > 1 {
        1
    } else {
        v
    }
}

/// Computes [`clamp_step`].
pub fn clamp_axis(v: i32) -> (r: i32)
    ensures
        r == clamp_step(v as int),
{
    if v < -1 {
        -1
    } else if v > 1 {
        1
    } else {
        v
    }
}

/// What the player sees and types of an entity: the name it is looked up by,
/// the name it is shown with, and its flavour text.
pub struct Description {
    pub input_name: String,
    pub name: String,
    pub description: String,
}

/// The texts of a [`Description`].
pub struct DescriptionView {
    pub input_name: Seq<char>,
    pub name: Seq<char>,
    pub description: Seq<char>,
}

impl View for Description {
    type V = DescriptionView;

    open spec fn view(&self) -> DescriptionView {
        DescriptionView {
            input_name: self.input_name@,
            name: self.name@,
            description: self.description@,
        }
    }
}

impl Clone for Description {
    fn clone(&self) -> (r: Self)
        ensures
            r@ == self@,
    {
        Description {
            input_name: self.input_name.clone(),
            name: self.name.clone(),
            description: self.description.clone(),
        }
    }
}

/// The description of a catalogue entry: looked up by the entry's lookup
/// name where it has one, otherwise by its shown name in lower case.
pub open spec fn described(
    name: Seq<char>,
    input_name: Option<Seq<char>>,
    description: Seq<char>,
) -> DescriptionView {
    DescriptionView {
        input_name: match input_name {
            Some(explicit_name) => explicit_name,
            None => crate::text::ascii_lower(name),
        },
        name,
        description,
    }
}

impl Description {
    /// The description of a catalogue entry.
    pub fn of_entry(name: &String, input_name: &Option<String>, description: &String) -> (r: Self)
        ensures
            r@ == described(
                name@,
                match input_name {
                    Some(n) => Some(n@),
                    None => None,
                },
                description@,
            ),
    {
        match input_name {
            Some(explicit_name) => Description::new_explicit(
                explicit_name.as_str(),
                name.as_str(),
                description.as_str(),
            ),
            None => Description::new(name.as_str(), description.as_str()),
        }
    }

    /// A description that is looked up by its shown name in lower case.
    pub fn new(name: &str, description: &str) -> (r: Self)
        ensures
            r@ == (DescriptionView {
                input_name: crate::text::ascii_lower(name@),
                name: name@,
                description: description@,
            }),
    {
        Self {
            input_name: to_ascii_lowercase(name),
            name: String::from_str(name),
            description: String::from_str(description),
        }
    }

    /// A description that is looked up by a name of its own.
    pub fn new_explicit(input_name: &str, name: &str, description: &str) -> (r: Self)
        ensures
            r@ == (DescriptionView {
                input_name: input_name@,
                name: name@,
                description: description@,
            }),
    {
        Self {
            input_name: String::from_str(input_name),
            name: String::from_str(name),
            description: String::from_str(description),
        }
    }
}

/// Marks the entity that the player steers.
#[derive(Debug, Copy, Clone, PartialEq, Eq, Structural)]
pub struct Player {}

/// The movement intent of an entity for one tick: the displacement asked
/// for so far, whether the entity moved this tick, and the step it last
/// attempted.
#[derive(Debug, Copy, Clone, PartialEq, Eq, Structural)]
pub struct Movement {
    pub cumulative_x_movement: i32,
    pub cumulative_y_movement: i32,
    pub moved_this_frame: bool,
    pub attempted_x_movement: i32,
    pub attempted_y_movement: i32,
}

impl Movement {
    /// The step asked for: the accumulated displacement, limited to one step
    /// on each axis.
    pub open spec fn intent(self) -> (int, int) {
        (
            clamp_step(self.cumulative_x_movement as int),
            clamp_step(self.cumulative_y_movement as int),
        )
    }

    /// Tells whether `(x, y)` can be added to the accumulated displacement
    /// within the range of its type.
    pub open spec fn input_fits(self, x: int, y: int) -> bool {
        &&& i32::MIN <= self.cumulative_x_movement + x <= i32::MAX
        &&& i32::MIN <= self.cumulative_y_movement + y <= i32::MAX
    }

    /// The intent after `(x, y)` has been added to it.
    pub open spec fn with_input(self, x: int, y: int) -> Movement {
        Movement {
            cumulative_x_movement: (self.cumulative_x_movement + x) as i32,
            cumulative_y_movement: (self.cumulative_y_movement + y) as i32,
            ..self
        }
    }

    /// The intent after it has been taken for this tick: the step asked for
    /// is kept as the attempted step, the accumulator is empty, and no move
    /// is recorded yet.
    pub open spec fn cleared(self) -> Movement {
        Movement {
            cumulative_x_movement: 0,
            cumulative_y_movement: 0,
            moved_this_frame: false,
            attempted_x_movement: self.intent().0 as i32,
            attempted_y_movement: self.intent().1 as i32,
        }
    }

    /// Tells whether a step was attempted.
    pub open spec fn spec_attempted_to_move(self) -> bool {
        self.attempted_x_movement != 0 || self.attempted_y_movement != 0
    }

    /// Tells whether a step was attempted and did not take place.
    pub open spec fn spec_was_move_blocked(self) -> bool {
        !self.moved_this_frame && self.spec_attempted_to_move()
    }

    /// An empty intent.
    pub fn new() -> (r: Self)
        ensures
            r == (Movement {
                cumulative_x_movement: 0,
                cumulative_y_movement: 0,
                moved_this_frame: false,
                attempted_x_movement: 0,
                attempted_y_movement: 0,
            }),
    {
        Self {
            cumulative_x_movement: 0,
            cumulative_y_movement: 0,
            moved_this_frame: false,
            attempted_x_movement: 0,
            attempted_y_movement: 0,
        }
    }

    /// Adds a displacement to the intent of this tick.
    pub fn add_movement_input(&mut self, x: i32, y: i32)
        requires
            old(self).input_fits(x as int, y as int),
        ensures
            *final(self) == old(self).with_input(x as int, y as int),
    {
        self.cumulative_x_movement += x;
        self.cumulative_y_movement += y;
    }

    /// Tells whether [`Movement::add_movement_input`] may be called with
    /// `(x, y)`.
    pub fn can_add_movement_input(&self, x: i32, y: i32) -> (r: bool)
        ensures
            r == self.input_fits(x as int, y as int),
    {
        self.cumulative_x_movement.checked_add(x).is_some() && self.cumulative_y_movement.checked_add(
            y,
        ).is_some()
    }

    /// Takes the intent for this tick.
    pub fn clear_movement(&mut self)
        ensures
            *final(self) == old(self).cleared(),
    {
        let (attempt_x, attempt_y) = self.get_movement_input();
        self.attempted_x_movement = attempt_x;
        self.attempted_y_movement = attempt_y;
        self.cumulative_x_movement = 0;
        self.cumulative_y_movement = 0;
        self.moved_this_frame = false;
    }

    /// The step asked for, at most one cell on each axis.
    pub fn get_movement_input(&self) -> (r: (i32, i32))
        ensures
            r.0 == self.intent().0,
            r.1 == self.intent().1,
    {
        (clamp_axis(self.cumulative_x_movement), clamp_axis(self.cumulative_y_movement))
    }

    /// Records that the entity moved this tick.
    pub fn moved(&mut self)
        ensures
            *final(self) == (Movement { moved_this_frame: true, ..*old(self) }),
    {
        self.moved_this_frame = true;
    }

    /// Tells whether the entity moved this tick.
    pub fn did_move(&self) -> (r: bool)
        ensures
            r == self.moved_this_frame,
    {
        self.moved_this_frame
    }

    /// Tells whether a step was attempted.
    pub fn attempted_to_move(&self) -> (r: bool)
        ensures
            r == self.spec_attempted_to_move(),
    {
        self.attempted_x_movement != 0 || self.attempted_y_movement != 0
    }

    /// Tells whether a step was attempted and did not take place.
    pub fn was_move_blocked(&self) -> (r: bool)
        ensures
            r == self.spec_was_move_blocked(),
    {
        !self.did_move() && self.attempted_to_move()
    }

    /// The step last attempted.
    pub fn get_attempted_move(&self) -> (r: (i32, i32))
        ensures
            r == (self.attempted_x_movement, self.attempted_y_movement),
    {
        (self.attempted_x_movement, self.attempted_y_movement)
    }
}

/// The text that answers the player's last command.
pub struct ActiveDescriptionComponent {
    pub description: String,
}

impl View for ActiveDescriptionComponent {
    type V = Seq<char>;

    open spec fn view(&self) -> Seq<char> {
        self.description@
    }
}

impl ActiveDescriptionComponent {
    /// An empty answer.
    pub fn new() -> (r: Self)
        ensures
            r@ == Seq::<char>::empty(),
    {
        Self { description: String::new() }
    }

    /// Replaces the answer.
    pub fn set(&mut self, new_description: &str)
        ensures
            final(self)@ == new_description@,
    {
        self.description = String::from_str(new_description);
    }
}

/// Marks an entity that may give the privileged commands.
#[derive(Debug, Copy, Clone, PartialEq, Eq, Structural)]
pub struct DebugHudComponent {}

} // verus!
