//! Keys, and what each key does to the text the player is typing.

use crate::components::{with_key, PlayerInputComponent, PlayerTextInputComponent, TextInputView};
use crate::store::{views_of, EntityView};
use crate::world::{World, WorldView};
use vstd::prelude::*;

verus! {

/// A key of the keyboard, as far as the game tells keys apart.
#[derive(Debug, Copy, Clone, PartialEq, Eq, Structural)]
pub enum Key {
    Left,
    Right,
    Up,
    Down,
    A,
    B,
    C,
    D,
    E,
    F,
    G,
    H,
    I,
    J,
    K,
    L,
    M,
    N,
    O,
    P,
    Q,
    R,
    S,
    T,
    U,
    V,
    W,
    X,
    Y,
    Z,
    Key0,
    Key1,
    Key2,
    Key3,
    Key4,
    Key5,
    Key6,
    Key7,
    Key8,
    Key9,
    Space,
    Back,
    Escape,
    Return,
    Other,
}

/// The character that a key types, if it types one. The key `W` types
/// none.
pub open spec fn key_char(key: Key) -> Option<char> {
    match key {
        Key::A => Some('a'),
        Key::B => Some('b'),
        Key::C => Some('c'),
        Key::D => Some('d'),
        Key::E => Some('e'),
        Key::F => Some('f'),
        Key::G => Some('g'),
        Key::H => Some('h'),
        Key::I => Some('i'),
        Key::J => Some('j'),
        Key::K => Some('k'),
        Key::L => Some('l'),
        Key::M => Some('m'),
        Key::N => Some('n'),
        Key::O => Some('o'),
        Key::P => Some('p'),
        Key::Q => Some('q'),
        Key::R => Some('r'),
        Key::S => Some('s'),
        Key::T => Some('t'),
        Key::U => Some('u'),
        Key::V => Some('v'),
        Key::X => Some('x'),
        Key::Y => Some('y'),
        Key::Z => Some('z'),
        Key::Key0 => Some('0'),
        Key::Key1 => Some('1'),
        Key::Key2 => Some('2'),
        Key::Key3 => Some('3'),
        Key::Key4 => Some('4'),
        Key::Key5 => Some('5'),
        Key::Key6 => Some('6'),
        Key::Key7 => Some('7'),
        Key::Key8 => Some('8'),
        Key::Key9 => Some('9'),
        Key::Space => Some(' '),
        _ => None,
    }
}

/// The line the player is typing after a key has been pressed: a key that
/// types a character adds it, the backspace key rubs one out, the escape
/// key empties the line, the return key submits it, and every other key
/// changes nothing.
pub open spec fn text_keyed(text: TextInputView, key: Key) -> TextInputView {
    match key_char(key) {
        Some(c) => text.typed(c),
        None => match key {
            Key::Back => text.rubbed_out(),
            Key::Escape => text.emptied(),
            Key::Return => TextInputView { submitted: true, ..text },
            _ => text,
        },
    }
}

/// The directions asked for after the key of this tick: those of a tick
/// ago are forgotten, and an arrow key asks for its direction.
pub open spec fn input_keyed(key: Option<Key>) -> PlayerInputComponent {
    let cleared = PlayerInputComponent {
        move_left: false,
        move_right: false,
        move_up: false,
        move_down: false,
    };
    match key {
        Some(k) => with_key(cleared, k),
        None => cleared,
    }
}

/// A slot after the input stage.
pub open spec fn keyed(e: EntityView, key: Option<Key>) -> EntityView {
    EntityView {
        player_input: if e.alive && e.player_input_mapping is Some && e.player_input is Some {
            Some(input_keyed(key))
        } else {
            e.player_input
        },
        player_text_input: if e.alive && e.player_text_input is Some && key is Some {
            Some(text_keyed(e.player_text_input->0, key->0))
        } else {
            e.player_text_input
        },
        ..e
    }
}

/// The store after the input stage.
pub open spec fn with_key_pressed(entities: Seq<EntityView>, key: Option<Key>) -> Seq<EntityView> {
    Seq::new(entities.len(), |i: int| keyed(entities[i], key))
}

/// The input stage of a tick: the key that was pressed, if any, becomes
/// directions asked for and text typed.
pub struct PlayerInputSystem {
    pub key: Option<Key>,
}

impl PlayerInputSystem {
    /// The input stage for the key of this tick.
    pub fn new(key: Option<Key>) -> (r: Self)
        ensures
            r.key == key,
    {
        Self { key }
    }

    /// Applies a key to the line the player is typing.
    pub fn process_text_input(player_text_input: &mut PlayerTextInputComponent, key: Key)
        ensures
            final(player_text_input)@ == text_keyed(old(player_text_input)@, key),
    {
        match key {
            Key::A => player_text_input.add_character('a'),
            Key::B => player_text_input.add_character('b'),
            Key::C => player_text_input.add_character('c'),
            Key::D => player_text_input.add_character('d'),
            Key::E => player_text_input.add_character('e'),
            Key::F => player_text_input.add_character('f'),
            Key::G => player_text_input.add_character('g'),
            Key::H => player_text_input.add_character('h'),
            Key::I => player_text_input.add_character('i'),
            Key::J => player_text_input.add_character('j'),
            Key::K => player_text_input.add_character('k'),
            Key::L => player_text_input.add_character('l'),
            Key::M => player_text_input.add_character('m'),
            Key::N => player_text_input.add_character('n'),
            Key::O => player_text_input.add_character('o'),
            Key::P => player_text_input.add_character('p'),
            Key::Q => player_text_input.add_character('q'),
            Key::R => player_text_input.add_character('r'),
            Key::S => player_text_input.add_character('s'),
            Key::T => player_text_input.add_character('t'),
            Key::U => player_text_input.add_character('u'),
            Key::V => player_text_input.add_character('v'),
            Key::X => player_text_input.add_character('x'),
            Key::Y => player_text_input.add_character('y'),
            Key::Z => player_text_input.add_character('z'),
            Key::Space => player_text_input.add_space(),
            Key::Back => player_text_input.backspace(),
            Key::Escape => player_text_input.clear_text(),
            Key::Return => player_text_input.submit(),
            Key::Key0 => player_text_input.add_character('0'),
            Key::Key1 => player_text_input.add_character('1'),
            Key::Key2 => player_text_input.add_character('2'),
            Key::Key3 => player_text_input.add_character('3'),
            Key::Key4 => player_text_input.add_character('4'),
            Key::Key5 => player_text_input.add_character('5'),
            Key::Key6 => player_text_input.add_character('6'),
            Key::Key7 => player_text_input.add_character('7'),
            Key::Key8 => player_text_input.add_character('8'),
            Key::Key9 => player_text_input.add_character('9'),
            _ => {},
        }
    }

    /// Runs the stage: every entity that maps keys to directions forgets
    /// the directions of a tick ago and takes that of the key; every line
    /// that is being typed takes the key.
    pub fn run(&mut self, world: &mut World)
        ensures
            final(world)@ == (WorldView {
                entities: with_key_pressed(old(world)@.entities, old(self).key),
                ..old(world)@
            }),
            final(self).key == old(self).key,
    {
        let ghost initial = views_of(world.slots@);
        let key = self.key;
        let n = world.slots.len();
        let mut i: usize = 0;
        while i < n
            invariant
                i <= n,
                n == world.slots@.len(),
                n == initial.len(),
                key == self.key,
                self.key == old(self).key,
                initial == old(world)@.entities,
                *world == (World { slots: world.slots, ..*old(world) }),
                forall|k: int|
                    0 <= k < i ==> #[trigger] views_of(world.slots@)[k] == keyed(initial[k], key),
                forall|k: int| i <= k < n ==> #[trigger] views_of(world.slots@)[k] == initial[k],
            decreases n - i,
        {
            let ghost before = views_of(world.slots@);
            assert(before[i as int] == initial[i as int]);
            if world.slots[i].alive {
                match (world.slots[i].player_input_mapping, world.slots[i].player_input) {
                    (Some(input_mapping), Some(player_input)) => {
                        let mut player_input = player_input;
                        player_input.clear();
                        match key {
                            None => {},
                            Some(k) => input_mapping.process_key(k, &mut player_input),
                        }
                        world.slots[i].player_input = Some(player_input);
                    },
                    _ => {},
                }
                match key {
                    None => {},
                    Some(k) => {
                        match &mut world.slots[i].player_text_input {
                            Some(player_text_input) => {
                                Self::process_text_input(player_text_input, k);
                            },
                            None => {},
                        }
                    },
                }
            }
            assert(views_of(world.slots@) =~= before.update(i as int, keyed(initial[i as int], key)));
            i += 1;
        }
        assert(views_of(world.slots@) =~= with_key_pressed(initial, key));
    }
}

} // verus!
