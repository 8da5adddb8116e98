//! Simulation core of a room-based, turn-driven adventure world.
//!
//! The world is a graph of rooms. Each room has a fixed record, decoded from
//! a binary map file ([`room::map_file`]), and an overlay of what lies and
//! lives in it ([`room::dynamic_rooms`]). The entities of the room the
//! player is in live in an entity store ([`store`]); leaving a room captures
//! its overlay and deletes its entities, entering a room makes the entities
//! of its record and replays its overlay ([`room`]).
//!
//! Time passes in ticks ([`state`]). A tick runs its stages in a fixed order:
//! input ([`input`]), movement intent of the player and of the chasers
//! ([`game`], [`ai`]), the player's commands ([`game`], [`textinput`]),
//! movement and collision ([`game`]; the movers of a tick move together,
//! whatever their order in the store), pickups ([`inventory`]), combat
//! ([`combat`]) and exits ([`game`]). A stage never changes the structure of
//! the world on its own: it asks for the change, and the change is carried
//! out before the next stage runs.
//!
//! Every function states what it computes over plain values: sequences of
//! entity views, texts as sequences of characters, numbers. The laws that
//! the rules obey are proved as lemmas next to the rules.
//!
//! Three choices are made once and kept everywhere:
//!
//! * A tile blocks movement unless its code is 0, `'U'` or `'D'`.
//! * A new entity takes over the first free slot of the store, so that
//!   entities made one after the other stand in the store in that order.
//! * A stage that would leave the range of its numbers moves and hurts
//!   nobody; the tick ends and tells which stage it was. What a stage clears
//!   at its end it clears then as well: the movement intents, the attacks
//!   and the damage that waits.

pub mod ai;
pub mod combat;
pub mod components;
pub mod enemies;
pub mod game;
pub mod hud;
pub mod input;
pub mod inventory;
pub mod items;
pub mod render;
pub mod room;
pub mod session;
pub mod state;
pub mod store;
pub mod text;
pub mod textinput;
pub mod world;

pub use state::{State, StateAction};
