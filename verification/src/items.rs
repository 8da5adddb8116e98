//! Items: what can be picked up, and the catalogue that describes each.

use crate::components::{described, Description, PickupTrigger, Position};
use crate::render::{cp437_index, white, Color, Renderable};
use crate::room::BelongsToRoom;
use crate::store::{EntityRecord, EntityView};
use crate::text::{ascii_lower, to_ascii_lowercase};
use crate::world::World;
use vstd::prelude::*;
use vstd::string::StringExecFns;

verus! {

/// The bits of the empty item set.
pub const EMPTY: u32 = 0;

/// The bit of one kind of item.
pub const LAMP: u32 = 0x1;

/// The bit of one kind of item.
pub const SCEPTER: u32 = 0x2;

/// The bit of one kind of item.
pub const BOOK: u32 = 0x4;

/// The bit of one kind of item.
pub const MAGICWAND: u32 = 0x8;

/// The bit of one kind of item.
pub const SWORD: u32 = 0x10;

/// The bit of one kind of item.
pub const KEY: u32 = 0x20;

/// The bit of one kind of item.
pub const EYEGLASSES: u32 = 0x40;

/// The bit of one kind of item.
pub const HELMET: u32 = 0x80;

/// The bit of one kind of item.
pub const WINEFLASK: u32 = 0x100;

/// The bit of one kind of item.
pub const CRYSTALBALL: u32 = 0x200;

/// The bit of one kind of item.
pub const NECKLACE: u32 = 0x400;

/// The bit of one kind of item.
pub const HOLYCROSS: u32 = 0x800;

/// The bit of one kind of item.
pub const DIAMOND: u32 = 0x1000;

/// The bit of one kind of item.
pub const SILVERBARS: u32 = 0x2000;

/// The bit of one kind of item.
pub const RUBIES: u32 = 0x4000;

/// The bit of one kind of item.
pub const JADEFIGURINE: u32 = 0x8000;

/// The bit of one kind of item.
pub const HARP: u32 = 0x10000;

/// The bit of one kind of item.
pub const HOURGLASS: u32 = 0x20000;

/// The bit of one kind of item.
pub const LARGEGEM: u32 = 0x40000;

/// The bit of one kind of item.
pub const GOLDBAR: u32 = 0x80000;

/// The bit of one kind of item.
pub const FANCYGOBLET: u32 = 0x100000;

/// The bit of one kind of item.
pub const CROWN: u32 = 0x200000;

/// The bits of the set of every item, known or not.
pub const ANYTHING: u32 = 0x7FFFFFFF;

/// A set of items, one bit for each kind.
#[derive(Debug, Copy, Clone, PartialEq, Eq, Structural)]
pub struct ItemFlags {
    pub bits: u32,
}

impl ItemFlags {
    /// The items of both sets.
    pub open spec fn spec_union(self, other: ItemFlags) -> ItemFlags {
        ItemFlags { bits: self.bits | other.bits }
    }

    /// Tells whether every item of `other` is in this set.
    pub open spec fn spec_contains(self, other: ItemFlags) -> bool {
        self.bits & other.bits == other.bits
    }

    /// The set with the given bits.
    pub fn new(bits: u32) -> (r: ItemFlags)
        ensures
            r.bits == bits,
    {
        ItemFlags { bits }
    }

    /// The bits of the set.
    pub fn bits(&self) -> (r: u32)
        ensures
            r == self.bits,
    {
        self.bits
    }

    /// The items of both sets.
    pub fn union(self, other: ItemFlags) -> (r: ItemFlags)
        ensures
            r == self.spec_union(other),
    {
        ItemFlags { bits: self.bits | other.bits }
    }

    /// Tells whether every item of `other` is in this set.
    pub fn contains(self, other: ItemFlags) -> (r: bool)
        ensures
            r == self.spec_contains(other),
    {
        self.bits & other.bits == other.bits
    }
}

/// The glyph that stands for one kind of item, and a blank for a set of
/// any other shape.
pub open spec fn glyph_of_item(bits: u32) -> char {
    if bits == LAMP {
        '\u{2660}'
    }     else if bits == SCEPTER {
        '\u{00DF}'
    }     else if bits == BOOK {
        '\u{2584}'
    }     else if bits == MAGICWAND {
        '\u{2500}'
    }     else if bits == SWORD {
        '\u{253C}'
    }     else if bits == KEY {
        '\u{03C4}'
    }     else if bits == EYEGLASSES {
        '\u{221E}'
    }     else if bits == HELMET {
        '\u{00A2}'
    }     else if bits == WINEFLASK {
        '\u{00A1}'
    }     else if bits == CRYSTALBALL {
        '\u{00B0}'
    }     else if bits == NECKLACE {
        '\u{00A7}'
    }     else if bits == HOLYCROSS {
        '\u{0074}'
    }     else if bits == DIAMOND {
        '\u{2666}'
    }     else if bits == SILVERBARS {
        '\u{2261}'
    }     else if bits == RUBIES {
        '\u{003A}'
    }     else if bits == JADEFIGURINE {
        '\u{00A5}'
    }     else if bits == HARP {
        '\u{266B}'
    }     else if bits == HOURGLASS {
        '\u{03A6}'
    }     else if bits == LARGEGEM {
        '\u{0398}'
    }     else if bits == GOLDBAR {
        '\u{25A0}'
    }     else if bits == FANCYGOBLET {
        '\u{00B5}'
    }     else if bits == CROWN {
        '\u{2302}'
    } else {
        ' '
    }
}

/// Maps one kind of item to the glyph it is drawn with.
pub fn item_to_glyph(item_type: ItemFlags) -> (r: char)
    ensures
        r == glyph_of_item(item_type.bits),
{
    match item_type.bits {
        LAMP => '\u{2660}',
        SCEPTER => '\u{00DF}',
        BOOK => '\u{2584}',
        MAGICWAND => '\u{2500}',
        SWORD => '\u{253C}',
        KEY => '\u{03C4}',
        EYEGLASSES => '\u{221E}',
        HELMET => '\u{00A2}',
        WINEFLASK => '\u{00A1}',
        CRYSTALBALL => '\u{00B0}',
        NECKLACE => '\u{00A7}',
        HOLYCROSS => '\u{0074}',
        DIAMOND => '\u{2666}',
        SILVERBARS => '\u{2261}',
        RUBIES => '\u{003A}',
        JADEFIGURINE => '\u{00A5}',
        HARP => '\u{266B}',
        HOURGLASS => '\u{03A6}',
        LARGEGEM => '\u{0398}',
        GOLDBAR => '\u{25A0}',
        FANCYGOBLET => '\u{00B5}',
        CROWN => '\u{2302}',
        _ => ' ',
    }
}

/// The catalogue entry of one kind of item.
pub struct ItemData {
    pub flag: ItemFlags,
    pub name: String,
    pub input_name: Option<String>,
    pub description: String,
}

/// What an [`ItemData`] holds.
pub struct ItemView {
    pub flag: ItemFlags,
    pub name: Seq<char>,
    pub input_name: Option<Seq<char>>,
    pub description: Seq<char>,
}

impl View for ItemData {
    type V = ItemView;

    open spec fn view(&self) -> ItemView {
        ItemView {
            flag: self.flag,
            name: self.name@,
            input_name: match self.input_name {
                Some(n) => Some(n@),
                None => None,
            },
            description: self.description@,
        }
    }
}

impl Clone for ItemData {
    fn clone(&self) -> (r: Self)
        ensures
            r@ == self@,
    {
        ItemData {
            flag: self.flag,
            name: self.name.clone(),
            input_name: match &self.input_name {
                Some(n) => Some(n.clone()),
                None => None,
            },
            description: self.description.clone(),
        }
    }
}

impl ItemView {
    /// Tells whether the entry goes by the given name: the name is the
    /// entry's lookup name, or its shown name in lower case.
    pub open spec fn goes_by(self, name: Seq<char>) -> bool {
        self.input_name == Some(name) || ascii_lower(self.name) == name
    }

    /// The name under which the entry is stored and found again: its lookup
    /// name where it has one, otherwise its shown name.
    pub open spec fn stable_name(self) -> Seq<char> {
        match self.input_name {
            Some(n) => n,
            None => self.name,
        }
    }
}

/// The index of the first entry from `from` on with the given flag, or the
/// number of entries where there is none.
pub open spec fn item_index(items: Seq<ItemView>, flag: ItemFlags, from: int) -> int
    decreases items.len() - from,
{
    if from < 0 || from >= items.len() {
        items.len() as int
    } else if items[from].flag == flag {
        from
    } else {
        item_index(items, flag, from + 1)
    }
}

/// The index of the first entry from `from` on that goes by the given name,
/// or the number of entries where there is none.
pub open spec fn item_index_by_name(items: Seq<ItemView>, name: Seq<char>, from: int) -> int
    decreases items.len() - from,
{
    if from < 0 || from >= items.len() {
        items.len() as int
    } else if items[from].goes_by(name) {
        from
    } else {
        item_index_by_name(items, name, from + 1)
    }
}

/// The plain values of a catalogue of items.
pub open spec fn item_views(items: Seq<ItemData>) -> Seq<ItemView> {
    crate::store::views_of(items)
}

/// Finds the catalogue entry of a kind of item: the first with its flag.
pub fn find_item(item_to_find: ItemFlags, items: &Vec<ItemData>) -> (r: Option<usize>)
    ensures
        match r {
            Some(index) => index < items@.len() && index == item_index(
                item_views(items@),
                item_to_find,
                0,
            ),
            None => item_index(item_views(items@), item_to_find, 0) == items@.len(),
        },
{
    let mut i: usize = 0;
    while i < items.len()
        invariant
            i <= items.len(),
            item_index(item_views(items@), item_to_find, 0) == item_index(
                item_views(items@),
                item_to_find,
                i as int,
            ),
        decreases items.len() - i,
    {
        if items[i].flag.bits == item_to_find.bits {
            return Some(i);
        }
        i += 1;
    }
    None
}

/// Finds the catalogue entry that goes by a name: the first whose lookup
/// name is the name, or whose shown name in lower case is the name.
pub fn find_item_by_name(item_to_find: &str, items: &Vec<ItemData>) -> (r: Option<usize>)
    ensures
        match r {
            Some(index) => index < items@.len() && index == item_index_by_name(
                item_views(items@),
                item_to_find@,
                0,
            ),
            None => item_index_by_name(item_views(items@), item_to_find@, 0) == items@.len(),
        },
{
    let wanted = String::from_str(item_to_find);
    let mut i: usize = 0;
    while i < items.len()
        invariant
            i <= items.len(),
            wanted@ == item_to_find@,
            item_index_by_name(item_views(items@), item_to_find@, 0) == item_index_by_name(
                item_views(items@),
                item_to_find@,
                i as int,
            ),
        decreases items.len() - i,
    {
        let by_input_name = match &items[i].input_name {
            Some(input_name) => *input_name == wanted,
            None => false,
        };
        if by_input_name {
            return Some(i);
        }
        if to_ascii_lowercase(items[i].name.as_str()) == wanted {
            return Some(i);
        }
        i += 1;
    }
    None
}

/// The stable name of the first catalogue entry with the given flag.
pub open spec fn item_name(items: Seq<ItemView>, flag: ItemFlags) -> Seq<char> {
    items[item_index(items, flag, 0)].stable_name()
}

/// Tells whether the catalogue has an entry with the given flag.
pub open spec fn has_item(items: Seq<ItemView>, flag: ItemFlags) -> bool {
    item_index(items, flag, 0) < items.len()
}

/// Tells whether the catalogue has an entry that goes by the given name.
pub open spec fn has_item_named(items: Seq<ItemView>, name: Seq<char>) -> bool {
    item_index_by_name(items, name, 0) < items.len()
}

/// The name under which a kind of item is stored: the lookup name of its
/// catalogue entry where it has one, otherwise its shown name.
pub fn item_name_of(item_to_find: ItemFlags, items: &Vec<ItemData>) -> (r: String)
    requires
        has_item(item_views(items@), item_to_find),
    ensures
        r@ == item_name(item_views(items@), item_to_find),
{
    match find_item(item_to_find, items) {
        Some(index) => {
            match &items[index].input_name {
                Some(input_name) => input_name.clone(),
                None => items[index].name.clone(),
            }
        },
        None => String::new(),
    }
}

/// The entity that an item of the catalogue is in a room: it stands at
/// `(x, y)`, is drawn with the glyph of its kind, is picked up by walking
/// onto it, belongs to the room, and carries the entry's description.
pub open spec fn item_entity(item: ItemView, room: i32, x: i32, y: i32) -> EntityView {
    EntityView {
        position: Some(Position { x, y }),
        renderable: Some(
            Renderable {
                glyph: cp437_index(glyph_of_item(item.flag.bits)),
                color: Color { r: 255, g: 255, b: 255 },
                zorder: 1,
            },
        ),
        pickup_trigger: Some(PickupTrigger { item_to_pickup: item.flag }),
        belongs_to_room: Some(BelongsToRoom { room }),
        description: Some(described(item.name, item.input_name, item.description)),
        ..EntityView::vacant(0)
    }
}

/// Puts an item of the given catalogue entry into a room.
pub fn spawn_item(world: &mut World, room: i32, item: &ItemData, x: i32, y: i32)
    ensures
        final(world)@ == old(world)@.spawn_marked(item_entity(item@, room, x, y)),
{
    let mut record = EntityRecord::new();
    record.position = Some(Position { x, y });
    record.renderable = Some(Renderable::new_with_z(item_to_glyph(item.flag), white(), 1));
    record.pickup_trigger = Some(PickupTrigger { item_to_pickup: item.flag });
    record.belongs_to_room = Some(BelongsToRoom { room });
    record.description = Some(Description::of_entry(&item.name, &item.input_name, &item.description));
    world.create_marked_entity(record);
}

/// Puts an item of the given kind into a room.
pub fn create_item(world: &mut World, room: i32, item_type: ItemFlags, x: i32, y: i32)
    requires
        has_item(old(world)@.items, item_type),
    ensures
        final(world)@ == old(world)@.spawn_marked(
            item_entity(old(world)@.items[item_index(old(world)@.items, item_type, 0)], room, x, y),
        ),
{
    match find_item(item_type, &world.items) {
        Some(index) => {
            let item = world.items[index].clone();
            spawn_item(world, room, &item, x, y);
        },
        None => {},
    }
}

/// Puts the item that goes by the given name into a room.
pub fn create_item_by_name(world: &mut World, room: i32, item_name: &str, x: i32, y: i32)
    requires
        has_item_named(old(world)@.items, item_name@),
    ensures
        final(world)@ == old(world)@.spawn_marked(
            item_entity(
                old(world)@.items[item_index_by_name(old(world)@.items, item_name@, 0)],
                room,
                x,
                y,
            ),
        ),
{
    match find_item_by_name(item_name, &world.items) {
        Some(index) => {
            let item = world.items[index].clone();
            spawn_item(world, room, &item, x, y);
        },
        None => {},
    }
}

/// The name under which a kind of item is stored.
pub fn get_item_name(item_to_find: ItemFlags, world: &World) -> (r: String)
    requires
        has_item(world@.items, item_to_find),
    ensures
        r@ == item_name(world@.items, item_to_find),
{
    item_name_of(item_to_find, &world.items)
}

/// Puts a catalogue of items in the place of the world's catalogue.
pub fn load_items(world: &mut World, items: Vec<ItemData>)
    ensures
        final(world)@ == (crate::world::WorldView { items: item_views(items@), ..old(world)@ }),
{
    world.items = items;
}

} // verus!
