//! How an entity is drawn: its glyph, its colour and its drawing layer.

use crate::store::{gather, views_of, EntityRecord, EntityView};
use vstd::prelude::*;

verus! {

/// A colour, as red, green and blue.
#[derive(Debug, Copy, Clone, PartialEq, Eq, Structural)]
pub struct Color {
    pub r: u8,
    pub g: u8,
    pub b: u8,
}

/// The colour of room tiles.
pub fn grey() -> (c: Color)
    ensures
        c == (Color { r: 190, g: 190, b: 190 }),
{
    Color { r: 190, g: 190, b: 190 }
}

/// The colour of the player and of items.
pub fn white() -> (c: Color)
    ensures
        c == (Color { r: 255, g: 255, b: 255 }),
{
    Color { r: 255, g: 255, b: 255 }
}

/// The colour of enemies.
pub fn red() -> (c: Color)
    ensures
        c == (Color { r: 255, g: 0, b: 0 }),
{
    Color { r: 255, g: 0, b: 0 }
}

/// The index that the terminal font of code page 437 gives a character.
pub uninterp spec fn cp437_index(c: char) -> u16;

/// The font index of a character, by `rltk::to_cp437`.
#[verifier::external_body]
fn to_cp437(c: char) -> (r: u16)
    ensures
        r == cp437_index(c),
{
    rltk::to_cp437(c)
}

/// How an entity is drawn.
#[derive(Debug, Copy, Clone, PartialEq, Eq, Structural)]
pub struct Renderable {
    pub glyph: u16,
    pub color: Color,
    pub zorder: i32,
}

impl Renderable {
    /// A glyph of the lowest layer.
    pub fn new(icon: char, color: Color) -> (r: Self)
        ensures
            r == (Renderable { glyph: cp437_index(icon), color, zorder: 0 }),
    {
        Self { glyph: to_cp437(icon), color, zorder: 0 }
    }

    /// A glyph of the given layer.
    pub fn new_with_z(icon: char, color: Color, zorder: i32) -> (r: Self)
        ensures
            r == (Renderable { glyph: cp437_index(icon), color, zorder }),
    {
        let mut new_renderable = Renderable::new(icon, color);
        new_renderable.zorder = zorder;
        new_renderable
    }
}

/// A glyph to draw, and the cell to draw it in.
#[derive(Debug, Copy, Clone, PartialEq, Eq, Structural)]
pub struct Sprite {
    pub x: i32,
    pub y: i32,
    pub color: Color,
    pub glyph: u16,
}

/// The test for the entities that are drawn in a layer: those that stand
/// somewhere and have a glyph of that layer.
pub open spec fn is_drawn_in(layer: i32) -> spec_fn(EntityView) -> bool {
    |e: EntityView| e.alive && e.position is Some && e.renderable is Some && e.renderable->0.zorder
        == layer
}

/// What is drawn of an entity.
pub open spec fn sprite_of() -> spec_fn(EntityView) -> Sprite {
    |e: EntityView|
        Sprite {
            x: e.position->0.x,
            y: e.position->0.y,
            color: e.renderable->0.color,
            glyph: e.renderable->0.glyph,
        }
}

/// What is drawn of a layer, in the order of the slots.
pub open spec fn layer_sprites(entities: Seq<EntityView>, layer: i32) -> Seq<Sprite> {
    gather(entities, is_drawn_in(layer), sprite_of(), entities.len() as int)
}

/// What is drawn, in the order of drawing: the lowest layer first, and
/// above it the layer of the player, of the items and of the enemies.
pub open spec fn draw_order(entities: Seq<EntityView>) -> Seq<Sprite> {
    layer_sprites(entities, 0) + layer_sprites(entities, 1)
}

/// The stage that decides what is drawn.
pub struct RenderSystem {}

impl RenderSystem {
    /// The drawing stage.
    pub fn new() -> Self {
        Self {  }
    }

    /// The glyphs to draw, in the order of drawing.
    pub fn run(&mut self, slots: &Vec<EntityRecord>) -> (r: Vec<Sprite>)
        ensures
            r@ == draw_order(views_of(slots@)),
    {
        let ghost entities = views_of(slots@);
        let mut sprites: Vec<Sprite> = Vec::new();
        let mut zorder: i32 = 0;
        while zorder < 2
            invariant
                0 <= zorder <= 2,
                entities == views_of(slots@),
                sprites@ == if zorder == 0 {
                    Seq::<Sprite>::empty()
                } else if zorder == 1 {
                    layer_sprites(entities, 0)
                } else {
                    draw_order(entities)
                },
            decreases 2 - zorder,
        {
            let ghost below = sprites@;
            let mut i: usize = 0;
            assert(below + gather(entities, is_drawn_in(zorder), sprite_of(), 0) =~= below);
            while i < slots.len()
                invariant
                    i <= slots.len(),
                    entities == views_of(slots@),
                    sprites@ == below + gather(entities, is_drawn_in(zorder), sprite_of(), i as int),
                decreases slots.len() - i,
            {
                let ghost so_far = gather(entities, is_drawn_in(zorder), sprite_of(), i as int);
                if slots[i].alive {
                    match (slots[i].position, slots[i].renderable) {
                        (Some(position), Some(renderable)) => {
                            if renderable.zorder == zorder {
                                let sprite = Sprite {
                                    x: position.x,
                                    y: position.y,
                                    color: renderable.color,
                                    glyph: renderable.glyph,
                                };
                                sprites.push(sprite);
                                assert(below + so_far.push(sprite) =~= (below + so_far).push(sprite));
                            }
                        },
                        _ => {},
                    }
                }
                i += 1;
            }
            assert(Seq::<Sprite>::empty() + layer_sprites(entities, 0) =~= layer_sprites(entities, 0));
            zorder += 1;
        }
        sprites
    }
}

/// A line of the legend: a glyph, and the name of what it stands for.
#[derive(Debug)]
pub struct LegendLine {
    pub glyph: u16,
    pub color: Color,
    pub name: String,
}

/// What a [`LegendLine`] holds.
pub struct LegendView {
    pub glyph: u16,
    pub color: Color,
    pub name: Seq<char>,
}

impl View for LegendLine {
    type V = LegendView;

    open spec fn view(&self) -> LegendView {
        LegendView { glyph: self.glyph, color: self.color, name: self.name@ }
    }
}

/// The test for the entities of the legend: those with a glyph and a
/// description.
pub open spec fn is_in_legend() -> spec_fn(EntityView) -> bool {
    |e: EntityView| e.alive && e.renderable is Some && e.description is Some
}

/// The line of the legend for an entity.
pub open spec fn legend_line_of() -> spec_fn(EntityView) -> LegendView {
    |e: EntityView|
        LegendView {
            glyph: e.renderable->0.glyph,
            color: e.renderable->0.color,
            name: e.description->0.name,
        }
}

/// The legend: one line for every entity that has a glyph and a
/// description, in the order of the slots.
pub fn legend(slots: &Vec<EntityRecord>) -> (r: Vec<LegendLine>)
    ensures
        views_of(r@) == gather(views_of(slots@), is_in_legend(), legend_line_of(), slots@.len() as int),
{
    let mut lines: Vec<LegendLine> = Vec::new();
    let mut i: usize = 0;
    assert(views_of(lines@) =~= Seq::<LegendView>::empty());
    while i < slots.len()
        invariant
            i <= slots.len(),
            views_of(lines@) == gather(views_of(slots@), is_in_legend(), legend_line_of(), i as int),
        decreases slots.len() - i,
    {
        if slots[i].alive {
            match (slots[i].renderable, &slots[i].description) {
                (Some(renderable), Some(description)) => {
                    let line = LegendLine {
                        glyph: renderable.glyph,
                        color: renderable.color,
                        name: description.name.clone(),
                    };
                    assert(views_of(lines@.push(line)) =~= views_of(lines@).push(line@));
                    lines.push(line);
                },
                _ => {},
            }
        }
        i += 1;
    }
    lines
}

} // verus!
