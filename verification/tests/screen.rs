use castle_adventure::components::{Description, Position};
use castle_adventure::hud::layout_action_result;
use castle_adventure::render::{grey, legend, red, white, Color, RenderSystem, Renderable, Sprite};
use castle_adventure::store::{create_entity, delete_entity, EntityRecord};

fn places(text: &str) -> Vec<(usize, usize, String)> {
    layout_action_result(text).into_iter().map(|w| (w.x, w.y, w.text)).collect()
}

fn drawn(x: i32, y: i32, icon: char, zorder: i32) -> EntityRecord {
    let mut record = EntityRecord::new();
    record.position = Some(Position { x, y });
    record.renderable = Some(Renderable::new_with_z(icon, white(), zorder));
    record
}

#[test]
fn words_follow_each_other_with_one_blank_between() {
    assert_eq!(
        places("you win!"),
        vec![(25, 11, "you".to_string()), (29, 11, "win!".to_string())]
    );
    assert_eq!(places("   "), vec![]);
}

#[test]
fn a_word_that_would_reach_the_edge_goes_to_the_next_row() {
    assert_eq!(
        places("a secret passage opens!"),
        vec![
            (25, 11, "a".to_string()),
            (27, 11, "secret".to_string()),
            (25, 12, "passage".to_string()),
            (33, 12, "opens!".to_string()),
        ]
    );
    assert_eq!(
        places("abcdefghijklmn o"),
        vec![(25, 11, "abcdefghijklmn".to_string()), (25, 12, "o".to_string())]
    );
    assert_eq!(
        places("abcdefghijklm o"),
        vec![(25, 11, "abcdefghijklm".to_string()), (25, 12, "o".to_string())]
    );
    assert_eq!(
        places("abcdefghijkl o"),
        vec![(25, 11, "abcdefghijkl".to_string()), (38, 11, "o".to_string())]
    );
}

#[test]
fn a_word_wider_than_the_screen_gets_a_row_of_its_own() {
    let long = "x".repeat(50);
    assert_eq!(
        places(&format!("{} b {} c", long, long)),
        vec![
            (25, 12, long.clone()),
            (25, 13, "b".to_string()),
            (25, 14, long.clone()),
            (25, 15, "c".to_string()),
        ]
    );
}

#[test]
fn the_width_of_a_word_is_counted_in_bytes() {
    assert_eq!(
        places("ééééééé b"),
        vec![(25, 11, "ééééééé".to_string()), (25, 12, "b".to_string())]
    );
}

#[test]
fn the_lowest_layer_is_drawn_first() {
    let mut slots = Vec::new();
    create_entity(&mut slots, drawn(1, 1, '\u{2663}', 1));
    create_entity(&mut slots, drawn(2, 2, 'a', 0));
    let gone = create_entity(&mut slots, drawn(3, 3, 'b', 0));
    create_entity(&mut slots, drawn(4, 4, 'c', 1));
    create_entity(&mut slots, drawn(5, 5, 'd', 2));
    let mut unplaced = drawn(6, 6, 'e', 0);
    unplaced.position = None;
    create_entity(&mut slots, unplaced);
    delete_entity(&mut slots, gone);
    let sprites = RenderSystem::new().run(&slots);
    let white = Color { r: 255, g: 255, b: 255 };
    assert_eq!(
        sprites,
        vec![
            Sprite { x: 2, y: 2, color: white, glyph: 97 },
            Sprite { x: 1, y: 1, color: white, glyph: 5 },
            Sprite { x: 4, y: 4, color: white, glyph: 99 },
        ]
    );
}

#[test]
fn the_legend_names_what_has_a_glyph_and_a_description() {
    let mut slots = Vec::new();
    create_entity(&mut slots, drawn(1, 1, 'a', 0));
    let mut lamp = drawn(2, 2, '\u{2660}', 1);
    lamp.description = Some(Description::new("Lamp", "bright"));
    create_entity(&mut slots, lamp);
    let mut word = EntityRecord::new();
    word.description = Some(Description::new("Window", "dusty"));
    create_entity(&mut slots, word);
    let lines = legend(&slots);
    assert_eq!(lines.len(), 1);
    assert_eq!(lines[0].glyph, 6);
    assert_eq!(lines[0].name, "Lamp");
}

#[test]
fn colours_are_those_of_the_terminal_palette() {
    assert_eq!(grey(), Color { r: 190, g: 190, b: 190 });
    assert_eq!(white(), Color { r: 255, g: 255, b: 255 });
    assert_eq!(red(), Color { r: 255, g: 0, b: 0 });
    assert_eq!(Renderable::new('\u{2588}', grey()).glyph, 219);
    assert_eq!(Renderable::new('\u{2588}', grey()).zorder, 0);
    assert_eq!(Renderable::new_with_z('A', red(), 1).glyph, 65);
}
