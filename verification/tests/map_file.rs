use castle_adventure::room::map_file::{
    decode_description, decode_room, decode_rooms, decode_tiles, map_ascii_to_char,
    map_ascii_to_collision, parse_exits, MapError,
};
use castle_adventure::room::{Collision, ExitData, ExitDirection};

fn blank_record() -> Vec<u8> {
    vec![32u8; 575]
}

fn record_with(grid: &[(usize, u8)], description: &str, exits: &str) -> Vec<u8> {
    let mut record = blank_record();
    for (index, code) in grid {
        record[*index] = *code;
    }
    for (i, b) in description.bytes().enumerate() {
        record[432 + i] = b;
    }
    for (i, b) in exits.bytes().enumerate() {
        record[557 + i] = b;
    }
    record
}

#[test]
fn exits_are_parsed_in_order_and_counted_from_zero() {
    let exits = parse_exits(b"N12E45").unwrap();
    assert_eq!(
        exits,
        vec![
            ExitData { direction: ExitDirection::North, to_room: 11 },
            ExitData { direction: ExitDirection::East, to_room: 44 },
        ]
    );
}

#[test]
fn parsing_exits_twice_gives_the_same_exits() {
    let text = b"S3 W10U2 D7      ";
    assert_eq!(parse_exits(text), parse_exits(text));
    assert_eq!(
        parse_exits(text).unwrap(),
        vec![
            ExitData { direction: ExitDirection::South, to_room: 2 },
            ExitData { direction: ExitDirection::West, to_room: 9 },
            ExitData { direction: ExitDirection::Up, to_room: 1 },
            ExitData { direction: ExitDirection::Down, to_room: 6 },
        ]
    );
}

#[test]
fn unknown_direction_letters_are_kept_as_invalid() {
    assert_eq!(
        parse_exits(b"X9N1").unwrap(),
        vec![
            ExitData { direction: ExitDirection::Invalid, to_room: 8 },
            ExitData { direction: ExitDirection::North, to_room: 0 },
        ]
    );
}

#[test]
fn letters_without_digits_and_stray_digits_are_skipped() {
    assert_eq!(parse_exits(b"NN5 77 e3 S").unwrap(), vec![
        ExitData { direction: ExitDirection::North, to_room: 4 },
    ]);
    assert_eq!(parse_exits(b"").unwrap(), vec![]);
    assert_eq!(
        parse_exits(b"N0").unwrap(),
        vec![ExitData { direction: ExitDirection::North, to_room: -1 }]
    );
    assert_eq!(
        parse_exits(b"N0012").unwrap(),
        vec![ExitData { direction: ExitDirection::North, to_room: 11 }]
    );
}

#[test]
fn room_numbers_beyond_the_index_type_are_refused() {
    assert_eq!(
        parse_exits(b"N2147483647").unwrap(),
        vec![ExitData { direction: ExitDirection::North, to_room: 2147483646 }]
    );
    assert_eq!(parse_exits(b"N2147483648"), Err(MapError::ExitOutOfRange));
    assert_eq!(parse_exits(b"E1N99999999999999999"), Err(MapError::ExitOutOfRange));
}

#[test]
fn glyph_table_maps_wall_codes_and_falls_back_to_the_code_itself() {
    assert_eq!(map_ascii_to_char(178), '\u{2593}');
    assert_eq!(map_ascii_to_char(205), '\u{2550}');
    assert_eq!(map_ascii_to_char(219), '\u{2588}');
    assert_eq!(map_ascii_to_char(218), '\u{250C}');
    assert_eq!(map_ascii_to_char(196), '\u{2500}');
    assert_eq!(map_ascii_to_char(191), '\u{2510}');
    assert_eq!(map_ascii_to_char(192), '\u{2514}');
    assert_eq!(map_ascii_to_char(217), '\u{2518}');
    assert_eq!(map_ascii_to_char(177), '\u{2592}');
    assert_eq!(map_ascii_to_char(176), '\u{2591}');
    assert_eq!(map_ascii_to_char(179), '\u{2502}');
    assert_eq!(map_ascii_to_char(226), '\u{0393}');
    assert_eq!(map_ascii_to_char(224), '\u{03B1}');
    assert_eq!(map_ascii_to_char(195), '\u{251C}');
    assert_eq!(map_ascii_to_char(247), '\u{2248}');
    assert_eq!(map_ascii_to_char(107), 'k');
    assert_eq!(map_ascii_to_char(98), 'b');
    assert_eq!(map_ascii_to_char(85), 'U');
    assert_eq!(map_ascii_to_char(200), '\u{00C8}');
}

#[test]
fn collision_policy_lets_three_codes_through() {
    assert_eq!(map_ascii_to_collision(0), Collision::Disabled);
    assert_eq!(map_ascii_to_collision(85), Collision::Disabled);
    assert_eq!(map_ascii_to_collision(68), Collision::Disabled);
    assert_eq!(map_ascii_to_collision(178), Collision::Enabled);
    assert_eq!(map_ascii_to_collision(65), Collision::Enabled);
}

#[test]
fn tiles_leave_out_exactly_the_blank_positions() {
    let mut grid = vec![32u8; 432];
    grid[0] = 178;
    grid[25] = 85;
    grid[431] = 65;
    let tiles = decode_tiles(&grid);
    assert_eq!(tiles.len(), 3);
    assert_eq!((tiles[0].x, tiles[0].y, tiles[0].glyph), (0, 0, '\u{2593}'));
    assert_eq!(tiles[0].collision, Collision::Enabled);
    assert_eq!((tiles[1].x, tiles[1].y, tiles[1].glyph), (1, 1, 'U'));
    assert_eq!(tiles[1].collision, Collision::Disabled);
    assert_eq!((tiles[2].x, tiles[2].y, tiles[2].glyph), (23, 17, 'A'));
    for k in 0..432usize {
        let here = tiles.iter().any(|t| t.x as usize == k % 24 && t.y as usize == k / 24);
        assert_eq!(here, grid[k] != 32);
    }
}

#[test]
fn a_full_grid_gives_a_tile_for_every_position() {
    let grid = vec![219u8; 432];
    let tiles = decode_tiles(&grid);
    assert_eq!(tiles.len(), 432);
    assert!(tiles.iter().all(|t| t.glyph == '\u{2588}'));
    assert_eq!(decode_tiles(&vec![32u8; 432]).len(), 0);
}

#[test]
fn description_is_five_lines_of_twenty_five_bytes() {
    let mut block = vec![b' '; 125];
    block[0] = b'A';
    block[25] = b'B';
    block[124] = b'Z';
    let lines = decode_description(&block).unwrap();
    assert_eq!(lines.len(), 5);
    assert_eq!(lines[0], format!("A{}", " ".repeat(24)));
    assert_eq!(lines[1], format!("B{}", " ".repeat(24)));
    assert_eq!(lines[4], format!("{}Z", " ".repeat(24)));
}

#[test]
fn description_text_is_decoded_as_utf8() {
    let mut block = vec![b' '; 125];
    block[0] = 0xC3;
    block[1] = 0xA9;
    let lines = decode_description(&block).unwrap();
    assert_eq!(lines[0].chars().next(), Some('\u{00E9}'));
    assert_eq!(lines[0].chars().count(), 24);
}

#[test]
fn description_that_is_not_text_is_refused() {
    let mut block = vec![b' '; 125];
    block[30] = 0xFF;
    assert_eq!(decode_description(&block), Err(MapError::InvalidDescription));
    let mut split = vec![b' '; 125];
    split[24] = 0xC3;
    split[25] = 0xA9;
    assert_eq!(decode_description(&split), Err(MapError::InvalidDescription));
}

#[test]
fn a_record_decodes_into_tiles_description_and_exits() {
    let record = record_with(&[(0, 178), (47, 68)], "A dark hall", "N2S3");
    let room = decode_room(&record).unwrap();
    assert_eq!(room.tiles.len(), 2);
    assert_eq!((room.tiles[1].x, room.tiles[1].y), (23, 1));
    assert_eq!(room.description.len(), 5);
    assert!(room.description[0].starts_with("A dark hall"));
    assert_eq!(
        room.exits,
        vec![
            ExitData { direction: ExitDirection::North, to_room: 1 },
            ExitData { direction: ExitDirection::South, to_room: 2 },
        ]
    );
}

#[test]
fn a_short_record_is_refused() {
    assert_eq!(decode_room(&vec![32u8; 574]).err(), Some(MapError::Truncated));
    assert_eq!(decode_room(&[]).err(), Some(MapError::Truncated));
}

#[test]
fn a_record_with_bad_text_is_refused() {
    let mut record = blank_record();
    record[432] = 0x80;
    assert_eq!(decode_room(&record).err(), Some(MapError::InvalidDescription));
    let mut record = blank_record();
    record[560] = 0xFF;
    assert_eq!(decode_room(&record).err(), Some(MapError::InvalidExitText));
    let record = record_with(&[], "", "N99999999999");
    assert_eq!(decode_room(&record).err(), Some(MapError::ExitOutOfRange));
}

#[test]
fn rooms_are_addressed_by_record_offset() {
    let mut data = Vec::new();
    data.extend(record_with(&[(0, 178)], "first", "N2"));
    data.extend(record_with(&[(1, 219), (2, 219)], "second", "S1"));
    data.extend(vec![1, 2, 3]);
    let rooms = decode_rooms(&data, 2).unwrap();
    assert_eq!(rooms.len(), 2);
    assert_eq!(rooms[0].tiles.len(), 1);
    assert_eq!(rooms[1].tiles.len(), 2);
    assert!(rooms[1].description[0].starts_with("second"));
    assert_eq!(rooms[1].exits[0].to_room, 0);
    assert_eq!(decode_rooms(&data, 0).unwrap().len(), 0);
}

#[test]
fn data_shorter_than_the_rooms_asked_for_is_refused() {
    let data = blank_record();
    assert_eq!(decode_rooms(&data, 2).err(), Some(MapError::Truncated));
    assert_eq!(decode_rooms(&[], 1).err(), Some(MapError::Truncated));
    let mut bad = blank_record();
    bad.extend(blank_record());
    bad[575 + 432] = 0xFF;
    assert_eq!(decode_rooms(&bad, 2).err(), Some(MapError::InvalidDescription));
    assert_eq!(decode_rooms(&bad, 1).unwrap().len(), 1);
}

fn exits_by_pattern(text: &str) -> Vec<ExitData> {
    let pattern = regex::Regex::new(r"(?P<direction>[A-Z])(?P<room>\d+)").unwrap();
    pattern
        .captures_iter(text)
        .map(|captures| {
            let direction = match &captures["direction"] {
                "N" => ExitDirection::North,
                "E" => ExitDirection::East,
                "S" => ExitDirection::South,
                "W" => ExitDirection::West,
                "U" => ExitDirection::Up,
                "D" => ExitDirection::Down,
                _ => ExitDirection::Invalid,
            };
            ExitData { direction, to_room: captures["room"].parse::<i32>().unwrap() - 1 }
        })
        .collect()
}

#[test]
fn exits_are_the_matches_of_the_letter_and_digits_pattern() {
    for text in [
        "",
        "N12E45",
        "N1S2E3W4U5D6",
        "  N1  S22   ",
        "NN1",
        "N1N",
        "1N1",
        "n1N2",
        "N 1",
        "N-1",
        "N01S002",
        "X7Y8Z9",
        "AB12CD34",
        "N1234567890",
        "N2147483647",
        "N1,S2;E3",
        "N1\0S2",
        "é N3 é",
        "N12E45            ",
    ] {
        assert_eq!(parse_exits(text.as_bytes()).unwrap(), exits_by_pattern(text), "text {:?}", text);
    }
}
