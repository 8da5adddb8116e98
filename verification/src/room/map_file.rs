//! The binary map file: a sequence of fixed-size room records, each a grid of
//! tile codes, a block of description text and an exit string.

use super::{Collision, ExitData, ExitDirection, RoomData, RoomView, TileData};
use vstd::prelude::*;
use vstd::utf8::{decode_utf8, valid_utf8};

verus! {

/// Columns of a room's tile grid.
pub const ROOM_WIDTH: usize = 24;

/// Rows of a room's tile grid.
pub const ROOM_HEIGHT: usize = 18;

/// Bytes of a room's tile grid.
pub const GRID_BYTES: usize = 432;

/// Lines of a room's description.
pub const DESCRIPTION_LINES: usize = 5;

/// Bytes of one description line.
pub const DESCRIPTION_LINE_BYTES: usize = 25;

/// Bytes of a room's description block.
pub const DESCRIPTION_BYTES: usize = 125;

/// Bytes of a room's exit string.
pub const EXIT_BYTES: usize = 18;

/// Bytes of one room record.
pub const RECORD_BYTES: usize = 575;

/// The tile code that stands for "no tile".
pub const BLANK_TILE: u8 = 32;

/// Why a map file could not be decoded.
#[derive(Debug, Copy, Clone, PartialEq, Eq, Structural)]
pub enum MapError {
    /// The data ends before the last record does.
    Truncated,
    /// A description line is not valid UTF-8.
    InvalidDescription,
    /// The exit string is not valid UTF-8.
    InvalidExitText,
    /// A room number of the exit string does not fit the room index type.
    ExitOutOfRange,
}

/// The glyph a tile code is drawn with: box-drawing and shading characters
/// for the codes of the table, and the character with the code's own number
/// for every other code.
pub open spec fn glyph_of(code: u8) -> char {
    if code == 178 {
        '\u{2593}'
    } else if code == 205 {
        '\u{2550}'
    } else if code == 219 {
        '\u{2588}'
    } else if code == 218 {
        '\u{250C}'
    } else if code == 196 {
        '\u{2500}'
    } else if code == 191 {
        '\u{2510}'
    } else if code == 192 {
        '\u{2514}'
    } else if code == 217 {
        '\u{2518}'
    } else if code == 177 {
        '\u{2592}'
    } else if code == 176 {
        '\u{2591}'
    } else if code == 179 {
        '\u{2502}'
    } else if code == 226 {
        '\u{0393}'
    } else if code == 224 {
        '\u{03B1}'
    } else if code == 195 {
        '\u{251C}'
    } else if code == 247 {
        '\u{2248}'
    } else {
        code as char
    }
}

/// Whether a tile code blocks movement. The policy: the codes 0, `'U'` and
/// `'D'` are walkable, every other code blocks.
pub open spec fn collision_of(code: u8) -> Collision {
    if code == 0 || code == 85 || code == 68 {
        Collision::Disabled
    } else {
        Collision::Enabled
    }
}

/// The tile that the grid byte at index `k` stands for.
pub open spec fn tile_at(grid: Seq<u8>, k: int) -> TileData {
    TileData {
        glyph: glyph_of(grid[k]),
        collision: collision_of(grid[k]),
        x: (k % 24) as i32,
        y: (k / 24) as i32,
    }
}

/// The tiles of the first `n` grid bytes, row by row: one for every byte that
/// is not blank.
pub open spec fn tiles_upto(grid: Seq<u8>, n: int) -> Seq<TileData>
    decreases n,
{
    if n <= 0 {
        Seq::empty()
    } else if grid[n - 1] == BLANK_TILE {
        tiles_upto(grid, n - 1)
    } else {
        tiles_upto(grid, n - 1).push(tile_at(grid, n - 1))
    }
}

/// The tiles of a whole grid.
pub open spec fn tiles_of(grid: Seq<u8>) -> Seq<TileData> {
    tiles_upto(grid, grid.len() as int)
}

/// Maps a tile code to its glyph.
pub fn map_ascii_to_char(ascii_char: u8) -> (r: char)
    ensures
        r == glyph_of(ascii_char),
{
    match ascii_char {
        178 => '\u{2593}',  // wall
        205 => '\u{2550}',  // horizontal double pipe
        219 => '\u{2588}',  // solid wall
        218 => '\u{250C}',  // upper left single pipe
        196 => '\u{2500}',  // horizontal single pipe
        191 => '\u{2510}',  // upper right single pipe
        192 => '\u{2514}',  // lower left single pipe
        217 => '\u{2518}',  // lower right single pipe
        177 => '\u{2592}',  // medium shade
        176 => '\u{2591}',  // light shade
        179 => '\u{2502}',  // vertical single pipe
        226 => '\u{0393}',  // capital gamma
        224 => '\u{03B1}',  // alpha
        195 => '\u{251C}',  // left tee pipe
        247 => '\u{2248}',  // almost equal
        _ => ascii_char as char,
    }
}

/// Maps a tile code to its collision flag.
pub fn map_ascii_to_collision(ascii_char: u8) -> (r: Collision)
    ensures
        r == collision_of(ascii_char),
{
    match ascii_char {
        0 => Collision::Disabled,
        85 => Collision::Disabled,
        68 => Collision::Disabled,
        _ => Collision::Enabled,
    }
}

/// The tile a code stands for, placed at the origin.
pub fn get_tile_data_from_ascii_char(ascii_char: u8) -> (r: TileData)
    ensures
        r == (TileData {
            glyph: glyph_of(ascii_char),
            collision: collision_of(ascii_char),
            x: 0,
            y: 0,
        }),
{
    TileData {
        glyph: map_ascii_to_char(ascii_char),
        collision: map_ascii_to_collision(ascii_char),
        x: 0,
        y: 0,
    }
}

/// Decodes a tile grid: every byte that is not blank becomes a tile at its
/// column and row.
pub fn decode_tiles(grid: &[u8]) -> (r: Vec<TileData>)
    requires
        grid@.len() == GRID_BYTES,
    ensures
        r@ == tiles_of(grid@),
{
    let mut tiles: Vec<TileData> = Vec::new();
    let mut k: usize = 0;
    while k < 432
        invariant
            k <= 432,
            grid@.len() == 432,
            tiles@ == tiles_upto(grid@, k as int),
        decreases 432 - k,
    {
        let t = grid[k];
        if t != 32 {
            let mut tile_data = get_tile_data_from_ascii_char(t);
            tile_data.x = (k % 24) as i32;
            tile_data.y = (k / 24) as i32;
            tiles.push(tile_data);
        }
        k += 1;
    }
    tiles
}

/// The grid index of the position that a tile stands at.
pub open spec fn tile_index(tile: TileData) -> int {
    tile.y * 24 + tile.x
}

/// A tile made from the grid byte at index `k` stands at index `k`.
pub proof fn lemma_tile_at_index(grid: Seq<u8>, k: int)
    requires
        0 <= k < GRID_BYTES,
    ensures
        tile_index(tile_at(grid, k)) == k,
        0 <= tile_at(grid, k).x < 24,
        0 <= tile_at(grid, k).y < 18,
{
}

/// Every tile of a decoded grid stands at a position whose byte is not
/// blank, is the tile that this byte alone determines, and comes after the
/// tiles of all earlier positions.
pub proof fn lemma_tiles_sound(grid: Seq<u8>, n: int)
    requires
        grid.len() == GRID_BYTES,
        0 <= n <= GRID_BYTES,
    ensures
        forall|t: int|
            0 <= t < tiles_upto(grid, n).len() ==> {
                let tile = #[trigger] tiles_upto(grid, n)[t];
                &&& 0 <= tile_index(tile) < n
                &&& grid[tile_index(tile)] != BLANK_TILE
                &&& tile == tile_at(grid, tile_index(tile))
            },
        forall|s: int, t: int|
            0 <= s < t < tiles_upto(grid, n).len() ==> tile_index(
                #[trigger] tiles_upto(grid, n)[s],
            ) < tile_index(#[trigger] tiles_upto(grid, n)[t]),
    decreases n,
{
    if n > 0 {
        lemma_tiles_sound(grid, n - 1);
        if grid[n - 1] != BLANK_TILE {
            lemma_tile_at_index(grid, n - 1);
        }
    }
}

/// Every position of the grid whose byte is not blank has its tile among the
/// decoded tiles.
pub proof fn lemma_tiles_complete(grid: Seq<u8>, n: int, k: int)
    requires
        grid.len() == GRID_BYTES,
        0 <= k < n <= GRID_BYTES,
        grid[k] != BLANK_TILE,
    ensures
        tiles_upto(grid, n).contains(tile_at(grid, k)),
    decreases n,
{
    if k < n - 1 {
        lemma_tiles_complete(grid, n - 1, k);
        let prev = tiles_upto(grid, n - 1);
        let t = choose|t: int| 0 <= t < prev.len() && prev[t] == tile_at(grid, k);
        if grid[n - 1] != BLANK_TILE {
            assert(tiles_upto(grid, n)[t] == tile_at(grid, k));
        }
    } else {
        let prev = tiles_upto(grid, n - 1);
        assert(tiles_upto(grid, n)[prev.len() as int] == tile_at(grid, k));
    }
}

/// The tiles of a room leave out exactly the blank positions of its grid: a
/// position holds a tile if and only if its byte is not the blank code, and
/// the tile's glyph and collision flag depend on that byte alone.
pub proof fn lemma_tiles_exclude_exactly_blanks(grid: Seq<u8>, x: int, y: int)
    requires
        grid.len() == GRID_BYTES,
        0 <= x < ROOM_WIDTH,
        0 <= y < ROOM_HEIGHT,
    ensures
        grid[y * 24 + x] != BLANK_TILE <==> exists|t: int|
            0 <= t < tiles_of(grid).len() && #[trigger] tiles_of(grid)[t].x == x && tiles_of(
                grid,
            )[t].y == y,
        forall|t: int|
            0 <= t < tiles_of(grid).len() && #[trigger] tiles_of(grid)[t].x == x && tiles_of(
                grid,
            )[t].y == y ==> tiles_of(grid)[t].glyph == glyph_of(grid[y * 24 + x]) && tiles_of(
                grid,
            )[t].collision == collision_of(grid[y * 24 + x]),
{
    let k = y * 24 + x;
    lemma_tiles_sound(grid, 432);
    lemma_tile_at_index(grid, k);
    if grid[k] != BLANK_TILE {
        lemma_tiles_complete(grid, 432, k);
        let t = choose|t: int| 0 <= t < tiles_of(grid).len() && tiles_of(grid)[t] == tile_at(grid, k);
        assert(tiles_of(grid)[t].x == x && tiles_of(grid)[t].y == y);
    }
    assert forall|t: int|
        0 <= t < tiles_of(grid).len() && #[trigger] tiles_of(grid)[t].x == x && tiles_of(
            grid,
        )[t].y == y implies grid[k] != BLANK_TILE && tiles_of(grid)[t] == tile_at(grid, k) by {
        assert(tile_index(tiles_of(grid)[t]) == k);
    }
}

/// Tells whether a byte is an upper-case ASCII letter.
pub open spec fn is_upper(b: u8) -> bool {
    65 <= b <= 90
}

/// Tells whether a byte is an ASCII decimal digit.
pub open spec fn is_digit(b: u8) -> bool {
    48 <= b <= 57
}

/// How many digits stand in a row from index `i` on.
pub open spec fn digit_run(s: Seq<u8>, i: int) -> nat
    decreases s.len() - i,
{
    if 0 <= i < s.len() && is_digit(s[i]) {
        1 + digit_run(s, i + 1)
    } else {
        0
    }
}

/// The number that a run of decimal digits writes.
pub open spec fn decimal_value(digits: Seq<u8>) -> nat
    decreases digits.len(),
{
    if digits.len() == 0 {
        0
    } else {
        decimal_value(digits.drop_last()) * 10 + (digits.last() - 48) as nat
    }
}

/// The exit codes of an exit string from index `i` on: every upper-case
/// letter that a digit follows, with all the digits that follow it, found
/// from left to right without overlap.
pub open spec fn exit_codes(s: Seq<u8>, i: int) -> Seq<(u8, Seq<u8>)>
    decreases s.len() - i,
    via exit_codes_decreases
{
    if i < 0 || i >= s.len() {
        Seq::empty()
    } else if is_upper(s[i]) && digit_run(s, i + 1) > 0 {
        seq![(s[i], s.subrange(i + 1, i + 1 + digit_run(s, i + 1)))] + exit_codes(
            s,
            i + 1 + digit_run(s, i + 1),
        )
    } else {
        exit_codes(s, i + 1)
    }
}

/// The search for exit codes goes on behind the digits of a code, which
/// end within the string.
#[via_fn]
proof fn exit_codes_decreases(s: Seq<u8>, i: int) {
    if 0 <= i < s.len() {
        lemma_digit_run_bound(s, i + 1);
    }
}

/// A run of digits ends within the string.
pub proof fn lemma_digit_run_bound(s: Seq<u8>, i: int)
    requires
        0 <= i <= s.len(),
    ensures
        i + digit_run(s, i) <= s.len(),
    decreases s.len() - i,
{
    if i < s.len() && is_digit(s[i]) {
        lemma_digit_run_bound(s, i + 1);
    }
}

/// The direction that a direction letter names.
pub open spec fn direction_of(letter: u8) -> ExitDirection {
    if letter == 78 {
        ExitDirection::North
    } else if letter == 69 {
        ExitDirection::East
    } else if letter == 83 {
        ExitDirection::South
    } else if letter == 87 {
        ExitDirection::West
    } else if letter == 85 {
        ExitDirection::Up
    } else if letter == 68 {
        ExitDirection::Down
    } else {
        ExitDirection::Invalid
    }
}

/// The exit that an exit code stands for. The file counts rooms from one, an
/// exit holds the index from zero.
pub open spec fn exit_of(code: (u8, Seq<u8>)) -> ExitData {
    ExitData { direction: direction_of(code.0), to_room: (decimal_value(code.1) - 1) as i32 }
}

/// Tells whether every room number of the codes fits a room index.
pub open spec fn exit_codes_in_range(codes: Seq<(u8, Seq<u8>)>) -> bool {
    forall|k: int| 0 <= k < codes.len() ==> decimal_value(#[trigger] codes[k].1) <= i32::MAX
}

/// What an exit string parses to: its exits in the order of the text, or an
/// error where a room number is too large.
pub open spec fn parse_exits_spec(s: Seq<u8>) -> Result<Seq<ExitData>, MapError> {
    let codes = exit_codes(s, 0);
    if exit_codes_in_range(codes) {
        Ok(codes.map_values(|c: (u8, Seq<u8>)| exit_of(c)))
    } else {
        Err(MapError::ExitOutOfRange)
    }
}

/// Maps a direction letter to its direction.
pub fn direction_from_letter(letter: u8) -> (r: ExitDirection)
    ensures
        r == direction_of(letter),
{
    match letter {
        78 => ExitDirection::North,
        69 => ExitDirection::East,
        83 => ExitDirection::South,
        87 => ExitDirection::West,
        85 => ExitDirection::Up,
        68 => ExitDirection::Down,
        _ => ExitDirection::Invalid,
    }
}

/// A run of digits never writes a smaller number than its beginning does.
pub proof fn lemma_decimal_value_grows(digits: Seq<u8>, n: int)
    requires
        0 <= n <= digits.len(),
    ensures
        decimal_value(digits.take(n)) <= decimal_value(digits),
    decreases digits.len() - n,
{
    if n < digits.len() {
        lemma_decimal_value_grows(digits, n + 1);
        assert(digits.take(n + 1).drop_last() =~= digits.take(n));
    } else {
        assert(digits.take(n) =~= digits);
    }
}

/// The digits counted from `i` on go on to be counted from any index inside
/// the run.
pub proof fn lemma_digit_run_split(s: Seq<u8>, i: int, j: int)
    requires
        0 <= i <= j <= s.len(),
        forall|k: int| i <= k < j ==> is_digit(#[trigger] s[k]),
    ensures
        digit_run(s, i) == (j - i) + digit_run(s, j),
    decreases j - i,
{
    if i < j {
        lemma_digit_run_split(s, i + 1, j);
    }
}

/// The whole run of digits from `i` on writes at least the number that its
/// first `j - i` digits write.
pub proof fn lemma_run_value_bound(s: Seq<u8>, i: int, j: int)
    requires
        0 <= i <= j <= s.len(),
        forall|k: int| i <= k < j ==> is_digit(#[trigger] s[k]),
    ensures
        decimal_value(s.subrange(i, j)) <= decimal_value(s.subrange(i, i + digit_run(s, i))),
{
    lemma_digit_run_split(s, i, j);
    lemma_digit_run_bound(s, i);
    let digits = s.subrange(i, i + digit_run(s, i));
    lemma_decimal_value_grows(digits, j - i);
    assert(digits.take(j - i) =~= s.subrange(i, j));
}

/// The digits counted in the first of two texts are the digits counted in
/// the two texts written one after the other, where the second text does
/// not begin with a digit.
pub proof fn lemma_digit_run_of_prefix(a: Seq<u8>, b: Seq<u8>, i: int)
    requires
        0 <= i <= a.len(),
        b.len() == 0 || !is_digit(b[0]),
    ensures
        digit_run(a + b, i) == digit_run(a, i),
    decreases a.len() - i,
{
    if i < a.len() {
        assert((a + b)[i] == a[i]);
        if is_digit(a[i]) {
            lemma_digit_run_of_prefix(a, b, i + 1);
        }
    } else if b.len() > 0 {
        assert((a + b)[i] == b[0]);
    }
}

/// The exit codes of a text from an index on are those of the text without
/// its first `k` bytes from `k` bytes earlier on.
pub proof fn lemma_exit_codes_of_suffix(s: Seq<u8>, k: int, i: int)
    requires
        0 <= k <= s.len(),
        0 <= i <= s.len() - k,
    ensures
        exit_codes(s, k + i) == exit_codes(s.skip(k), i),
    decreases s.len() - k - i,
{
    let t = s.skip(k);
    if i < t.len() {
        assert(t[i] == s[k + i]);
        lemma_digit_run_of_suffix(s, k, i + 1);
        lemma_digit_run_bound(t, i + 1);
        let run = digit_run(t, i + 1);
        if is_upper(t[i]) && run > 0 {
            assert(t.subrange(i + 1, i + 1 + run) =~= s.subrange(k + i + 1, k + i + 1 + run));
            lemma_exit_codes_of_suffix(s, k, i + 1 + run);
        } else {
            lemma_exit_codes_of_suffix(s, k, i + 1);
        }
    }
}

/// The digits counted in a text from an index on are those counted in the
/// text without its first `k` bytes from `k` bytes earlier on.
pub proof fn lemma_digit_run_of_suffix(s: Seq<u8>, k: int, i: int)
    requires
        0 <= k <= s.len(),
        0 <= i <= s.len() - k,
    ensures
        digit_run(s, k + i) == digit_run(s.skip(k), i),
    decreases s.len() - k - i,
{
    if i < s.len() - k {
        assert(s.skip(k)[i] == s[k + i]);
        if is_digit(s[k + i]) {
            lemma_digit_run_of_suffix(s, k, i + 1);
        }
    }
}

/// Parsing keeps the order of the text: the exit codes of two texts written
/// one after the other are those of the first followed by those of the
/// second, where the second text does not begin with a digit.
pub proof fn lemma_exit_codes_keep_order(a: Seq<u8>, b: Seq<u8>, i: int)
    requires
        0 <= i <= a.len(),
        b.len() == 0 || !is_digit(b[0]),
    ensures
        exit_codes(a + b, i) == exit_codes(a, i) + exit_codes(b, 0),
    decreases a.len() - i,
{
    let s = a + b;
    if i < a.len() {
        assert(s[i] == a[i]);
        lemma_digit_run_of_prefix(a, b, i + 1);
        lemma_digit_run_bound(a, i + 1);
        let run = digit_run(a, i + 1);
        if is_upper(a[i]) && run > 0 {
            assert(s.subrange(i + 1, i + 1 + run) =~= a.subrange(i + 1, i + 1 + run));
            lemma_exit_codes_keep_order(a, b, i + 1 + run);
            assert(seq![(a[i], a.subrange(i + 1, i + 1 + run))] + (exit_codes(a, i + 1 + run)
                + exit_codes(b, 0)) =~= (seq![(a[i], a.subrange(i + 1, i + 1 + run))] + exit_codes(
                a,
                i + 1 + run,
            )) + exit_codes(b, 0));
        } else {
            lemma_exit_codes_keep_order(a, b, i + 1);
        }
    } else {
        lemma_exit_codes_of_suffix(s, a.len() as int, 0);
        assert(s.skip(a.len() as int) =~= b);
        assert(exit_codes(a, i) + exit_codes(b, 0) =~= exit_codes(b, 0));
    }
}

/// Tells whether a letter and a text of digits make an exit code: the
/// letter is an upper-case ASCII letter, and the text holds one or more
/// ASCII decimal digits and nothing else.
pub open spec fn is_exit_code(code: (u8, Seq<u8>)) -> bool {
    &&& is_upper(code.0)
    &&& code.1.len() > 0
    &&& forall|i: int| 0 <= i < code.1.len() ==> is_digit(#[trigger] code.1[i])
}

/// The text that writes some exit codes one after the other: for each its
/// letter, then its digits.
pub open spec fn codes_text(codes: Seq<(u8, Seq<u8>)>) -> Seq<u8>
    decreases codes.len(),
{
    if codes.len() == 0 {
        Seq::empty()
    } else {
        seq![codes[0].0] + codes[0].1 + codes_text(codes.drop_first())
    }
}

/// A text without an upper-case letter holds no exit code.
pub proof fn lemma_no_letters_no_codes(s: Seq<u8>, i: int)
    requires
        0 <= i,
        forall|j: int| 0 <= j < s.len() ==> !is_upper(#[trigger] s[j]),
    ensures
        exit_codes(s, i) == Seq::<(u8, Seq<u8>)>::empty(),
    decreases s.len() - i,
{
    if i < s.len() {
        lemma_no_letters_no_codes(s, i + 1);
    }
}

/// An exit string that holds `k` exit codes one after the other, and after
/// them padding without letters, parses to exactly these `k` codes in
/// their order: none is dropped, merged, moved or doubled. Where each room
/// number fits, the exits are the `k` exits that the codes stand for: the
/// direction of each letter, and each room number less one.
pub proof fn lemma_codes_are_parsed(codes: Seq<(u8, Seq<u8>)>, padding: Seq<u8>)
    requires
        forall|k: int| 0 <= k < codes.len() ==> is_exit_code(#[trigger] codes[k]),
        forall|j: int| 0 <= j < padding.len() ==> !is_upper(#[trigger] padding[j]),
        padding.len() == 0 || !is_digit(padding[0]),
    ensures
        exit_codes(codes_text(codes) + padding, 0) == codes,
        exit_codes_in_range(codes) ==> parse_exits_spec(codes_text(codes) + padding) == Ok::<
            Seq<ExitData>,
            MapError,
        >(codes.map_values(|c: (u8, Seq<u8>)| exit_of(c))),
        codes.map_values(|c: (u8, Seq<u8>)| exit_of(c)).len() == codes.len(),
    decreases codes.len(),
{
    let text = codes_text(codes) + padding;
    if codes.len() == 0 {
        assert(text =~= padding);
        lemma_no_letters_no_codes(padding, 0);
        assert(codes =~= Seq::<(u8, Seq<u8>)>::empty());
    } else {
        let code = codes[0];
        let others = codes.drop_first();
        let rest = codes_text(others) + padding;
        let end = 1 + code.1.len() as int;
        assert(is_exit_code(code));
        assert forall|k: int| 0 <= k < others.len() implies is_exit_code(#[trigger] others[k]) by {
            assert(others[k] == codes[k + 1]);
        }
        lemma_codes_are_parsed(others, padding);
        assert(text =~= seq![code.0] + code.1 + rest);
        assert(text[0] == code.0);
        assert forall|k: int| 1 <= k < end implies is_digit(#[trigger] text[k]) by {
            assert(text[k] == code.1[k - 1]);
        }
        // What follows the digits of the first code is no digit.
        if rest.len() > 0 {
            assert(text[end] == rest[0]);
            if others.len() > 0 {
                assert(is_exit_code(others[0]));
                assert(rest[0] == others[0].0);
            } else {
                assert(rest =~= padding);
            }
            assert(!is_digit(text[end]));
        }
        lemma_digit_run_split(text, 1, end);
        assert(digit_run(text, end) == 0);
        assert(text.subrange(1, end) =~= code.1);
        lemma_exit_codes_of_suffix(text, end, 0);
        assert(text.skip(end) =~= rest);
        assert(exit_codes(text, 0) == seq![code] + exit_codes(text, end));
        assert(seq![code] + others =~= codes);
    }
}

/// Parses an exit string into its exits, in the order of the text.
pub fn parse_exits(text: &[u8]) -> (r: Result<Vec<ExitData>, MapError>)
    ensures
        match r {
            Ok(exits) => parse_exits_spec(text@) == Ok::<Seq<ExitData>, MapError>(exits@),
            Err(e) => parse_exits_spec(text@) == Err::<Seq<ExitData>, MapError>(e),
        },
{
    let n = text.len();
    let mut exits: Vec<ExitData> = Vec::new();
    let ghost mut done: Seq<(u8, Seq<u8>)> = Seq::empty();
    let mut i: usize = 0;
    while i < n
        invariant
            n == text@.len(),
            i <= n,
            exit_codes(text@, 0) == done + exit_codes(text@, i as int),
            exit_codes_in_range(done),
            exits@ == done.map_values(|c: (u8, Seq<u8>)| exit_of(c)),
        decreases n - i,
    {
        let letter = text[i];
        if 65 <= letter && letter <= 90 && i + 1 < n && 48 <= text[i + 1] && text[i + 1] <= 57 {
            let start = i + 1;
            let mut j: usize = start;
            let mut value: i64 = 0;
            assert(text@.subrange(start as int, j as int) =~= Seq::<u8>::empty());
            while j < n && 48 <= text[j] && text[j] <= 57
                invariant
                    n == text@.len(),
                    start <= j <= n,
                    i < n,
                    start == i + 1,
                    letter == text@[i as int],
                    is_upper(letter),
                    is_digit(text@[start as int]),
                    exit_codes(text@, 0) == done + exit_codes(text@, i as int),
                    0 <= value <= i32::MAX,
                    value == decimal_value(text@.subrange(start as int, j as int)),
                    forall|k: int| start <= k < j ==> is_digit(#[trigger] text@[k]),
                decreases n - j,
            {
                let digit: i64 = (text[j] - 48) as i64;
                let next: i64 = value * 10 + digit;
                proof {
                    assert(text@.subrange(start as int, j + 1).drop_last() =~= text@.subrange(
                        start as int,
                        j as int,
                    ));
                    assert(next == decimal_value(text@.subrange(start as int, j + 1)));
                }
                if next > 2147483647 {
                    proof {
                        lemma_run_value_bound(text@, start as int, j + 1);
                        let end = start + digit_run(text@, start as int);
                        let digits = text@.subrange(start as int, end);
                        let codes = exit_codes(text@, i as int);
                        assert(digit_run(text@, start as int) > 0);
                        assert(codes == seq![(letter, digits)] + exit_codes(text@, end));
                        assert(codes[0] == (letter, digits));
                        let all = exit_codes(text@, 0);
                        assert(all[done.len() as int] == codes[0]);
                        assert(decimal_value(all[done.len() as int].1) > i32::MAX);
                    }
                    return Err(MapError::ExitOutOfRange);
                }
                value = next;
                j += 1;
            }
            proof {
                lemma_digit_run_split(text@, start as int, j as int);
                assert(digit_run(text@, j as int) == 0);
                let code = (letter, text@.subrange(start as int, j as int));
                assert(exit_codes(text@, i as int) == seq![code] + exit_codes(text@, j as int));
                let next_done = done.push(code);
                assert(done + (seq![code] + exit_codes(text@, j as int)) =~= next_done + exit_codes(
                    text@,
                    j as int,
                ));
                assert(next_done.map_values(|c: (u8, Seq<u8>)| exit_of(c)) =~= exits@.push(
                    exit_of(code),
                ));
                done = next_done;
            }
            exits.push(
                ExitData { direction: direction_from_letter(letter), to_room: (value - 1) as i32 },
            );
            i = j;
        } else {
            proof {
                if is_upper(letter) {
                    assert(digit_run(text@, i + 1) == 0);
                }
            }
            i += 1;
        }
    }
    proof {
        assert(done + exit_codes(text@, i as int) =~= done);
    }
    Ok(exits)
}

/// The text that `bytes` encodes, by `std::str::from_utf8`: present exactly
/// where the bytes are valid UTF-8, and then the characters they decode to.
#[verifier::external_body]
fn text_from_utf8(bytes: &[u8]) -> (r: Option<String>)
    ensures
        r is Some <==> valid_utf8(bytes@),
        r is Some ==> r->0@ == decode_utf8(bytes@),
{
    match std::str::from_utf8(bytes) {
        Ok(text) => Some(text.to_string()),
        Err(_) => None,
    }
}

/// The bytes of description line `line` within a description block.
pub open spec fn description_line(block: Seq<u8>, line: int) -> Seq<u8> {
    block.subrange(line * 25, line * 25 + 25)
}

/// Tells whether each of the five lines of a description block is valid
/// UTF-8 on its own.
pub open spec fn description_valid(block: Seq<u8>) -> bool {
    forall|line: int| 0 <= line < 5 ==> valid_utf8(#[trigger] description_line(block, line))
}

/// The five lines of text of a description block.
pub open spec fn description_of(block: Seq<u8>) -> Seq<Seq<char>> {
    Seq::new(5, |line: int| decode_utf8(description_line(block, line)))
}

/// Decodes a description block into its five lines of text.
pub fn decode_description(block: &[u8]) -> (r: Result<Vec<String>, MapError>)
    requires
        block@.len() == DESCRIPTION_BYTES,
    ensures
        r is Ok <==> description_valid(block@),
        r is Ok ==> r->Ok_0@.map_values(|s: String| s@) == description_of(block@),
        r is Err ==> r->Err_0 == MapError::InvalidDescription,
{
    let mut lines: Vec<String> = Vec::new();
    let mut row: usize = 0;
    while row < 5
        invariant
            row <= 5,
            block@.len() == 125,
            lines@.len() == row,
            forall|line: int| 0 <= line < row ==> valid_utf8(#[trigger] description_line(block@, line)),
            forall|line: int|
                0 <= line < row ==> (#[trigger] lines@[line])@ == decode_utf8(
                    description_line(block@, line),
                ),
        decreases 5 - row,
    {
        let line_bytes = &block[row * 25..row * 25 + 25];
        assert(line_bytes@ == description_line(block@, row as int));
        match text_from_utf8(line_bytes) {
            Some(text) => {
                lines.push(text);
            },
            None => {
                return Err(MapError::InvalidDescription);
            },
        }
        row += 1;
    }
    assert(lines@.map_values(|s: String| s@) =~= description_of(block@));
    Ok(lines)
}

/// The grid bytes of a room record.
pub open spec fn record_grid(record: Seq<u8>) -> Seq<u8> {
    record.subrange(0, 432)
}

/// The description block of a room record.
pub open spec fn record_description(record: Seq<u8>) -> Seq<u8> {
    record.subrange(432, 557)
}

/// The exit string of a room record.
pub open spec fn record_exits(record: Seq<u8>) -> Seq<u8> {
    record.subrange(557, 575)
}

/// What a room record decodes to: the room, or the first error met when the
/// description, then the exit string, is read.
pub open spec fn decode_room_spec(record: Seq<u8>) -> Result<RoomView, MapError> {
    if record.len() < RECORD_BYTES {
        Err(MapError::Truncated)
    } else if !description_valid(record_description(record)) {
        Err(MapError::InvalidDescription)
    } else if !valid_utf8(record_exits(record)) {
        Err(MapError::InvalidExitText)
    } else {
        match parse_exits_spec(record_exits(record)) {
            Ok(exits) => Ok(
                RoomView {
                    tiles: tiles_of(record_grid(record)),
                    description: description_of(record_description(record)),
                    exits,
                },
            ),
            Err(e) => Err(e),
        }
    }
}

/// Decodes one room record: the tile grid, the description block and the
/// exit string that stand at its beginning.
pub fn decode_room(record: &[u8]) -> (r: Result<RoomData, MapError>)
    ensures
        match r {
            Ok(room) => decode_room_spec(record@) == Ok::<RoomView, MapError>(room@),
            Err(e) => decode_room_spec(record@) == Err::<RoomView, MapError>(e),
        },
{
    if record.len() < 575 {
        return Err(MapError::Truncated);
    }
    let tiles = decode_tiles(&record[0..432]);
    let description = match decode_description(&record[432..557]) {
        Ok(lines) => lines,
        Err(e) => {
            return Err(e);
        },
    };
    let exit_bytes = &record[557..575];
    if text_from_utf8(exit_bytes).is_none() {
        return Err(MapError::InvalidExitText);
    }
    let exits = match parse_exits(exit_bytes) {
        Ok(exits) => exits,
        Err(e) => {
            return Err(e);
        },
    };
    Ok(RoomData { tiles, description, exits })
}

/// The bytes of record `index` of a map file.
pub open spec fn record_at(data: Seq<u8>, index: int) -> Seq<u8> {
    data.subrange(index * 575, index * 575 + 575)
}

/// Tells whether each of the first `count` records of the data decodes.
pub open spec fn records_decode(data: Seq<u8>, count: int) -> bool {
    forall|index: int| 0 <= index < count ==> (#[trigger] decode_room_spec(record_at(data, index))) is Ok
}

/// The index of the first of the records from `from` on, and before
/// `count`, that does not decode; `count` where each decodes.
pub open spec fn first_bad_record(data: Seq<u8>, from: int, count: int) -> int
    decreases count - from,
{
    if from >= count {
        count
    } else if decode_room_spec(record_at(data, from)) is Err {
        from
    } else {
        first_bad_record(data, from + 1, count)
    }
}

/// The error that decoding the first `count` records of a map file ends in,
/// where it ends in one: that the data is too short for so many records,
/// or else the error of the first record that does not decode.
pub open spec fn first_error(data: Seq<u8>, count: int) -> MapError {
    if count * 575 > data.len() {
        MapError::Truncated
    } else {
        decode_room_spec(record_at(data, first_bad_record(data, 0, count)))->Err_0
    }
}

/// Decodes the first `count` room records of a map file. Record `i` stands
/// at byte offset `575 * i`. Data that ends before the last record does is
/// refused, and so is data with a record that does not decode: the error is
/// that of the first such record.
pub fn decode_rooms(data: &[u8], count: usize) -> (r: Result<Vec<RoomData>, MapError>)
    ensures
        r is Ok <==> count * RECORD_BYTES <= data@.len() && records_decode(data@, count as int),
        r is Ok ==> r->Ok_0@.len() == count && forall|index: int|
            0 <= index < count ==> decode_room_spec(record_at(data@, index)) == Ok::<
                RoomView,
                MapError,
            >((#[trigger] r->Ok_0@[index])@),
        r is Err ==> r->Err_0 == first_error(data@, count as int),
{
    if data.len() / 575 < count {
        return Err(MapError::Truncated);
    }
    let mut rooms: Vec<RoomData> = Vec::new();
    let mut index: usize = 0;
    while index < count
        invariant
            index <= count,
            count * 575 <= data@.len(),
            data@.len() <= usize::MAX,
            rooms@.len() == index,
            records_decode(data@, index as int),
            first_bad_record(data@, 0, count as int) == first_bad_record(
                data@,
                index as int,
                count as int,
            ),
            forall|k: int|
                0 <= k < index ==> decode_room_spec(record_at(data@, k)) == Ok::<RoomView, MapError>(
                    (#[trigger] rooms@[k])@,
                ),
        decreases count - index,
    {
        assert(index * 575 + 575 <= count * 575) by (nonlinear_arith)
            requires
                index < count,
        ;
        assert(count * 575 <= usize::MAX);
        let record = &data[index * 575..index * 575 + 575];
        assert(record@ == record_at(data@, index as int));
        match decode_room(record) {
            Ok(room) => {
                rooms.push(room);
            },
            Err(e) => {
                return Err(e);
            },
        }
        index += 1;
    }
    proof {
        assert(first_bad_record(data@, 0, count as int) == count);
    }
    Ok(rooms)
}

/// The tiles of every room of a map file leave out exactly the positions
/// whose byte in the file is the blank code: the room at index `room` has a
/// tile at column `x` and row `y` if and only if the byte at offset
/// `575 * room + 24 * y + x` of the file is not blank; and the glyph and the
/// collision flag of that tile depend on that byte alone.
pub proof fn lemma_decoded_tiles_exclude_exactly_blanks(data: Seq<u8>, room: int, x: int, y: int)
    requires
        0 <= room,
        decode_room_spec(record_at(data, room)) is Ok,
        (room + 1) * 575 <= data.len(),
        0 <= x < ROOM_WIDTH,
        0 <= y < ROOM_HEIGHT,
    ensures
        ({
            let tiles = decode_room_spec(record_at(data, room))->Ok_0.tiles;
            let byte = data[575 * room + 24 * y + x];
            &&& byte != BLANK_TILE <==> exists|t: int|
                0 <= t < tiles.len() && (#[trigger] tiles[t]).x == x && tiles[t].y == y
            &&& forall|t: int|
                0 <= t < tiles.len() && (#[trigger] tiles[t]).x == x && tiles[t].y == y
                    ==> tiles[t].glyph == glyph_of(byte) && tiles[t].collision == collision_of(byte)
        }),
{
    let record = record_at(data, room);
    let grid = record_grid(record);
    assert(grid[y * 24 + x] == data[575 * room + 24 * y + x]);
    lemma_tiles_exclude_exactly_blanks(grid, x, y);
}

} // verus!
