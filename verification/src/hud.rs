//! Where the words of an answer go on the screen.

use crate::textinput::{split_words, views, words, words_from};
use vstd::string::StringSliceAdditionalSpecFns;
use vstd::prelude::*;
use vstd::utf8::encode_utf8;

verus! {

/// The column where the answer begins.
pub const ANSWER_COLUMN: usize = 25;

/// The row where the answer begins.
pub const ANSWER_ROW: usize = 11;

/// The width of the screen in columns.
pub const SCREEN_COLUMNS: usize = 40;

/// A word of the answer and the place where it is printed.
#[derive(Debug)]
pub struct PlacedWord {
    pub x: usize,
    pub y: usize,
    pub text: String,
}

/// The width of a word on the screen: the number of its bytes.
pub open spec fn word_width(word: Seq<char>) -> int {
    encode_utf8(word).len() as int
}

/// The place where word `k` of an answer is printed: one column after the
/// word before it, or at the beginning of the next row where the word,
/// with the blank before it, would reach the right edge of the screen.
pub open spec fn placement(tokens: Seq<Seq<char>>, k: int) -> (int, int)
    decreases 2 * k + 1,
{
    if k < 0 {
        (25, 11)
    } else {
        let cursor = cursor_after(tokens, k);
        let space: int = if cursor.0 != 25 {
            1
        } else {
            0
        };
        if cursor.0 + word_width(tokens[k]) + space >= 40 {
            (25, cursor.1 + 1)
        } else {
            (cursor.0 + space, cursor.1)
        }
    }
}

/// The place behind the last of the first `n` words of an answer.
pub open spec fn cursor_after(tokens: Seq<Seq<char>>, n: int) -> (int, int)
    decreases 2 * n,
{
    if n <= 0 {
        (25, 11)
    } else {
        (placement(tokens, n - 1).0 + word_width(tokens[n - 1]), placement(tokens, n - 1).1)
    }
}

/// A list of words has at most half as many words as the text has
/// characters, rounded up.
pub proof fn lemma_words_are_few(s: Seq<char>, i: int, cur: Seq<char>)
    requires
        0 <= i <= s.len(),
    ensures
        2 * words_from(s, i, cur).len() <= (s.len() - i) + 1 + (if cur.len() > 0 {
            1int
        } else {
            0int
        }),
    decreases s.len() - i,
{
    if i < s.len() {
        if crate::textinput::is_white_space(s[i]) {
            lemma_words_are_few(s, i + 1, Seq::empty());
        } else {
            lemma_words_are_few(s, i + 1, cur.push(s[i]));
        }
    }
}

/// Every word is printed in a row that lies at most as many rows below the
/// first as there are words before it and the word itself.
pub proof fn lemma_rows_grow_slowly(tokens: Seq<Seq<char>>, n: int)
    requires
        0 <= n,
    ensures
        11 <= cursor_after(tokens, n).1 <= 11 + n,
        25 <= cursor_after(tokens, n).0,
    decreases n,
{
    if n > 0 {
        lemma_rows_grow_slowly(tokens, n - 1);
    }
}

/// Lays out the words of an answer: each word gets the place where it is
/// printed.
pub fn layout_action_result(active_description: &str) -> (r: Vec<PlacedWord>)
    ensures
        r@.len() == words(active_description@).len(),
        forall|k: int|
            0 <= k < r@.len() ==> {
                &&& (#[trigger] r@[k]).text@ == words(active_description@)[k]
                &&& r@[k].x == placement(words(active_description@), k).0
                &&& r@[k].y == placement(words(active_description@), k).1
            },
{
    let tokens = split_words(active_description);
    let ghost names = words(active_description@);
    let length = crate::textinput::chars_of(active_description).len();
    proof {
        lemma_words_are_few(active_description@, 0, Seq::empty());
        assert(active_description@.len() == length);
    }
    let n = tokens.len();
    let mut placed: Vec<PlacedWord> = Vec::new();
    // The column behind the last word, or the width of the screen where the
    // word reaches beyond it.
    let mut current_x: usize = 25;
    let mut current_y: usize = 11;
    let mut i: usize = 0;
    while i < n
        invariant
            i <= n,
            n == tokens@.len(),
            names == views(tokens@),
            2 * n <= usize::MAX + 1,
            placed@.len() == i,
            current_y == cursor_after(names, i as int).1,
            current_x == if cursor_after(names, i as int).0 < 40 {
                cursor_after(names, i as int).0
            } else {
                40
            },
            forall|k: int|
                0 <= k < i ==> {
                    &&& (#[trigger] placed@[k]).text@ == names[k]
                    &&& placed@[k].x == placement(names, k).0
                    &&& placed@[k].y == placement(names, k).1
                },
        decreases n - i,
    {
        proof {
            lemma_rows_grow_slowly(names, i as int);
            assert(names[i as int] == tokens@[i as int]@);
        }
        let ghost cursor = cursor_after(names, i as int);
        let ghost place = placement(names, i as int);
        let token = tokens[i].clone();
        let text_length: usize = token.as_str().as_bytes().len();
        assert(text_length == word_width(names[i as int]));
        let space_length: usize = if current_x != 25 {
            1
        } else {
            0
        };
        // check to see if we should wrap to the next line
        let wraps = current_x >= 40 || text_length >= 40 || current_x + text_length + space_length
            >= 40;
        let x: usize = if wraps {
            25
        } else {
            current_x + space_length
        };
        if wraps {
            current_y += 1;
        }
        current_x = if text_length >= 40 {
            40
        } else if x + text_length >= 40 {
            40
        } else {
            x + text_length
        };
        proof {
            assert(x == place.0 && current_y == place.1);
            assert(cursor_after(names, i + 1) == (place.0 + word_width(names[i as int]), place.1));
        }
        placed.push(PlacedWord { x, y: current_y, text: token });
        i += 1;
    }
    placed
}

} // verus!
