//! Free-text command parsing: a line of player input becomes a command word
//! and an optional argument string.

use itertools::Itertools;
use vstd::prelude::*;
use vstd::string::StrSliceExecFns;

verus! {

/// A parsed line of player input.
pub enum TextCommand {
    /// The line held no word.
    Blank,
    /// The first word of the line, and the rest of the line if there is any.
    Given { command: String, arg: Option<String> },
}

impl View for TextCommand {
    /// `None` for a blank line, otherwise the command word and its argument.
    type V = Option<(Seq<char>, Option<Seq<char>>)>;

    open spec fn view(&self) -> Self::V {
        match self {
            TextCommand::Blank => None,
            TextCommand::Given { command, arg } => Some(
                (
                    command@,
                    match arg {
                        Some(a) => Some(a@),
                        None => None,
                    },
                ),
            ),
        }
    }
}

/// The characters that separate words: the code points with the Unicode
/// `White_Space` property.
pub open spec fn is_white_space(c: char) -> bool {
    let u = c as u32;
    ||| 0x09 <= u <= 0x0D
    ||| u == 0x20
    ||| u == 0x85
    ||| u == 0xA0
    ||| u == 0x1680
    ||| 0x2000 <= u <= 0x200A
    ||| u == 0x2028
    ||| u == 0x2029
    ||| u == 0x202F
    ||| u == 0x205F
    ||| u == 0x3000
}

/// The word under construction, as a list of zero or one finished words.
pub open spec fn flush_word(cur: Seq<char>) -> Seq<Seq<char>> {
    if cur.len() > 0 {
        seq![cur]
    } else {
        Seq::empty()
    }
}

/// The words of `s` from position `i` on, given the characters `cur` of the
/// word that position `i` continues.
pub open spec fn words_from(s: Seq<char>, i: int, cur: Seq<char>) -> Seq<Seq<char>>
    decreases s.len() - i,
{
    if i < 0 || i >= s.len() {
        flush_word(cur)
    } else if is_white_space(s[i]) {
        flush_word(cur) + words_from(s, i + 1, Seq::empty())
    } else {
        words_from(s, i + 1, cur.push(s[i]))
    }
}

/// The maximal runs of non-whitespace characters of `s`, in order.
pub open spec fn words(s: Seq<char>) -> Seq<Seq<char>> {
    words_from(s, 0, Seq::empty())
}

/// The words `ws` written one after another with `sep` between neighbours.
pub open spec fn join_words(ws: Seq<Seq<char>>, sep: Seq<char>) -> Seq<char>
    decreases ws.len(),
{
    if ws.len() == 0 {
        Seq::empty()
    } else if ws.len() == 1 {
        ws[0]
    } else {
        join_words(ws.drop_last(), sep) + sep + ws.last()
    }
}

/// The character contents of a list of strings.
pub open spec fn views(v: Seq<String>) -> Seq<Seq<char>> {
    v.map_values(|s: String| s@)
}

/// What [`parse_input`] makes of a line: nothing for a blank line, otherwise
/// the first word as the command and the remaining words, joined by single
/// spaces, as the argument.
pub open spec fn parse_input_spec(text: Seq<char>) -> Option<(Seq<char>, Option<Seq<char>>)> {
    let w = words(text);
    if w.len() == 0 {
        None
    } else if w.len() == 1 {
        Some((w[0], None))
    } else {
        Some((w[0], Some(join_words(w.skip(1), seq![' ']))))
    }
}

/// Tells whether `c` separates words.
pub fn is_separator(c: char) -> (r: bool)
    ensures
        r == is_white_space(c),
{
    let u: u32 = c as u32;
    (0x09 <= u && u <= 0x0D) || u == 0x20 || u == 0x85 || u == 0xA0 || u == 0x1680 || (0x2000 <= u
        && u <= 0x200A) || u == 0x2028 || u == 0x2029 || u == 0x202F || u == 0x205F || u == 0x3000
}

/// The characters of `s` as a vector.
pub fn chars_of(s: &str) -> (r: Vec<char>)
    ensures
        r@ == s@,
{
    let mut out: Vec<char> = Vec::new();
    for c in it: s.chars()
        invariant
            it.seq() == s@,
            out@ =~= s@.take(it.index() as int),
    {
        out.push(c);
    }
    assert(s@.take(s@.len() as int) =~= s@);
    out
}

/// Splits `text` into its words.
pub fn split_words(text: &str) -> (r: Vec<String>)
    ensures
        views(r@) == words(text@),
{
    let chars = chars_of(text);
    let n = chars.len();
    let mut out: Vec<String> = Vec::new();
    let mut start: usize = 0;
    let mut i: usize = 0;
    assert(views(out@) =~= Seq::<Seq<char>>::empty());
    assert(text@.subrange(0, 0) =~= Seq::<char>::empty());
    while i < n
        invariant
            chars@ == text@,
            n == chars.len(),
            start <= i <= n,
            words(text@) == views(out@) + words_from(
                text@,
                i as int,
                text@.subrange(start as int, i as int),
            ),
        decreases n - i,
    {
        let ghost cur = text@.subrange(start as int, i as int);
        if is_separator(chars[i]) {
            if start < i {
                let word = text.substring_char(start, i).to_owned();
                proof {
                    assert(views(out@.push(word)) =~= views(out@) + seq![cur]);
                    assert(flush_word(cur) == seq![cur]);
                }
                out.push(word);
            } else {
                assert(flush_word(cur) =~= Seq::<Seq<char>>::empty());
            }
            start = i + 1;
            assert(text@.subrange(start as int, i + 1) =~= Seq::<char>::empty());
        } else {
            assert(text@.subrange(start as int, i + 1) =~= cur.push(text@[i as int]));
        }
        i = i + 1;
    }
    let ghost cur = text@.subrange(start as int, i as int);
    if start < i {
        let word = text.substring_char(start, i).to_owned();
        proof {
            assert(views(out@.push(word)) =~= views(out@) + seq![cur]);
        }
        out.push(word);
    } else {
        assert(views(out@) + flush_word(cur) =~= views(out@));
    }
    out
}

/// Joins `tokens` with `sep` between neighbours, by `Itertools::format`: the
/// first token, then for every further token the separator and the token.
#[verifier::external_body]
fn join_tokens(tokens: &Vec<String>, sep: &str) -> (res: String)
    ensures
        res@ == join_words(views(tokens@), sep@),
{
    tokens.iter().format(sep).to_string()
}

/// Parses a line of player input into a command word and its argument.
pub fn parse_input(text_command: &String) -> (r: TextCommand)
    ensures
        r@ == parse_input_spec(text_command@),
{
    let mut tokens = split_words(text_command.as_str());
    if tokens.len() == 0 {
        return TextCommand::Blank;
    }
    let ghost all = tokens@;
    let first_token = tokens.remove(0);
    assert(views(tokens@) =~= views(all).skip(1));
    if tokens.len() == 0 {
        return TextCommand::Given { command: first_token, arg: None };
    }
    let args = join_tokens(&tokens, " ");
    proof {
        reveal_strlit(" ");
        assert(" "@ =~= seq![' ']);
    }
    TextCommand::Given { command: first_token, arg: Some(args) }
}

} // verus!
