//! The words of the language: white space and comments, names and
//! keywords, numbers and strings, each as a function of the text and the
//! position at which it starts.

use vstd::prelude::*;

verus! {

/// How much of `s` is left at `pos`.
pub open spec fn left(s: Seq<char>, pos: int) -> nat {
    if 0 <= pos <= s.len() {
        (s.len() - pos) as nat
    } else {
        0
    }
}

/// Blank, tab, carriage return and line feed separate words.
pub open spec fn is_space(c: char) -> bool {
    c == ' ' || c == '\t' || c == '\r' || c == '\n'
}

/// The digits `0` to `9`.
pub open spec fn is_digit(c: char) -> bool {
    '0' <= c <= '9'
}

/// The letters `a` to `z` and `A` to `Z`.
pub open spec fn is_letter(c: char) -> bool {
    'a' <= c <= 'z' || 'A' <= c <= 'Z'
}

/// The digits and the letters `a` to `f` and `A` to `F`.
pub open spec fn is_hex_digit(c: char) -> bool {
    is_digit(c) || 'a' <= c <= 'f' || 'A' <= c <= 'F'
}

/// A word starts with a letter or an underscore.
pub open spec fn starts_word(c: char) -> bool {
    is_letter(c) || c == '_'
}

/// A word goes on with letters, digits and underscores.
pub open spec fn continues_word(c: char) -> bool {
    is_letter(c) || is_digit(c) || c == '_'
}

/// The value of a hexadecimal digit.
pub open spec fn hex_value(c: char) -> nat {
    if is_digit(c) {
        (c as nat - '0' as nat) as nat
    } else if 'a' <= c <= 'f' {
        (c as nat - 'a' as nat + 10) as nat
    } else {
        (c as nat - 'A' as nat + 10) as nat
    }
}

/// The position of the first line feed at or behind `pos`, or the end of
/// the text: where a comment that reaches `pos` ends.
pub open spec fn line_end(s: Seq<char>, pos: int) -> int
    decreases left(s, pos),
{
    if 0 <= pos < s.len() && s[pos] != '\n' {
        line_end(s, pos + 1)
    } else {
        pos
    }
}

/// The position behind the white space and the comments that start at
/// `pos`. A comment runs from `//` to the end of its line.
pub open spec fn ws(s: Seq<char>, pos: int) -> int
    decreases left(s, pos), 1nat,
{
    if 0 <= pos < s.len() {
        if is_space(s[pos]) {
            ws(s, pos + 1)
        } else if s[pos] == '/' && pos + 1 < s.len() && s[pos + 1] == '/' {
            let end = line_end(s, pos + 2);
            if pos < end <= s.len() {
                ws(s, end)
            } else {
                pos
            }
        } else {
            pos
        }
    } else {
        pos
    }
}

/// White space and comments are skipped forwards, never beyond the end of
/// the text.
pub broadcast proof fn lemma_ws_advances(s: Seq<char>, pos: int)
    ensures
        pos <= #[trigger] ws(s, pos),
        0 <= pos <= s.len() ==> ws(s, pos) <= s.len(),
    decreases left(s, pos),
{
    if 0 <= pos < s.len() {
        if is_space(s[pos]) {
            lemma_ws_advances(s, pos + 1);
        } else if s[pos] == '/' && pos + 1 < s.len() && s[pos + 1] == '/' {
            let end = line_end(s, pos + 2);
            if pos < end <= s.len() {
                lemma_ws_advances(s, end);
            }
        }
    }
}

/// The position behind the letters, digits and underscores that start at
/// `pos`.
pub open spec fn word_rest(s: Seq<char>, pos: int) -> int
    decreases left(s, pos),
{
    if 0 <= pos < s.len() && continues_word(s[pos]) {
        word_rest(s, pos + 1)
    } else {
        pos
    }
}

/// The position behind the word that starts at `pos`, if one does: a
/// letter or underscore and all letters, digits and underscores behind it.
pub open spec fn word(s: Seq<char>, pos: int) -> Option<int> {
    if 0 <= pos < s.len() && starts_word(s[pos]) {
        Some(word_rest(s, pos + 1))
    } else {
        None
    }
}

/// The words that the language keeps for itself.
pub open spec fn is_keyword(w: Seq<char>) -> bool {
    w == "class"@ || w == "def"@ || w == "true"@ || w == "false"@ || w == "if"@ || w == "else"@
        || w == "let"@ || w == "in"@
}

/// The position behind the keyword `w`, if the word at `pos` is `w`.
pub open spec fn keyword(s: Seq<char>, pos: int, w: Seq<char>) -> Option<int> {
    match word(s, pos) {
        Some(end) => if pos <= end <= s.len() && s.subrange(pos, end) == w {
            Some(end)
        } else {
            None
        },
        None => None,
    }
}

/// The identifier at `pos`, if the word there is no keyword, and the
/// position behind it.
pub open spec fn identifier(s: Seq<char>, pos: int) -> Option<(Seq<char>, int)> {
    match word(s, pos) {
        Some(end) => if pos <= end <= s.len() && !is_keyword(s.subrange(pos, end)) {
            Some((s.subrange(pos, end), end))
        } else {
            None
        },
        None => None,
    }
}

/// The position behind the character `c`, if it stands at `pos`.
pub open spec fn symbol(s: Seq<char>, pos: int, c: char) -> Option<int> {
    if 0 <= pos < s.len() && s[pos] == c {
        Some(pos + 1)
    } else {
        None
    }
}

/// The position behind the digits and underscores that start at `pos`.
pub open spec fn number_rest(s: Seq<char>, pos: int) -> int
    decreases left(s, pos),
{
    if 0 <= pos < s.len() && (is_digit(s[pos]) || s[pos] == '_') {
        number_rest(s, pos + 1)
    } else {
        pos
    }
}

/// The number that the decimal digits among `s[from..to]` write; what is no
/// digit is passed over.
pub open spec fn digits_value(s: Seq<char>, from: int, to: int) -> nat
    decreases to - from,
{
    if to <= from || to > s.len() || from < 0 {
        0
    } else if is_digit(s[to - 1]) {
        digits_value(s, from, to - 1) * 10 + hex_value(s[to - 1])
    } else {
        digits_value(s, from, to - 1)
    }
}

/// A whole number at `pos`: an optional sign, a digit, and any digits and
/// underscores behind it. The underscores only group the digits. A number
/// that a 32-bit integer cannot hold is no number.
pub open spec fn i32_literal(s: Seq<char>, pos: int) -> Option<(i32, int)> {
    let negative = symbol(s, pos, '-') is Some;
    let start = if negative || symbol(s, pos, '+') is Some {
        pos + 1
    } else {
        pos
    };
    if 0 <= start < s.len() && is_digit(s[start]) {
        let end = number_rest(s, start + 1);
        let value = digits_value(s, start, end);
        if negative && value <= 0x8000_0000 {
            Some(((0 - value) as i32, end))
        } else if !negative && value <= 0x7fff_ffff {
            Some((value as i32, end))
        } else {
            None
        }
    } else {
        None
    }
}

/// The number that the hexadecimal digits `s[from..to]` write.
pub open spec fn hex_number(s: Seq<char>, from: int, to: int) -> nat
    decreases to - from,
{
    if to <= from || to > s.len() || from < 0 {
        0
    } else {
        hex_number(s, from, to - 1) * 16 + hex_value(s[to - 1])
    }
}

/// Every character of `s[from..to]` is a hexadecimal digit.
pub open spec fn all_hex(s: Seq<char>, from: int, to: int) -> bool {
    0 <= from <= to <= s.len() && forall|i: int| from <= i < to ==> is_hex_digit(#[trigger] s[i])
}

/// The position behind the hexadecimal digits that start at `pos`, of which
/// at most `most` are taken.
pub open spec fn hex_run(s: Seq<char>, pos: int, most: nat) -> int
    decreases most,
{
    if most > 0 && 0 <= pos < s.len() && is_hex_digit(s[pos]) {
        hex_run(s, pos + 1, (most - 1) as nat)
    } else {
        pos
    }
}

/// The character with the number `v`, if there is one: the surrogates and
/// what lies beyond `10FFFF` are no characters.
pub open spec fn scalar(v: nat) -> Option<char> {
    if v <= 0xD7FF || 0xE000 <= v <= 0x10FFFF {
        Some(v as char)
    } else {
        None
    }
}

/// The character that a one-letter escape stands for.
pub open spec fn simple_escape(c: char) -> Option<char> {
    if c == '"' {
        Some('"')
    } else if c == '\'' {
        Some('\'')
    } else if c == '\\' {
        Some('\\')
    } else if c == 'n' {
        Some('\n')
    } else if c == 't' {
        Some('\t')
    } else if c == 'r' {
        Some('\r')
    } else if c == 'b' {
        Some('\u{8}')
    } else if c == 'f' {
        Some('\u{c}')
    } else if c == 'v' {
        Some('\u{11}')
    } else {
        None
    }
}

/// What stands behind a backslash in a string, at `pos`, and the position
/// behind it: a one-letter escape; `0`, not followed by a digit, for the
/// character zero; `x` and two hexadecimal digits; `u` and four hexadecimal
/// digits; or `u` and one to six hexadecimal digits in braces. The number
/// written by the digits must be that of a character.
pub open spec fn escape(s: Seq<char>, pos: int) -> Option<(char, int)> {
    if 0 <= pos < s.len() {
        let c = s[pos];
        if simple_escape(c) is Some {
            Some((simple_escape(c)->Some_0, pos + 1))
        } else if c == '0' {
            if pos + 1 < s.len() && is_digit(s[pos + 1]) {
                None
            } else {
                Some(('\0', pos + 1))
            }
        } else if c == 'x' {
            if all_hex(s, pos + 1, pos + 3) {
                match scalar(hex_number(s, pos + 1, pos + 3)) {
                    Some(ch) => Some((ch, pos + 3)),
                    None => None,
                }
            } else {
                None
            }
        } else if c == 'u' {
            if all_hex(s, pos + 1, pos + 5) {
                match scalar(hex_number(s, pos + 1, pos + 5)) {
                    Some(ch) => Some((ch, pos + 5)),
                    None => None,
                }
            } else if symbol(s, pos + 1, '{') is Some {
                let end = hex_run(s, pos + 2, 6);
                if pos + 2 < end && symbol(s, end, '}') is Some {
                    match scalar(hex_number(s, pos + 2, end)) {
                        Some(ch) => Some((ch, end + 1)),
                        None => None,
                    }
                } else {
                    None
                }
            } else {
                None
            }
        } else {
            None
        }
    } else {
        None
    }
}

/// A character that stands for itself in a string: any but the quote, the
/// backslash and the line feed.
pub open spec fn is_plain(c: char) -> bool {
    c != '"' && c != '\\' && c != '\n'
}

/// The characters of a string from `pos` on, behind those of `so_far`, and
/// the position at which they end.
pub open spec fn string_chars(s: Seq<char>, pos: int, so_far: Seq<char>) -> (Seq<char>, int)
    decreases left(s, pos),
{
    if 0 <= pos < s.len() {
        if is_plain(s[pos]) {
            string_chars(s, pos + 1, so_far.push(s[pos]))
        } else if s[pos] == '\\' {
            match escape(s, pos + 1) {
                Some((c, end)) => if pos < end <= s.len() {
                    string_chars(s, end, so_far.push(c))
                } else {
                    (so_far, pos)
                },
                None => (so_far, pos),
            }
        } else {
            (so_far, pos)
        }
    } else {
        (so_far, pos)
    }
}

/// A string at `pos`: its characters between two quotes.
pub open spec fn string_literal(s: Seq<char>, pos: int) -> Option<(Seq<char>, int)> {
    match symbol(s, pos, '"') {
        Some(start) => {
            let (text, end) = string_chars(s, start, Seq::empty());
            match symbol(s, end, '"') {
                Some(behind) => Some((text, behind)),
                None => None,
            }
        },
        None => None,
    }
}

} // verus!
