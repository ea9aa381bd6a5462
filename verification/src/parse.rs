//! The parser: reads a source text as the grammar says.

use crate::error::{Error, ErrorView};
use crate::expression::{of_views, NamedView, Of};
use crate::grammar::{
    block, class_definition, expression, if_then_else, let_in, method_call, method_definition,
    methods, more_classes, more_steps, operand, operands, parameters, parenthesized,
};
use crate::lexical::{
    all_hex, digits_value, escape, hex_number, hex_run, hex_value, i32_literal, identifier,
    is_digit, is_hex_digit, is_letter, is_space, keyword, left, line_end, number_rest, scalar,
    string_chars, string_literal, symbol, word, word_rest, ws,
};
use crate::program::{Class, ClassMethod, ClassMethodView, ClassView, Program};
use crate::value::Value;
use vstd::prelude::*;
use vstd::string::StrSliceExecFns;

verus! {

/// `String::push`: appends one character to the end of the string and
/// leaves the characters before it as they were.
#[verifier::external_body]
fn push_char(text: &mut String, c: char)
    ensures
        final(text)@ == old(text)@.push(c),
{
    text.push(c)
}

/// The characters of a text, in order.
fn characters(text: &str) -> (chars: Vec<char>)
    ensures
        chars@ == text@,
{
    let count = text.unicode_len();
    let mut chars: Vec<char> = Vec::new();
    let mut at: usize = 0;
    while at < count
        invariant
            count == text@.len(),
            at <= count,
            chars@ == text@.subrange(0, at as int),
        decreases count - at,
    {
        chars.push(text.get_char(at));
        at += 1;
        assert(chars@ =~= text@.subrange(0, at as int));
    }
    assert(text@.subrange(0, count as int) =~= text@);
    chars
}

/// The characters `input[from..to]` as a string.
fn text_of(input: &Vec<char>, from: usize, to: usize) -> (text: String)
    requires
        from <= to <= input.len(),
    ensures
        text@ == input@.subrange(from as int, to as int),
{
    let mut text = String::new();
    let mut at = from;
    while at < to
        invariant
            from <= at <= to <= input.len(),
            text@ == input@.subrange(from as int, at as int),
        decreases to - at,
    {
        push_char(&mut text, input[at]);
        at += 1;
        assert(text@ =~= input@.subrange(from as int, at as int));
    }
    text
}

/// Whether two texts hold the same characters.
fn same_text(a: &str, b: &str) -> (same: bool)
    ensures
        same == (a@ == b@),
{
    let count = a.unicode_len();
    if count != b.unicode_len() {
        return false;
    }
    let mut at: usize = 0;
    while at < count
        invariant
            count == a@.len(),
            count == b@.len(),
            at <= count,
            a@.subrange(0, at as int) == b@.subrange(0, at as int),
        decreases count - at,
    {
        if a.get_char(at) != b.get_char(at) {
            return false;
        }
        at += 1;
        assert(a@.subrange(0, at as int) =~= a@.subrange(0, at - 1).push(a@[at - 1]));
        assert(b@.subrange(0, at as int) =~= b@.subrange(0, at - 1).push(b@[at - 1]));
    }
    assert(a@.subrange(0, count as int) =~= a@);
    assert(b@.subrange(0, count as int) =~= b@);
    true
}

/// Whether `ident` is one of the words that the language keeps for itself:
/// `class`, `def`, `true`, `false`, `if`, `else`, `let` and `in`.
pub fn is_keyword(ident: &str) -> (kept: bool)
    ensures
        kept == crate::lexical::is_keyword(ident@),
{
    same_text(ident, "class") || same_text(ident, "def") || same_text(ident, "true") || same_text(
        ident,
        "false",
    ) || same_text(ident, "if") || same_text(ident, "else") || same_text(ident, "let")
        || same_text(ident, "in")
}

fn space(c: char) -> (b: bool)
    ensures
        b == is_space(c),
{
    c == ' ' || c == '\t' || c == '\r' || c == '\n'
}

fn digit(c: char) -> (b: bool)
    ensures
        b == is_digit(c),
{
    '0' <= c && c <= '9'
}

fn letter(c: char) -> (b: bool)
    ensures
        b == is_letter(c),
{
    ('a' <= c && c <= 'z') || ('A' <= c && c <= 'Z')
}

fn hex_digit(c: char) -> (b: bool)
    ensures
        b == is_hex_digit(c),
{
    digit(c) || ('a' <= c && c <= 'f') || ('A' <= c && c <= 'F')
}

/// Skips the rest of a line.
fn skip_line(input: &Vec<char>, pos: usize) -> (end: usize)
    requires
        pos <= input.len(),
    ensures
        end == line_end(input@, pos as int),
        pos <= end <= input.len(),
    decreases input.len() - pos,
{
    if pos < input.len() && input[pos] != '\n' {
        skip_line(input, pos + 1)
    } else {
        pos
    }
}

/// Skips white space and comments.
fn skip_ws(input: &Vec<char>, pos: usize) -> (end: usize)
    requires
        pos <= input.len(),
    ensures
        end == ws(input@, pos as int),
        pos <= end <= input.len(),
{
    let ghost start = pos;
    let mut at = pos;
    loop
        invariant
            start <= at <= input.len(),
            ws(input@, start as int) == ws(input@, at as int),
        ensures
            at == ws(input@, start as int),
        decreases input.len() - at,
    {
        if at < input.len() && space(input[at]) {
            at += 1;
        } else if at < input.len() && input[at] == '/' && at + 1 < input.len() && input[at + 1]
            == '/' {
            at = skip_line(input, at + 2);
        } else {
            break;
        }
    }
    at
}

/// Finds the end of the word that starts at `pos`.
fn word_end(input: &Vec<char>, pos: usize) -> (end: Option<usize>)
    requires
        pos <= input.len(),
    ensures
        end matches Some(e) ==> pos < e <= input.len() && word(input@, pos as int) == Some(
            e as int,
        ),
        end is None ==> word(input@, pos as int) is None,
{
    if pos < input.len() && (letter(input[pos]) || input[pos] == '_') {
        let mut at = pos + 1;
        while at < input.len() && (letter(input[at]) || digit(input[at]) || input[at] == '_')
            invariant
                pos < at <= input.len(),
                word_rest(input@, pos + 1) == word_rest(input@, at as int),
            decreases input.len() - at,
        {
            at += 1;
        }
        Some(at)
    } else {
        None
    }
}

/// Whether the characters `input[from..to]` spell `w`.
fn spells(input: &Vec<char>, from: usize, to: usize, w: &str) -> (same: bool)
    requires
        from <= to <= input.len(),
    ensures
        same == (input@.subrange(from as int, to as int) == w@),
{
    let count = w.unicode_len();
    if to - from != count {
        return false;
    }
    let ghost range = input@.subrange(from as int, to as int);
    let mut at: usize = 0;
    while at < count
        invariant
            count == w@.len(),
            from + count == to,
            to <= input.len(),
            at <= count,
            range == input@.subrange(from as int, to as int),
            range.subrange(0, at as int) == w@.subrange(0, at as int),
        decreases count - at,
    {
        if input[from + at] != w.get_char(at) {
            assert(range[at as int] != w@[at as int]);
            return false;
        }
        at += 1;
        assert(range.subrange(0, at as int) =~= range.subrange(0, at - 1).push(range[at - 1]));
        assert(w@.subrange(0, at as int) =~= w@.subrange(0, at - 1).push(w@[at - 1]));
    }
    assert(range.subrange(0, count as int) =~= range);
    assert(w@.subrange(0, count as int) =~= w@);
    true
}

/// Reads the keyword `w`.
fn read_keyword(input: &Vec<char>, pos: usize, w: &str) -> (end: Option<usize>)
    requires
        pos <= input.len(),
    ensures
        end matches Some(e) ==> pos < e <= input.len() && keyword(input@, pos as int, w@) == Some(
            e as int,
        ),
        end is None ==> keyword(input@, pos as int, w@) is None,
{
    match word_end(input, pos) {
        Some(end) => if spells(input, pos, end, w) {
            Some(end)
        } else {
            None
        },
        None => None,
    }
}

/// Reads an identifier.
fn read_identifier(input: &Vec<char>, pos: usize) -> (found: Option<(String, usize)>)
    requires
        pos <= input.len(),
    ensures
        found matches Some((name, e)) ==> pos < e <= input.len() && identifier(
            input@,
            pos as int,
        ) == Some((name@, e as int)),
        found is None ==> identifier(input@, pos as int) is None,
{
    match word_end(input, pos) {
        Some(end) => {
            let name = text_of(input, pos, end);
            if is_keyword(name.as_str()) {
                None
            } else {
                Some((name, end))
            }
        },
        None => None,
    }
}

/// Reads the character `c`.
fn read_symbol(input: &Vec<char>, pos: usize, c: char) -> (end: Option<usize>)
    requires
        pos <= input.len(),
    ensures
        end matches Some(e) ==> e == pos + 1 && e <= input.len() && symbol(input@, pos as int, c)
            == Some(e as int),
        end is None ==> symbol(input@, pos as int, c) is None,
{
    if pos < input.len() && input[pos] == c {
        Some(pos + 1)
    } else {
        None
    }
}

/// `char::from_u32`: the character with the given number, or `None` where
/// the number is that of no character, which is so for the surrogates and
/// beyond `10FFFF`.
#[verifier::external_body]
fn scalar_of(v: u32) -> (c: Option<char>)
    ensures
        c == scalar(v as nat),
{
    char::from_u32(v)
}

/// The value of a hexadecimal digit.
fn hex_digit_value(c: char) -> (v: u32)
    requires
        is_hex_digit(c),
    ensures
        v == hex_value(c),
        v < 16,
{
    if digit(c) {
        c as u32 - '0' as u32
    } else if 'a' <= c && c <= 'f' {
        c as u32 - 'a' as u32 + 10
    } else {
        c as u32 - 'A' as u32 + 10
    }
}

/// Reads a whole number.
fn read_i32(input: &Vec<char>, pos: usize) -> (found: Option<(i32, usize)>)
    requires
        pos <= input.len(),
    ensures
        found matches Some((n, e)) ==> pos < e <= input.len() && i32_literal(input@, pos as int)
            == Some((n, e as int)),
        found is None ==> i32_literal(input@, pos as int) is None,
{
    let negative = pos < input.len() && input[pos] == '-';
    let signed = negative || (pos < input.len() && input[pos] == '+');
    let start = if signed {
        pos + 1
    } else {
        pos
    };
    if !(start < input.len() && digit(input[start])) {
        return None;
    }
    let limit: u64 = 10_000_000_000;
    let mut value: u64 = 0;
    let mut at = start;
    while at < input.len() && (digit(input[at]) || input[at] == '_')
        invariant
            start <= at <= input.len(),
            limit == 10_000_000_000,
            at == start || number_rest(input@, start + 1) == number_rest(input@, at as int),
            value <= limit,
            value as nat == if digits_value(input@, start as int, at as int) < limit {
                digits_value(input@, start as int, at as int)
            } else {
                limit as nat
            },
        decreases input.len() - at,
    {
        let ghost before = digits_value(input@, start as int, at as int);
        if digit(input[at]) {
            let d = hex_digit_value(input[at]) as u64;
            assert(digits_value(input@, start as int, at + 1) == before * 10 + d);
            value = value * 10 + d;
            if value > limit {
                value = limit;
            }
        } else {
            assert(digits_value(input@, start as int, at + 1) == before);
        }
        at += 1;
    }
    assert(at > start);
    assert(at as int == number_rest(input@, start + 1));
    if negative && value <= 0x8000_0000 {
        Some(((0 - value as i64) as i32, at))
    } else if !negative && value <= 0x7fff_ffff {
        Some((value as i32, at))
    } else {
        None
    }
}

/// Counts the hexadecimal digits that start at `pos`, up to `most`.
fn hex_digits(input: &Vec<char>, pos: usize, most: usize) -> (end: usize)
    requires
        pos <= input.len(),
    ensures
        end == hex_run(input@, pos as int, most as nat),
        pos <= end <= input.len(),
        end - pos <= most,
        all_hex(input@, pos as int, end as int),
    decreases most,
{
    if most > 0 && pos < input.len() && hex_digit(input[pos]) {
        let end = hex_digits(input, pos + 1, most - 1);
        assert forall|i: int| pos <= i < end implies is_hex_digit(#[trigger] input@[i]) by {
            if i > pos {
                assert(is_hex_digit(input@[i]));
            }
        }
        end
    } else {
        pos
    }
}

/// Reads the number that the hexadecimal digits `input[from..to]` write.
fn read_hex(input: &Vec<char>, from: usize, to: usize) -> (v: u32)
    requires
        all_hex(input@, from as int, to as int),
        to - from <= 6,
    ensures
        v == hex_number(input@, from as int, to as int),
{
    let mut v: u32 = 0;
    let mut at = from;
    while at < to
        invariant
            from <= at <= to <= input.len(),
            to - from <= 6,
            all_hex(input@, from as int, to as int),
            v == hex_number(input@, from as int, at as int),
            v < pow16((at - from) as nat),
        decreases to - at,
    {
        assert(is_hex_digit(input@[at as int]));
        let d = hex_digit_value(input[at]);
        proof {
            lemma_pow16((at - from) as nat);
        }
        v = v * 16 + d;
        at += 1;
    }
    v
}

/// The `n`-th power of 16.
spec fn pow16(n: nat) -> nat
    decreases n,
{
    if n == 0 {
        1
    } else {
        16 * pow16((n - 1) as nat)
    }
}

/// Up to six hexadecimal digits write a number below `1000000` in
/// hexadecimal.
proof fn lemma_pow16(n: nat)
    requires
        n <= 6,
    ensures
        pow16(n) <= 0x100_0000,
        pow16(n + 1) == 16 * pow16(n),
    decreases n,
{
    reveal_with_fuel(pow16, 8);
}

/// Whether `count` hexadecimal digits stand at `from`.
fn is_all_hex(input: &Vec<char>, from: usize, count: usize) -> (b: bool)
    requires
        from <= input.len(),
        count <= 6,
    ensures
        b == all_hex(input@, from as int, from + count),
{
    if input.len() - from < count {
        return false;
    }
    let to = from + count;
    let mut at = from;
    while at < to
        invariant
            from <= at <= to <= input.len(),
            to == from + count,
            all_hex(input@, from as int, at as int),
        decreases to - at,
    {
        if !hex_digit(input[at]) {
            assert(!is_hex_digit(input@[at as int]));
            return false;
        }
        at += 1;
    }
    true
}

/// Reads what stands behind a backslash in a string.
fn read_escape(input: &Vec<char>, pos: usize) -> (found: Option<(char, usize)>)
    requires
        pos <= input.len(),
    ensures
        found matches Some((c, e)) ==> pos < e <= input.len() && escape(input@, pos as int)
            == Some((c, e as int)),
        found is None ==> escape(input@, pos as int) is None,
{
    if pos >= input.len() {
        return None;
    }
    let c = input[pos];
    if c == '"' {
        Some(('"', pos + 1))
    } else if c == '\'' {
        Some(('\'', pos + 1))
    } else if c == '\\' {
        Some(('\\', pos + 1))
    } else if c == 'n' {
        Some(('\n', pos + 1))
    } else if c == 't' {
        Some(('\t', pos + 1))
    } else if c == 'r' {
        Some(('\r', pos + 1))
    } else if c == 'b' {
        Some(('\u{8}', pos + 1))
    } else if c == 'f' {
        Some(('\u{c}', pos + 1))
    } else if c == 'v' {
        Some(('\u{11}', pos + 1))
    } else if c == '0' {
        if pos + 1 < input.len() && digit(input[pos + 1]) {
            None
        } else {
            Some(('\0', pos + 1))
        }
    } else if c == 'x' {
        if is_all_hex(input, pos + 1, 2) {
            match scalar_of(read_hex(input, pos + 1, pos + 3)) {
                Some(ch) => Some((ch, pos + 3)),
                None => None,
            }
        } else {
            None
        }
    } else if c == 'u' {
        if is_all_hex(input, pos + 1, 4) {
            match scalar_of(read_hex(input, pos + 1, pos + 5)) {
                Some(ch) => Some((ch, pos + 5)),
                None => None,
            }
        } else if pos + 1 < input.len() && input[pos + 1] == '{' {
            let end = hex_digits(input, pos + 2, 6);
            if pos + 2 < end && end < input.len() && input[end] == '}' {
                match scalar_of(read_hex(input, pos + 2, end)) {
                    Some(ch) => Some((ch, end + 1)),
                    None => None,
                }
            } else {
                None
            }
        } else {
            None
        }
    } else {
        None
    }
}

/// Reads a string.
fn read_string(input: &Vec<char>, pos: usize) -> (found: Option<(String, usize)>)
    requires
        pos <= input.len(),
    ensures
        found matches Some((text, e)) ==> pos < e <= input.len() && string_literal(
            input@,
            pos as int,
        ) == Some((text@, e as int)),
        found is None ==> string_literal(input@, pos as int) is None,
{
    if !(pos < input.len() && input[pos] == '"') {
        return None;
    }
    let ghost whole = string_chars(input@, pos + 1, Seq::empty());
    let mut text = String::new();
    let mut at = pos + 1;
    loop
        invariant
            pos < at <= input.len(),
            whole == string_chars(input@, pos + 1, Seq::empty()),
            whole == string_chars(input@, at as int, text@),
        ensures
            pos < at <= input.len(),
            whole == (text@, at as int),
        decreases input.len() - at,
    {
        if at >= input.len() {
            break;
        }
        let c = input[at];
        if c != '"' && c != '\\' && c != '\n' {
            push_char(&mut text, c);
            at += 1;
        } else if c == '\\' {
            match read_escape(input, at + 1) {
                Some((ch, end)) => {
                    push_char(&mut text, ch);
                    at = end;
                },
                None => {
                    break;
                },
            }
        } else {
            break;
        }
    }
    if at < input.len() && input[at] == '"' {
        Some((text, at + 1))
    } else {
        None
    }
}

/// What was read is what the grammar means, and it ends behind where it
/// starts, within the text.
spec fn reads(
    found: Option<(Of<String, String>, usize)>,
    meant: Option<(NamedView, int)>,
    pos: usize,
    len: usize,
) -> bool {
    match found {
        Some((e, end)) => pos < end <= len && meant == Some((e@, end as int)),
        None => meant is None,
    }
}

/// Reads an expression.
fn read_expression(input: &Vec<char>, pos: usize) -> (found: Option<(Of<String, String>, usize)>)
    requires
        pos <= input.len(),
    ensures
        reads(found, expression(input@, pos as int), pos, input.len()),
    decreases left(input@, pos as int), 5nat,
{
    if pos >= input.len() {
        return None;
    }
    match read_method_call(input, pos) {
        Some(found) => Some(found),
        None => read_operand(input, pos),
    }
}

/// Reads a method call.
fn read_method_call(input: &Vec<char>, pos: usize) -> (found: Option<(Of<String, String>, usize)>)
    requires
        pos <= input.len(),
    ensures
        reads(found, method_call(input@, pos as int), pos, input.len()),
    decreases left(input@, pos as int), 4nat,
{
    if pos >= input.len() {
        return None;
    }
    let (name, behind_name) = match read_identifier(input, pos) {
        Some(found) => found,
        None => {
            return None;
        },
    };
    let (this, behind_this) = match read_operand(input, skip_ws(input, behind_name)) {
        Some(found) => found,
        None => {
            return None;
        },
    };
    let ghost whole = operands(input@, behind_this as int, Seq::empty());
    let mut arguments: Vec<Of<String, String>> = Vec::new();
    let mut at = behind_this;
    assert(of_views(arguments@) =~= Seq::<NamedView>::empty());
    loop
        invariant
            pos < at <= input.len(),
            whole == operands(input@, at as int, of_views(arguments@)),
        ensures
            pos < at <= input.len(),
            whole == (of_views(arguments@), at as int),
        decreases input.len() - at,
    {
        if at >= input.len() {
            break;
        }
        match read_operand(input, skip_ws(input, at)) {
            Some((next, end)) => {
                let ghost before = of_views(arguments@);
                let ghost meant = next@;
                arguments.push(next);
                assert(of_views(arguments@) =~= before.push(meant));
                at = end;
            },
            None => {
                break;
            },
        }
    }
    Some((Of::MethodCall { name, this: Box::new(this), arguments }, at))
}

/// Reads an expression that is no method call.
fn read_operand(input: &Vec<char>, pos: usize) -> (found: Option<(Of<String, String>, usize)>)
    requires
        pos <= input.len(),
    ensures
        reads(found, operand(input@, pos as int), pos, input.len()),
    decreases left(input@, pos as int), 2nat,
{
    if pos >= input.len() {
        return None;
    }
    if let Some(inside) = read_symbol(input, pos, '(') {
        if let Some(end) = read_symbol(input, skip_ws(input, inside), ')') {
            return Some((Of::Literal(Value::Unit), end));
        }
    }
    if let Some(found) = read_parenthesized(input, pos) {
        return Some(found);
    }
    if let Some(end) = read_keyword(input, pos, "true") {
        return Some((Of::Literal(Value::Bool(true)), end));
    }
    if let Some(end) = read_keyword(input, pos, "false") {
        return Some((Of::Literal(Value::Bool(false)), end));
    }
    if let Some(found) = read_block(input, pos) {
        return Some(found);
    }
    if let Some((text, end)) = read_string(input, pos) {
        return Some((Of::Literal(Value::String(text)), end));
    }
    if let Some((number, end)) = read_i32(input, pos) {
        return Some((Of::Literal(Value::I32(number)), end));
    }
    if let Some(found) = read_let_in(input, pos) {
        return Some(found);
    }
    if let Some(found) = read_if_then_else(input, pos) {
        return Some(found);
    }
    match read_identifier(input, pos) {
        Some((name, end)) => Some((Of::LocalVariable { name_or_de_bruijn_index: name }, end)),
        None => None,
    }
}

/// Reads an expression in parentheses.
fn read_parenthesized(input: &Vec<char>, pos: usize) -> (found: Option<
    (Of<String, String>, usize),
>)
    requires
        pos <= input.len(),
    ensures
        reads(found, parenthesized(input@, pos as int), pos, input.len()),
    decreases left(input@, pos as int), 1nat,
{
    if !(pos < input.len() && input[pos] == '(') {
        return None;
    }
    let (inner, end) = match read_expression(input, skip_ws(input, pos + 1)) {
        Some(found) => found,
        None => {
            return None;
        },
    };
    match read_symbol(input, skip_ws(input, end), ')') {
        Some(behind) => Some((inner, behind)),
        None => None,
    }
}

/// Reads a block.
fn read_block(input: &Vec<char>, pos: usize) -> (found: Option<(Of<String, String>, usize)>)
    requires
        pos <= input.len(),
    ensures
        reads(found, block(input@, pos as int), pos, input.len()),
    decreases left(input@, pos as int), 1nat,
{
    if !(pos < input.len() && input[pos] == '{') {
        return None;
    }
    let mut steps: Vec<Of<String, String>> = Vec::new();
    let mut at = pos + 1;
    assert(of_views(steps@) =~= Seq::<NamedView>::empty());
    match read_expression(input, skip_ws(input, pos + 1)) {
        Some((first, behind)) => {
            let ghost meant = first@;
            steps.push(first);
            assert(of_views(steps@) =~= seq![meant]);
            at = behind;
            let ghost whole = more_steps(input@, behind as int, seq![meant]);
            loop
                invariant
                    pos < at <= input.len(),
                    whole == more_steps(input@, at as int, of_views(steps@)),
                ensures
                    pos < at <= input.len(),
                    whole == (of_views(steps@), at as int),
                decreases input.len() - at,
            {
                if !(at < input.len() && input[at] == ';') {
                    break;
                }
                match read_expression(input, skip_ws(input, at + 1)) {
                    Some((next, end)) => {
                        let ghost before = of_views(steps@);
                        let ghost meant = next@;
                        steps.push(next);
                        assert(of_views(steps@) =~= before.push(meant));
                        at = end;
                    },
                    None => {
                        break;
                    },
                }
            }
        },
        None => {},
    }
    match read_symbol(input, skip_ws(input, at), '}') {
        Some(behind) => Some((Of::Do(steps), behind)),
        None => None,
    }
}

/// Reads a binding.
fn read_let_in(input: &Vec<char>, pos: usize) -> (found: Option<(Of<String, String>, usize)>)
    requires
        pos <= input.len(),
    ensures
        reads(found, let_in(input@, pos as int), pos, input.len()),
    decreases left(input@, pos as int), 1nat,
{
    if pos >= input.len() {
        return None;
    }
    let behind_let = match read_keyword(input, pos, "let") {
        Some(end) => end,
        None => {
            return None;
        },
    };
    let (name, behind_name) = match read_identifier(input, skip_ws(input, behind_let)) {
        Some(found) => found,
        None => {
            return None;
        },
    };
    let behind_equals = match read_symbol(input, skip_ws(input, behind_name), '=') {
        Some(end) => end,
        None => {
            return None;
        },
    };
    let (bound, behind_bound) = match read_expression(input, skip_ws(input, behind_equals)) {
        Some(found) => found,
        None => {
            return None;
        },
    };
    let behind_in = match read_keyword(input, skip_ws(input, behind_bound), "in") {
        Some(end) => end,
        None => {
            return None;
        },
    };
    match read_expression(input, skip_ws(input, behind_in)) {
        Some((body, end)) => Some(
            (Of::LetIn { name, bound: Box::new(bound), body: Box::new(body) }, end),
        ),
        None => None,
    }
}

/// Reads a conditional.
fn read_if_then_else(input: &Vec<char>, pos: usize) -> (found: Option<
    (Of<String, String>, usize),
>)
    requires
        pos <= input.len(),
    ensures
        reads(found, if_then_else(input@, pos as int), pos, input.len()),
    decreases left(input@, pos as int), 1nat,
{
    if pos >= input.len() {
        return None;
    }
    let behind_if = match read_keyword(input, pos, "if") {
        Some(end) => end,
        None => {
            return None;
        },
    };
    let (condition, behind_condition) = match read_parenthesized(
        input,
        skip_ws(input, behind_if),
    ) {
        Some(found) => found,
        None => {
            return None;
        },
    };
    let (if_true, behind_true) = match read_block(input, skip_ws(input, behind_condition)) {
        Some(found) => found,
        None => {
            return None;
        },
    };
    let behind_else = match read_keyword(input, skip_ws(input, behind_true), "else") {
        Some(end) => end,
        None => {
            return None;
        },
    };
    match read_block(input, skip_ws(input, behind_else)) {
        Some((if_false, end)) => Some(
            (
                Of::IfThenElse {
                    condition: Box::new(condition),
                    if_true: Box::new(if_true),
                    if_false: Box::new(if_false),
                },
                end,
            ),
        ),
        None => None,
    }
}

/// Reads the parameter names of a method.
fn read_parameters(input: &Vec<char>, pos: usize) -> (found: (Vec<String>, usize))
    requires
        pos <= input.len(),
    ensures
        parameters(input@, pos as int, Seq::empty()) == (found.0.deep_view(), found.1 as int),
        pos <= found.1 <= input.len(),
{
    let ghost whole = parameters(input@, pos as int, Seq::empty());
    let mut names: Vec<String> = Vec::new();
    let mut at = pos;
    assert(names.deep_view() =~= Seq::<Seq<char>>::empty());
    loop
        invariant
            pos <= at <= input.len(),
            whole == parameters(input@, at as int, names.deep_view()),
        ensures
            pos <= at <= input.len(),
            whole == (names.deep_view(), at as int),
        decreases input.len() - at,
    {
        if at >= input.len() {
            break;
        }
        match read_identifier(input, skip_ws(input, at)) {
            Some((name, end)) => {
                let ghost before = names.deep_view();
                let ghost meant = name@;
                names.push(name);
                assert(names.deep_view() =~= before.push(meant));
                at = end;
            },
            None => {
                break;
            },
        }
    }
    (names, at)
}

/// Reads a method.
fn read_method(input: &Vec<char>, pos: usize) -> (found: Option<(ClassMethod, usize)>)
    requires
        pos <= input.len(),
    ensures
        found matches Some((method, end)) ==> pos < end <= input.len() && method_definition(
            input@,
            pos as int,
        ) == Some((method@, end as int)),
        found is None ==> method_definition(input@, pos as int) is None,
{
    let behind_def = match read_keyword(input, pos, "def") {
        Some(end) => end,
        None => {
            return None;
        },
    };
    let (name, behind_name) = match read_identifier(input, skip_ws(input, behind_def)) {
        Some(found) => found,
        None => {
            return None;
        },
    };
    let (parameters, behind_parameters) = read_parameters(input, behind_name);
    let behind_equals = match read_symbol(input, skip_ws(input, behind_parameters), '=') {
        Some(end) => end,
        None => {
            return None;
        },
    };
    let (body, behind_body) = match read_expression(input, skip_ws(input, behind_equals)) {
        Some(found) => found,
        None => {
            return None;
        },
    };
    match read_symbol(input, skip_ws(input, behind_body), ';') {
        Some(end) => Some((ClassMethod { name, parameters, body }, end)),
        None => None,
    }
}

/// Reads a class.
fn read_class(input: &Vec<char>, pos: usize) -> (found: Option<(Class, usize)>)
    requires
        pos <= input.len(),
    ensures
        found matches Some((class, end)) ==> pos < end <= input.len() && class_definition(
            input@,
            pos as int,
        ) == Some((class@, end as int)),
        found is None ==> class_definition(input@, pos as int) is None,
{
    let behind_class = match read_keyword(input, pos, "class") {
        Some(end) => end,
        None => {
            return None;
        },
    };
    let (name, behind_name) = match read_identifier(input, skip_ws(input, behind_class)) {
        Some(found) => found,
        None => {
            return None;
        },
    };
    let inside = match read_symbol(input, skip_ws(input, behind_name), '{') {
        Some(end) => end,
        None => {
            return None;
        },
    };
    let ghost whole = methods(input@, inside as int, Seq::empty());
    let mut defined: Vec<ClassMethod> = Vec::new();
    let mut at = inside;
    assert(defined@.map_values(|method: ClassMethod| method@) =~= Seq::<ClassMethodView>::empty());
    loop
        invariant
            pos < at <= input.len(),
            whole == methods(
                input@,
                at as int,
                defined@.map_values(|method: ClassMethod| method@),
            ),
        ensures
            pos < at <= input.len(),
            whole == (defined@.map_values(|method: ClassMethod| method@), at as int),
        decreases input.len() - at,
    {
        if at >= input.len() {
            break;
        }
        match read_method(input, skip_ws(input, at)) {
            Some((next, end)) => {
                let ghost before = defined@.map_values(|method: ClassMethod| method@);
                let ghost meant = next@;
                defined.push(next);
                assert(defined@.map_values(|method: ClassMethod| method@) =~= before.push(meant));
                at = end;
            },
            None => {
                break;
            },
        }
    }
    match read_symbol(input, skip_ws(input, at), '}') {
        Some(end) => Some((Class { name, methods: defined }, end)),
        None => None,
    }
}

/// Reads a source text as a program: classes, with white space or comments
/// before, between and behind them.
///
/// Fails with [`Error::Syntax`] where the text is no program; white space or
/// a comment must follow every class, the last one too.
pub fn program(input: &str) -> (result: Result<Program, Error>)
    ensures
        match result {
            Ok(read) => crate::grammar::program(input@) == Some(read@),
            Err(error) => crate::grammar::program(input@) is None && error@ == ErrorView::Syntax,
        },
{
    let chars = characters(input);
    let ghost s = chars@;
    let ghost meaning = crate::grammar::program(s);
    let start = skip_ws(&chars, 0);
    let mut classes: Vec<Class> = Vec::new();
    let mut at = start;
    assert(classes@.map_values(|class: Class| class@) =~= Seq::<ClassView>::empty());
    match read_class(&chars, start) {
        Some((first, end)) => {
            let ghost meant = first@;
            classes.push(first);
            assert(classes@.map_values(|class: Class| class@) =~= seq![meant]);
            at = end;
            let ghost whole = more_classes(s, end as int, seq![meant]);
            loop
                invariant
                    s == chars@,
                    s == input@,
                    meaning == crate::grammar::program(s),
                    at <= chars.len(),
                    whole is None ==> meaning is None,
                    whole == more_classes(
                        s,
                        at as int,
                        classes@.map_values(|class: Class| class@),
                    ),
                ensures
                    at <= chars.len(),
                    whole == Some((classes@.map_values(|class: Class| class@), at as int)),
                decreases chars.len() - at,
            {
                if at >= chars.len() {
                    return Err(Error::Syntax);
                }
                let next = skip_ws(&chars, at);
                if next == at {
                    return Err(Error::Syntax);
                }
                match read_class(&chars, next) {
                    Some((class, end)) => {
                        let ghost before = classes@.map_values(|class: Class| class@);
                        let ghost meant = class@;
                        classes.push(class);
                        assert(classes@.map_values(|class: Class| class@) =~= before.push(meant));
                        at = end;
                    },
                    None => {
                        break;
                    },
                }
            }
        },
        None => {},
    }
    if skip_ws(&chars, at) == chars.len() {
        Ok(Program { classes })
    } else {
        Err(Error::Syntax)
    }
}

} // verus!
