//! The grammar of the language: what each construct of a source text is, as
//! a function of the text and the position at which the construct starts.
//!
//! Every construct is tried where it stands and either fails or yields what
//! it means together with the position behind it. Alternatives are tried in
//! a fixed order and the first that succeeds is taken; repetitions take as
//! many items as they can.

use crate::expression::{NamedView, OfView};
use crate::lexical::{
    i32_literal, identifier, keyword, left, lemma_ws_advances, string_literal, symbol, ws,
};
use crate::program::{ClassMethodView, ClassView, ProgramView};
use crate::value::ValueView;
use vstd::prelude::*;

verus! {

broadcast use lemma_ws_advances;

/// An expression at `pos`: a method call, or else an expression that is
/// none.
pub open spec fn expression(s: Seq<char>, pos: int) -> Option<(NamedView, int)>
    decreases left(s, pos), 5nat,
{
    if 0 <= pos < s.len() {
        match method_call(s, pos) {
            Some(found) => Some(found),
            None => operand(s, pos),
        }
    } else {
        None
    }
}

/// A method call at `pos`: the name of the method, the receiver, and the
/// arguments, each of them an operand, set apart by white space. So
/// `f x y` calls `f` on `x` with `y`.
pub open spec fn method_call(s: Seq<char>, pos: int) -> Option<(NamedView, int)>
    decreases left(s, pos), 4nat,
{
    if 0 <= pos < s.len() {
        match identifier(s, pos) {
            Some((name, behind_name)) => if pos < behind_name {
                match operand(s, ws(s, behind_name)) {
                    Some((this, behind_this)) => if pos < behind_this {
                        let (arguments, end) = operands(s, behind_this, Seq::empty());
                        Some((OfView::MethodCall { name, this: Box::new(this), arguments }, end))
                    } else {
                        None
                    },
                    None => None,
                }
            } else {
                None
            },
            None => None,
        }
    } else {
        None
    }
}

/// The operands that follow at `pos`, each behind white space, put behind
/// those of `so_far`, and the position behind the last of them.
pub open spec fn operands(s: Seq<char>, pos: int, so_far: Seq<NamedView>) -> (Seq<NamedView>, int)
    decreases left(s, pos), 3nat,
{
    if 0 <= pos < s.len() {
        match operand(s, ws(s, pos)) {
            Some((next, end)) => if pos < end {
                operands(s, end, so_far.push(next))
            } else {
                (so_far, pos)
            },
            None => (so_far, pos),
        }
    } else {
        (so_far, pos)
    }
}

/// An expression that is no method call, at `pos`. The first of these
/// that stands there: `()`, an expression in parentheses, `true`, `false`, a
/// block, a string, a number, a `let`, a conditional, a variable.
pub open spec fn operand(s: Seq<char>, pos: int) -> Option<(NamedView, int)>
    decreases left(s, pos), 2nat,
{
    if 0 <= pos < s.len() {
        if unit_literal(s, pos) is Some {
            Some((OfView::Literal(ValueView::Unit), unit_literal(s, pos)->Some_0))
        } else if parenthesized(s, pos) is Some {
            parenthesized(s, pos)
        } else if keyword(s, pos, "true"@) is Some {
            Some((OfView::Literal(ValueView::Bool(true)), keyword(s, pos, "true"@)->Some_0))
        } else if keyword(s, pos, "false"@) is Some {
            Some((OfView::Literal(ValueView::Bool(false)), keyword(s, pos, "false"@)->Some_0))
        } else if block(s, pos) is Some {
            block(s, pos)
        } else if string_literal(s, pos) is Some {
            let (text, end) = string_literal(s, pos)->Some_0;
            Some((OfView::Literal(ValueView::String(text)), end))
        } else if i32_literal(s, pos) is Some {
            let (number, end) = i32_literal(s, pos)->Some_0;
            Some((OfView::Literal(ValueView::I32(number)), end))
        } else if let_in(s, pos) is Some {
            let_in(s, pos)
        } else if if_then_else(s, pos) is Some {
            if_then_else(s, pos)
        } else {
            match identifier(s, pos) {
                Some((name, end)) => Some(
                    (OfView::LocalVariable { name_or_de_bruijn_index: name }, end),
                ),
                None => None,
            }
        }
    } else {
        None
    }
}

/// The unit value at `pos`: a pair of parentheses with nothing but white
/// space between them.
pub open spec fn unit_literal(s: Seq<char>, pos: int) -> Option<int> {
    match symbol(s, pos, '(') {
        Some(inside) => symbol(s, ws(s, inside), ')'),
        None => None,
    }
}

/// An expression in parentheses at `pos`.
pub open spec fn parenthesized(s: Seq<char>, pos: int) -> Option<(NamedView, int)>
    decreases left(s, pos), 1nat,
{
    if 0 <= pos < s.len() && s[pos] == '(' {
        match expression(s, ws(s, pos + 1)) {
            Some((inner, end)) => match symbol(s, ws(s, end), ')') {
                Some(behind) => Some((inner, behind)),
                None => None,
            },
            None => None,
        }
    } else {
        None
    }
}

/// The steps of a block that follow the step ending at `pos`, each behind
/// a semicolon, put behind those of `so_far`, and the position behind the
/// last of them. Nothing may stand between a step and the semicolon behind
/// it.
pub open spec fn more_steps(s: Seq<char>, pos: int, so_far: Seq<NamedView>) -> (
    Seq<NamedView>,
    int,
)
    decreases left(s, pos), 0nat,
{
    if 0 <= pos < s.len() && s[pos] == ';' {
        match expression(s, ws(s, pos + 1)) {
            Some((next, end)) => if pos < end {
                more_steps(s, end, so_far.push(next))
            } else {
                (so_far, pos)
            },
            None => (so_far, pos),
        }
    } else {
        (so_far, pos)
    }
}

/// A block at `pos`: expressions between braces, set apart by semicolons;
/// none behind the last.
pub open spec fn block(s: Seq<char>, pos: int) -> Option<(NamedView, int)>
    decreases left(s, pos), 1nat,
{
    if 0 <= pos < s.len() && s[pos] == '{' {
        let (steps, end) = match expression(s, ws(s, pos + 1)) {
            Some((first, behind)) => if pos < behind {
                more_steps(s, behind, seq![first])
            } else {
                (Seq::empty(), pos + 1)
            },
            None => (Seq::empty(), pos + 1),
        };
        match symbol(s, ws(s, end), '}') {
            Some(behind) => Some((OfView::Do(steps), behind)),
            None => None,
        }
    } else {
        None
    }
}

/// A binding at `pos`: `let`, a name, `=`, the bound expression, `in` and
/// the body.
pub open spec fn let_in(s: Seq<char>, pos: int) -> Option<(NamedView, int)>
    decreases left(s, pos), 1nat,
{
    if 0 <= pos < s.len() {
        match keyword(s, pos, "let"@) {
            Some(behind_let) => match identifier(s, ws(s, behind_let)) {
                Some((name, behind_name)) => match symbol(s, ws(s, behind_name), '=') {
                    Some(behind_equals) => if pos < behind_equals {
                        match expression(s, ws(s, behind_equals)) {
                            Some((bound, behind_bound)) => match keyword(
                                s,
                                ws(s, behind_bound),
                                "in"@,
                            ) {
                                Some(behind_in) => if pos < behind_in {
                                    match expression(s, ws(s, behind_in)) {
                                        Some((body, end)) => Some(
                                            (
                                                OfView::LetIn {
                                                    name,
                                                    bound: Box::new(bound),
                                                    body: Box::new(body),
                                                },
                                                end,
                                            ),
                                        ),
                                        None => None,
                                    }
                                } else {
                                    None
                                },
                                None => None,
                            },
                            None => None,
                        }
                    } else {
                        None
                    },
                    None => None,
                },
                None => None,
            },
            None => None,
        }
    } else {
        None
    }
}

/// A conditional at `pos`: `if`, the condition in parentheses, a block,
/// `else` and a block.
pub open spec fn if_then_else(s: Seq<char>, pos: int) -> Option<(NamedView, int)>
    decreases left(s, pos), 1nat,
{
    if 0 <= pos < s.len() {
        match keyword(s, pos, "if"@) {
            Some(behind_if) => if pos < behind_if {
                match parenthesized(s, ws(s, behind_if)) {
                    Some((condition, behind_condition)) => if pos < behind_condition {
                        match block(s, ws(s, behind_condition)) {
                            Some((if_true, behind_true)) => match keyword(
                                s,
                                ws(s, behind_true),
                                "else"@,
                            ) {
                                Some(behind_else) => if pos < behind_else {
                                    match block(s, ws(s, behind_else)) {
                                        Some((if_false, end)) => Some(
                                            (
                                                OfView::IfThenElse {
                                                    condition: Box::new(condition),
                                                    if_true: Box::new(if_true),
                                                    if_false: Box::new(if_false),
                                                },
                                                end,
                                            ),
                                        ),
                                        None => None,
                                    }
                                } else {
                                    None
                                },
                                None => None,
                            },
                            None => None,
                        }
                    } else {
                        None
                    },
                    None => None,
                }
            } else {
                None
            },
            None => None,
        }
    } else {
        None
    }
}

/// The parameter names that follow at `pos`, each behind white space, put
/// behind those of `so_far`, and the position behind the last of them.
pub open spec fn parameters(s: Seq<char>, pos: int, so_far: Seq<Seq<char>>) -> (
    Seq<Seq<char>>,
    int,
)
    decreases left(s, pos),
{
    if 0 <= pos < s.len() {
        match identifier(s, ws(s, pos)) {
            Some((name, end)) => if pos < end {
                parameters(s, end, so_far.push(name))
            } else {
                (so_far, pos)
            },
            None => (so_far, pos),
        }
    } else {
        (so_far, pos)
    }
}

/// A method at `pos`: `def`, the name, the parameter names, `=`, the body
/// and a semicolon.
pub open spec fn method_definition(s: Seq<char>, pos: int) -> Option<(ClassMethodView, int)> {
    match keyword(s, pos, "def"@) {
        Some(behind_def) => match identifier(s, ws(s, behind_def)) {
            Some((name, behind_name)) => {
                let (parameters, behind_parameters) = parameters(s, behind_name, Seq::empty());
                match symbol(s, ws(s, behind_parameters), '=') {
                    Some(behind_equals) => match expression(s, ws(s, behind_equals)) {
                        Some((body, behind_body)) => match symbol(s, ws(s, behind_body), ';') {
                            Some(end) => Some((ClassMethodView { name, parameters, body }, end)),
                            None => None,
                        },
                        None => None,
                    },
                    None => None,
                }
            },
            None => None,
        },
        None => None,
    }
}

/// The methods that follow at `pos`, each behind white space, put behind
/// those of `so_far`, and the position behind the last of them.
pub open spec fn methods(s: Seq<char>, pos: int, so_far: Seq<ClassMethodView>) -> (
    Seq<ClassMethodView>,
    int,
)
    decreases left(s, pos),
{
    if 0 <= pos < s.len() {
        match method_definition(s, ws(s, pos)) {
            Some((next, end)) => if pos < end {
                methods(s, end, so_far.push(next))
            } else {
                (so_far, pos)
            },
            None => (so_far, pos),
        }
    } else {
        (so_far, pos)
    }
}

/// A class at `pos`: `class`, the name, and the methods between braces.
pub open spec fn class_definition(s: Seq<char>, pos: int) -> Option<(ClassView, int)> {
    match keyword(s, pos, "class"@) {
        Some(behind_class) => match identifier(s, ws(s, behind_class)) {
            Some((name, behind_name)) => match symbol(s, ws(s, behind_name), '{') {
                Some(inside) => {
                    let (methods, behind_methods) = methods(s, inside, Seq::empty());
                    match symbol(s, ws(s, behind_methods), '}') {
                        Some(end) => Some((ClassView { name, methods }, end)),
                        None => None,
                    }
                },
                None => None,
            },
            None => None,
        },
        None => None,
    }
}

/// The classes that follow the class ending at `pos`, put behind those of
/// `so_far`, and the position behind the last of them. White space or a
/// comment must stand behind every class, the last one too: without it the
/// text is no program.
pub open spec fn more_classes(s: Seq<char>, pos: int, so_far: Seq<ClassView>) -> Option<
    (Seq<ClassView>, int),
>
    decreases left(s, pos),
{
    if 0 <= pos < s.len() && pos < ws(s, pos) {
        match class_definition(s, ws(s, pos)) {
            Some((next, end)) => if pos < end {
                more_classes(s, end, so_far.push(next))
            } else {
                None
            },
            None => Some((so_far, pos)),
        }
    } else {
        None
    }
}

/// The program that the whole text `s` writes, if it writes one: classes,
/// with white space or comments before, between and behind them.
pub open spec fn program(s: Seq<char>) -> Option<ProgramView> {
    let start = ws(s, 0);
    let read = match class_definition(s, start) {
        Some((first, end)) => more_classes(s, end, seq![first]),
        None => Some((Seq::empty(), start)),
    };
    match read {
        Some((classes, end)) => if ws(s, end) == s.len() {
            Some(ProgramView { classes })
        } else {
            None
        },
        None => None,
    }
}

} // verus!
