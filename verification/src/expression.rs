use crate::value::{Value, ValueView};
use vstd::prelude::*;

verus! {

/// An expression tree, generic over how a binder (`NewVar`) and a variable
/// reference (`GetVar`) are written.
///
/// The parser produces the named form `Of<String, String>`; resolution turns
/// it into the indexed form [`Expression`], the only one that is evaluated.
#[derive(Debug)]
#[allow(inconsistent_fields)]
pub enum Of<NewVar, GetVar> {
    Literal(Value),
    MethodCall { name: String, this: Box<Self>, arguments: Vec<Self> },
    LocalVariable { name_or_de_bruijn_index: GetVar },
    LetIn { name: NewVar, bound: Box<Self>, body: Box<Self> },
    IfThenElse { condition: Box<Self>, if_true: Box<Self>, if_false: Box<Self> },
    Do(Vec<Self>),
}

/// The indexed form: binders carry no name and a reference counts the
/// bindings between itself and its binder, innermost first.
pub type Expression = Of<(), usize>;

/// The mathematical content of an expression tree.
#[allow(inconsistent_fields)]
pub enum OfView<NewVar, GetVar> {
    Literal(ValueView),
    MethodCall { name: Seq<char>, this: Box<Self>, arguments: Seq<Self> },
    LocalVariable { name_or_de_bruijn_index: GetVar },
    LetIn { name: NewVar, bound: Box<Self>, body: Box<Self> },
    IfThenElse { condition: Box<Self>, if_true: Box<Self>, if_false: Box<Self> },
    Do(Seq<Self>),
}

/// The content of a named expression: names are read as their text.
pub type NamedView = OfView<Seq<char>, Seq<char>>;

/// The content of an indexed expression.
pub type ExpressionView = OfView<(), usize>;

/// The content of an expression tree: each name read as its text, each
/// literal as the content of its value.
pub open spec fn of_view<NewVar: View, GetVar: View>(e: Of<NewVar, GetVar>) -> OfView<
    NewVar::V,
    GetVar::V,
>
    decreases e,
{
    match e {
        Of::Literal(value) => OfView::Literal(value@),
        Of::MethodCall { name, this, arguments } => OfView::MethodCall {
            name: name@,
            this: Box::new(of_view(*this)),
            arguments: of_views(arguments@),
        },
        Of::LocalVariable { name_or_de_bruijn_index } => OfView::LocalVariable {
            name_or_de_bruijn_index: name_or_de_bruijn_index@,
        },
        Of::LetIn { name, bound, body } => OfView::LetIn {
            name: name@,
            bound: Box::new(of_view(*bound)),
            body: Box::new(of_view(*body)),
        },
        Of::IfThenElse { condition, if_true, if_false } => OfView::IfThenElse {
            condition: Box::new(of_view(*condition)),
            if_true: Box::new(of_view(*if_true)),
            if_false: Box::new(of_view(*if_false)),
        },
        Of::Do(steps) => OfView::Do(of_views(steps@)),
    }
}

/// The contents of a sequence of expression trees, in order.
pub open spec fn of_views<NewVar: View, GetVar: View>(es: Seq<Of<NewVar, GetVar>>) -> Seq<
    OfView<NewVar::V, GetVar::V>,
>
    decreases es,
{
    Seq::new(
        es.len(),
        |i: int|
            if 0 <= i < es.len() {
                of_view(es[i])
            } else {
                OfView::Do(Seq::empty())
            },
    )
}

impl<NewVar: View, GetVar: View> View for Of<NewVar, GetVar> {
    type V = OfView<NewVar::V, GetVar::V>;

    open spec fn view(&self) -> Self::V {
        of_view(*self)
    }
}

} // verus!
