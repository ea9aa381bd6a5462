//! What holds of resolution and evaluation in general.

use crate::error::ErrorView;
use crate::eval::{eval, eval_all, lemma_eval_ok_keeps_bindings, Outcome};
use crate::expression::{ExpressionView, NamedView, OfView};
use crate::load::{initial_scope, with_classes, with_methods};
use crate::method::Dispatch;
use crate::program::{ClassMethodView, ClassView};
use crate::typ::Type;
use crate::vm::ClassID;
use crate::resolve::{innermost, lemma_resolve_all_ok, resolve, resolve_all};
use crate::value::ValueView;
use vstd::prelude::*;

verus! {

/// Every variable of `e` is bound: by a `let` around it or by `scope`.
pub open spec fn closed(e: NamedView, scope: Seq<Seq<char>>) -> bool
    decreases e,
{
    match e {
        OfView::Literal(_) => true,
        OfView::MethodCall { name: _, this, arguments } => {
            &&& closed(*this, scope)
            &&& forall|i: int| 0 <= i < arguments.len() ==> closed(#[trigger] arguments[i], scope)
        },
        OfView::LocalVariable { name_or_de_bruijn_index: name } => scope.contains(name),
        OfView::LetIn { name, bound, body } => {
            &&& closed(*bound, scope)
            &&& closed(*body, scope.push(name))
        },
        OfView::IfThenElse { condition, if_true, if_false } => {
            &&& closed(*condition, scope)
            &&& closed(*if_true, scope)
            &&& closed(*if_false, scope)
        },
        OfView::Do(steps) => forall|i: int|
            0 <= i < steps.len() ==> closed(#[trigger] steps[i], scope),
    }
}

/// Every variable index of `e` is smaller than the number of bindings in
/// force where it stands, of which `depth` come from outside `e`.
pub open spec fn bounded(e: ExpressionView, depth: nat) -> bool
    decreases e,
{
    match e {
        OfView::Literal(_) => true,
        OfView::MethodCall { name: _, this, arguments } => {
            &&& bounded(*this, depth)
            &&& forall|i: int| 0 <= i < arguments.len() ==> bounded(#[trigger] arguments[i], depth)
        },
        OfView::LocalVariable { name_or_de_bruijn_index: index } => index < depth,
        OfView::LetIn { name: _, bound, body } => {
            &&& bounded(*bound, depth)
            &&& bounded(*body, depth + 1)
        },
        OfView::IfThenElse { condition, if_true, if_false } => {
            &&& bounded(*condition, depth)
            &&& bounded(*if_true, depth)
            &&& bounded(*if_false, depth)
        },
        OfView::Do(steps) => forall|i: int|
            0 <= i < steps.len() ==> bounded(#[trigger] steps[i], depth),
    }
}

/// A name is found in a scope exactly where the scope holds it, and then at
/// its last occurrence: the distance leads to the name, and no binding nearer
/// to the innermost end has that name.
pub proof fn lemma_innermost(scope: Seq<Seq<char>>, name: Seq<char>)
    ensures
        match innermost(scope, name) {
            Some(distance) => {
                &&& distance < scope.len()
                &&& scope[scope.len() - 1 - distance] == name
                &&& forall|i: int| scope.len() - distance <= i < scope.len() ==> scope[i] != name
            },
            None => !scope.contains(name),
        },
    decreases scope.len(),
{
    if scope.len() > 0 && scope.last() != name {
        let shorter = scope.drop_last();
        lemma_innermost(shorter, name);
        match innermost(shorter, name) {
            Some(distance) => {
                assert(shorter[shorter.len() - 1 - distance] == scope[scope.len() - 1 - (distance
                    + 1)]);
                assert forall|i: int|
                    scope.len() - (distance + 1) <= i < scope.len() implies scope[i] != name by {
                    if i < shorter.len() {
                        assert(shorter[i] == scope[i]);
                    }
                }
            },
            None => {
                assert forall|i: int| 0 <= i < scope.len() implies scope[i] != name by {
                    if i < shorter.len() {
                        assert(shorter[i] == scope[i]);
                        assert(shorter.contains(shorter[i]));
                    }
                }
            },
        }
    }
}

/// An expression all of whose variables are bound resolves, and every index
/// in the result is smaller than the number of bindings in force where it
/// stands.
pub proof fn lemma_closed_resolves(e: NamedView, scope: Seq<Seq<char>>)
    requires
        closed(e, scope),
    ensures
        resolve(e, scope).result is Ok,
        bounded(resolve(e, scope).result->Ok_0, scope.len()),
    decreases e, 0nat,
{
    match e {
        OfView::Literal(_) => {},
        OfView::MethodCall { name: _, this, arguments } => {
            lemma_closed_resolves(*this, scope);
            lemma_closed_resolve_all(arguments, scope);
        },
        OfView::LocalVariable { name_or_de_bruijn_index: name } => {
            lemma_innermost(scope, name);
        },
        OfView::LetIn { name, bound, body } => {
            lemma_closed_resolves(*bound, scope);
            lemma_closed_resolves(*body, scope.push(name));
        },
        OfView::IfThenElse { condition, if_true, if_false } => {
            lemma_closed_resolves(*condition, scope);
            lemma_closed_resolves(*if_true, scope);
            lemma_closed_resolves(*if_false, scope);
        },
        OfView::Do(steps) => {
            lemma_closed_resolve_all(steps, scope);
        },
    }
}

/// A sequence of expressions all of whose variables are bound resolves, one
/// result for each expression, with every index in range.
pub proof fn lemma_closed_resolve_all(es: Seq<NamedView>, scope: Seq<Seq<char>>)
    requires
        forall|i: int| 0 <= i < es.len() ==> closed(#[trigger] es[i], scope),
    ensures
        resolve_all(es, scope, 0).result is Ok,
        resolve_all(es, scope, 0).result->Ok_0.len() == es.len(),
        forall|i: int|
            0 <= i < es.len() ==> bounded(
                #[trigger] resolve_all(es, scope, 0).result->Ok_0[i],
                scope.len(),
            ),
    decreases es, 1nat,
{
    assert forall|i: int| 0 <= i < es.len() implies (#[trigger] resolve(es[i], scope)).result
        is Ok && bounded(resolve(es[i], scope).result->Ok_0, scope.len()) by {
        lemma_closed_resolves(es[i], scope);
    }
    lemma_resolve_all_ok(es, scope, 0);
}

/// Resolution fails only for want of a binding: every failure names an
/// unbound variable.
pub proof fn lemma_failure_is_unbound_variable(e: NamedView, scope: Seq<Seq<char>>)
    ensures
        resolve(e, scope).result is Err ==> resolve(e, scope).result->Err_0 is UnboundVariable,
    decreases e, 0nat,
{
    match e {
        OfView::Literal(_) => {},
        OfView::MethodCall { name: _, this, arguments } => {
            lemma_failure_is_unbound_variable(*this, scope);
            lemma_failures_are_unbound_variables(arguments, scope, 0);
        },
        OfView::LocalVariable { .. } => {},
        OfView::LetIn { name, bound, body } => {
            lemma_failure_is_unbound_variable(*bound, scope);
            lemma_failure_is_unbound_variable(*body, scope.push(name));
        },
        OfView::IfThenElse { condition, if_true, if_false } => {
            lemma_failure_is_unbound_variable(*condition, scope);
            lemma_failure_is_unbound_variable(*if_true, scope);
            lemma_failure_is_unbound_variable(*if_false, scope);
        },
        OfView::Do(steps) => {
            lemma_failures_are_unbound_variables(steps, scope, 0);
        },
    }
}

/// Resolution of a sequence fails only for want of a binding.
pub proof fn lemma_failures_are_unbound_variables(
    es: Seq<NamedView>,
    scope: Seq<Seq<char>>,
    from: int,
)
    ensures
        resolve_all(es, scope, from).result is Err ==> resolve_all(
            es,
            scope,
            from,
        ).result->Err_0 is UnboundVariable,
    decreases es, es.len() - from,
{
    if 0 <= from < es.len() {
        lemma_failure_is_unbound_variable(es[from], scope);
        lemma_failures_are_unbound_variables(es, scope, from + 1);
    }
}

/// An expression with a variable that nothing binds does not resolve.
pub proof fn lemma_open_fails(e: NamedView, scope: Seq<Seq<char>>)
    requires
        !closed(e, scope),
    ensures
        resolve(e, scope).result is Err,
    decreases e, 0nat,
{
    match e {
        OfView::Literal(_) => {},
        OfView::MethodCall { name: _, this, arguments } => {
            if closed(*this, scope) {
                let i = choose|i: int| 0 <= i < arguments.len() && !closed(arguments[i], scope);
                lemma_open_fails_in(arguments, scope, 0, i);
            } else {
                lemma_open_fails(*this, scope);
            }
        },
        OfView::LocalVariable { name_or_de_bruijn_index: name } => {
            lemma_innermost(scope, name);
            if let Some(distance) = innermost(scope, name) {
                assert(scope.contains(scope[scope.len() - 1 - distance]));
            }
        },
        OfView::LetIn { name, bound, body } => {
            if closed(*bound, scope) {
                lemma_open_fails(*body, scope.push(name));
            } else {
                lemma_open_fails(*bound, scope);
            }
        },
        OfView::IfThenElse { condition, if_true, if_false } => {
            if !closed(*condition, scope) {
                lemma_open_fails(*condition, scope);
            } else if !closed(*if_true, scope) {
                lemma_open_fails(*if_true, scope);
            } else {
                lemma_open_fails(*if_false, scope);
            }
        },
        OfView::Do(steps) => {
            let i = choose|i: int| 0 <= i < steps.len() && !closed(steps[i], scope);
            lemma_open_fails_in(steps, scope, 0, i);
        },
    }
}

/// A sequence one of whose expressions has an unbound variable does not
/// resolve.
pub proof fn lemma_open_fails_in(es: Seq<NamedView>, scope: Seq<Seq<char>>, from: int, at: int)
    requires
        0 <= from <= at < es.len(),
        !closed(es[at], scope),
    ensures
        resolve_all(es, scope, from).result is Err,
    decreases es, es.len() - from,
{
    if from == at {
        lemma_open_fails(es[at], scope);
    } else {
        lemma_open_fails_in(es, scope, from + 1, at);
    }
}

/// A variable that refers to the binding introduced last resolves to index 0.
pub proof fn lemma_innermost_binding_is_zero(scope: Seq<Seq<char>>, name: Seq<char>)
    ensures
        resolve(OfView::LocalVariable { name_or_de_bruijn_index: name }, scope.push(name)).result
            == Ok::<ExpressionView, ErrorView>(
            OfView::LocalVariable { name_or_de_bruijn_index: 0usize },
        ),
{
}

/// In the body of a method with `p` parameters, none of them named `this`,
/// the receiver resolves to index `p`.
pub proof fn lemma_receiver_index(parameters: Seq<Seq<char>>)
    requires
        parameters.len() <= usize::MAX,
        !parameters.contains("this"@),
    ensures
        resolve(
            OfView::LocalVariable { name_or_de_bruijn_index: "this"@ },
            initial_scope(parameters),
        ).result == Ok::<ExpressionView, ErrorView>(
            OfView::LocalVariable { name_or_de_bruijn_index: parameters.len() as usize },
        ),
{
    let scope = initial_scope(parameters);
    lemma_innermost(scope, "this"@);
    assert(scope[0] == "this"@);
    assert(scope.contains("this"@));
    let distance = innermost(scope, "this"@)->Some_0;
    if distance < parameters.len() {
        let at = scope.len() - 1 - distance;
        assert(parameters[at - 1] == scope[at]);
        assert(parameters.contains(parameters[at - 1]));
    }
}

/// Of two nested bindings of one name the inner one is referred to: in
/// `let x = a in let x = b in x` the variable resolves to index 0, the
/// binding of `b`.
pub proof fn lemma_shadowing(scope: Seq<Seq<char>>, x: Seq<char>, a: NamedView, b: NamedView)
    requires
        resolve(a, scope).result is Ok,
        resolve(b, scope.push(x)).result is Ok,
    ensures
        resolve(
            OfView::LetIn {
                name: x,
                bound: Box::new(a),
                body: Box::new(
                    OfView::LetIn {
                        name: x,
                        bound: Box::new(b),
                        body: Box::new(OfView::LocalVariable { name_or_de_bruijn_index: x }),
                    },
                ),
            },
            scope,
        ).result == Ok::<ExpressionView, ErrorView>(
            OfView::LetIn {
                name: (),
                bound: Box::new(resolve(a, scope).result->Ok_0),
                body: Box::new(
                    OfView::LetIn {
                        name: (),
                        bound: Box::new(resolve(b, scope.push(x)).result->Ok_0),
                        body: Box::new(OfView::LocalVariable { name_or_de_bruijn_index: 0usize }),
                    },
                ),
            },
        ),
{
    let innermost_scope = scope.push(x).push(x);
    let variable = OfView::LocalVariable { name_or_de_bruijn_index: x };
    lemma_innermost_binding_is_zero(scope.push(x), x);
    let inner = OfView::LetIn { name: x, bound: Box::new(b), body: Box::new(variable) };
    assert(resolve(variable, innermost_scope).result == Ok::<ExpressionView, ErrorView>(
        OfView::LocalVariable { name_or_de_bruijn_index: 0usize },
    ));
    assert(resolve(inner, scope.push(x)).result == Ok::<ExpressionView, ErrorView>(
        OfView::LetIn {
            name: (),
            bound: Box::new(resolve(b, scope.push(x)).result->Ok_0),
            body: Box::new(OfView::LocalVariable { name_or_de_bruijn_index: 0usize }),
        },
    ));
}

/// Index 0 reads the value of the inner of two nested bindings: where `a`
/// and then `b` evaluate, `let a in let b in 0` has the value of `b`.
pub proof fn lemma_inner_binding_is_read(
    table: Dispatch,
    stack: Seq<ValueView>,
    output: Seq<Seq<char>>,
    a: ExpressionView,
    b: ExpressionView,
    budget: nat,
)
    requires
        eval(table, stack, output, a, budget).result is Ok,
        eval(
            table,
            stack.push(eval(table, stack, output, a, budget).result->Ok_0),
            eval(table, stack, output, a, budget).output,
            b,
            budget,
        ).result is Ok,
    ensures
        ({
            let first = eval(table, stack, output, a, budget);
            let second = eval(table, stack.push(first.result->Ok_0), first.output, b, budget);
            eval(
                table,
                stack,
                output,
                OfView::LetIn {
                    name: (),
                    bound: Box::new(a),
                    body: Box::new(
                        OfView::LetIn {
                            name: (),
                            bound: Box::new(b),
                            body: Box::new(
                                OfView::LocalVariable { name_or_de_bruijn_index: 0usize },
                            ),
                        },
                    ),
                },
                budget,
            ) == (Outcome { result: second.result, stack, output: second.output })
        }),
{
    let first = eval(table, stack, output, a, budget);
    let outer = stack.push(first.result->Ok_0);
    let second = eval(table, outer, first.output, b, budget);
    let read = OfView::LocalVariable { name_or_de_bruijn_index: 0usize };
    let inner = OfView::LetIn { name: (), bound: Box::new(b), body: Box::new(read) };
    let innermost_stack = outer.push(second.result->Ok_0);
    assert(eval(table, innermost_stack, second.output, read, budget).result == Ok::<
        ValueView,
        ErrorView,
    >(second.result->Ok_0));
    assert(eval(table, outer, first.output, inner, budget) == (Outcome {
        result: second.result,
        stack: outer,
        output: second.output,
    }));
}

/// A value bound by `let` is the value read back: `let x = v in x` resolves
/// in every scope, and what it resolves to evaluates to `v` without any
/// effect.
pub proof fn lemma_let_round_trip(
    scope: Seq<Seq<char>>,
    x: Seq<char>,
    v: ValueView,
    table: Dispatch,
    stack: Seq<ValueView>,
    output: Seq<Seq<char>>,
    budget: nat,
)
    ensures
        ({
            let named = OfView::LetIn {
                name: x,
                bound: Box::new(OfView::Literal(v)),
                body: Box::new(OfView::LocalVariable { name_or_de_bruijn_index: x }),
            };
            &&& resolve(named, scope).result is Ok
            &&& eval(table, stack, output, resolve(named, scope).result->Ok_0, budget) == (Outcome {
                result: Ok(v),
                stack,
                output,
            })
        }),
{
    lemma_innermost_binding_is_zero(scope, x);
    let named = OfView::LetIn {
        name: x,
        bound: Box::new(OfView::Literal(v)),
        body: Box::new(OfView::LocalVariable { name_or_de_bruijn_index: x }),
    };
    let read = OfView::LocalVariable { name_or_de_bruijn_index: 0usize };
    let indexed = OfView::LetIn {
        name: (),
        bound: Box::new(OfView::Literal(v)),
        body: Box::new(read),
    };
    assert(resolve(OfView::Literal(v), scope).result == Ok::<ExpressionView, ErrorView>(
        OfView::Literal(v),
    ));
    assert(resolve(named, scope).result == Ok::<ExpressionView, ErrorView>(indexed));
    assert(eval(table, stack, output, OfView::Literal(v), budget) == (Outcome {
        result: Ok(v),
        stack,
        output,
    }));
    assert(eval(table, stack.push(v), output, read, budget) == (Outcome {
        result: Ok(v),
        stack: stack.push(v),
        output,
    }));
}

/// A condition that is `true` selects the first branch and one that is
/// `false` the second: the conditional is then what the branch is.
pub proof fn lemma_condition_selects(
    table: Dispatch,
    stack: Seq<ValueView>,
    output: Seq<Seq<char>>,
    flag: bool,
    if_true: ExpressionView,
    if_false: ExpressionView,
    budget: nat,
)
    ensures
        eval(
            table,
            stack,
            output,
            OfView::IfThenElse {
                condition: Box::new(OfView::Literal(ValueView::Bool(flag))),
                if_true: Box::new(if_true),
                if_false: Box::new(if_false),
            },
            budget,
        ) == eval(
            table,
            stack,
            output,
            if flag {
                if_true
            } else {
                if_false
            },
            budget,
        ),
{
    assert(eval(table, stack, output, OfView::Literal(ValueView::Bool(flag)), budget) == (Outcome {
        result: Ok(ValueView::Bool(flag)),
        stack,
        output,
    }));
}

/// A `do` block without steps is unit and has no effect.
pub proof fn lemma_empty_do(
    table: Dispatch,
    stack: Seq<ValueView>,
    output: Seq<Seq<char>>,
    budget: nat,
)
    ensures
        eval(table, stack, output, OfView::Do(Seq::empty()), budget) == (Outcome {
            result: Ok(ValueView::Unit),
            stack,
            output,
        }),
{
    assert(eval_all(table, stack, output, Seq::empty(), 0, budget).result == Ok::<
        Seq<ValueView>,
        ErrorView,
    >(Seq::empty()));
}

/// A `do` block of three steps evaluates them in order, each with the output
/// that the one before it left, and is what its last step is: where the
/// first two succeed, their values are dropped and their effects kept.
pub proof fn lemma_do_in_order(
    table: Dispatch,
    stack: Seq<ValueView>,
    output: Seq<Seq<char>>,
    a: ExpressionView,
    b: ExpressionView,
    c: ExpressionView,
    budget: nat,
)
    requires
        eval(table, stack, output, a, budget).result is Ok,
        eval(table, stack, eval(table, stack, output, a, budget).output, b, budget).result is Ok,
    ensures
        ({
            let first = eval(table, stack, output, a, budget);
            let second = eval(table, stack, first.output, b, budget);
            eval(table, stack, output, OfView::Do(seq![a, b, c]), budget) == eval(
                table,
                stack,
                second.output,
                c,
                budget,
            )
        }),
{
    let steps = seq![a, b, c];
    let first = eval(table, stack, output, a, budget);
    let second = eval(table, stack, first.output, b, budget);
    let third = eval(table, stack, second.output, c, budget);
    lemma_eval_ok_keeps_bindings(table, stack, second.output, c, budget);
    assert(steps[0] == a && steps[1] == b && steps[2] == c);
    let tail3 = eval_all(table, stack, third.output, steps, 3, budget);
    let tail2 = eval_all(table, stack, second.output, steps, 2, budget);
    let tail1 = eval_all(table, stack, first.output, steps, 1, budget);
    let tail0 = eval_all(table, stack, output, steps, 0, budget);
    assert(tail3.result == Ok::<Seq<ValueView>, ErrorView>(Seq::empty()));
    if let Ok(value) = third.result {
        assert(tail2.result->Ok_0 =~= seq![value]);
        assert(tail1.result->Ok_0 =~= seq![second.result->Ok_0, value]);
        assert(tail0.result->Ok_0 =~= seq![first.result->Ok_0, second.result->Ok_0, value]);
        assert(tail0.result->Ok_0.last() == value);
    } else {
        assert(tail2.result is Err);
        assert(tail1.result is Err);
        assert(tail0.result is Err);
    }
}

/// A call of a method that the receiver's type does not have fails with
/// `NoSuchMethod`, whatever the receiver is; the arguments are not evaluated.
pub proof fn lemma_undefined_method(
    table: Dispatch,
    stack: Seq<ValueView>,
    output: Seq<Seq<char>>,
    name: Seq<char>,
    this: ExpressionView,
    arguments: Seq<ExpressionView>,
    budget: nat,
)
    requires
        eval(table, stack, output, this, budget).result is Ok,
        !table.contains_key((eval(table, stack, output, this, budget).result->Ok_0.typ(), name)),
    ensures
        ({
            let receiver = eval(table, stack, output, this, budget);
            eval(
                table,
                stack,
                output,
                OfView::MethodCall { name, this: Box::new(this), arguments },
                budget,
            ) == (Outcome {
                result: Err(ErrorView::NoSuchMethod(receiver.result->Ok_0.typ(), name)),
                stack,
                output: receiver.output,
            })
        }),
{
}

/// Registering methods on one type leaves what every other type has as
/// it was.
pub proof fn lemma_methods_touch_one_type(
    table: Dispatch,
    typ: Type,
    methods: Seq<ClassMethodView>,
    count: int,
    selector: (Type, Seq<char>),
)
    requires
        selector.0 != typ,
    ensures
        with_methods(table, typ, methods, count).contains_key(selector) == table.contains_key(
            selector,
        ),
        with_methods(table, typ, methods, count)[selector] == table[selector],
    decreases count,
{
    if count > 0 {
        lemma_methods_touch_one_type(table, typ, methods, count - 1, selector);
    }
}

/// Loading classes never touches the methods of a type that is no object
/// type: what the language itself provides on strings stays what it is.
pub proof fn lemma_classes_touch_object_types_only(
    table: Dispatch,
    registered: nat,
    classes: Seq<ClassView>,
    count: int,
    selector: (Type, Seq<char>),
)
    requires
        !(selector.0 is Object),
    ensures
        with_classes(table, registered, classes, count).contains_key(selector)
            == table.contains_key(selector),
        with_classes(table, registered, classes, count)[selector] == table[selector],
    decreases count,
{
    if count > 0 {
        lemma_classes_touch_object_types_only(table, registered, classes, count - 1, selector);
        lemma_methods_touch_one_type(
            with_classes(table, registered, classes, count - 1),
            Type::Object(ClassID::numbered((registered + count) as nat)),
            classes[count - 1].methods,
            classes[count - 1].methods.len() as int,
            selector,
        );
    }
}

/// No two classes share a handle: handles with different numbers differ.
pub proof fn lemma_handles_differ(a: nat, b: nat)
    requires
        a <= usize::MAX,
        b <= usize::MAX,
        a != b,
    ensures
        ClassID::numbered(a) != ClassID::numbered(b),
{
    ClassID::lemma_numbered(a);
    ClassID::lemma_numbered(b);
}

} // verus!
