//! What evaluation means: the value, the failure and the effects of every
//! indexed expression, as mathematical functions of the evaluator's state.

use crate::error::ErrorView;
use crate::expression::{ExpressionView, OfView};
use crate::method::{BuiltinMethod, Dispatch, MethodView};
use crate::value::ValueView;
use vstd::prelude::*;

verus! {

/// What evaluating one expression yields: the value or the failure, the
/// bindings it leaves in force, and the lines written so far.
///
/// After a success the bindings are those it started with. After a failure
/// they are those in force where evaluation stopped: `let` does not unbind
/// when its body fails, only a method call does.
pub struct Outcome {
    pub result: Result<ValueView, ErrorView>,
    pub stack: Seq<ValueView>,
    pub output: Seq<Seq<char>>,
}

/// What evaluating a sequence of expressions yields.
pub struct Outcomes {
    pub result: Result<Seq<ValueView>, ErrorView>,
    pub stack: Seq<ValueView>,
    pub output: Seq<Seq<char>>,
}

/// Every value of the sequence is a string.
pub open spec fn all_strings(values: Seq<ValueView>) -> bool {
    forall|i: int| 0 <= i < values.len() ==> values[i] is String
}

/// The texts of a sequence of strings, one after the other.
pub open spec fn joined(values: Seq<ValueView>) -> Seq<char>
    decreases values.len(),
{
    if values.len() == 0 {
        Seq::empty()
    } else {
        joined(values.drop_last()) + values.last()->String_0
    }
}

/// What a method of the evaluator's own does with a receiver and arguments.
///
/// `println` appends the receiver to the output and yields unit; `concat`
/// yields the receiver followed by the arguments. Both fail with
/// `TypeMismatch` on a receiver that is no string, `concat` also on an
/// argument that is none. Neither touches the bindings.
pub open spec fn builtin(
    method: BuiltinMethod,
    this: ValueView,
    arguments: Seq<ValueView>,
    stack: Seq<ValueView>,
    output: Seq<Seq<char>>,
) -> Outcome {
    match this {
        ValueView::String(text) => match method {
            BuiltinMethod::Println => Outcome {
                result: Ok(ValueView::Unit),
                stack,
                output: output.push(text),
            },
            BuiltinMethod::Concat => if all_strings(arguments) {
                Outcome { result: Ok(ValueView::String(text + joined(arguments))), stack, output }
            } else {
                Outcome { result: Err(ErrorView::TypeMismatch), stack, output }
            },
        },
        _ => Outcome { result: Err(ErrorView::TypeMismatch), stack, output },
    }
}

/// The value that a variable index refers to: index 0 is the innermost
/// binding, the last of `stack`.
pub open spec fn binding(stack: Seq<ValueView>, index: usize) -> Option<ValueView> {
    if index < stack.len() {
        Some(stack[stack.len() - 1 - index])
    } else {
        None
    }
}

/// The value of a `do` block whose steps had the values `values`: that of
/// the last step, or unit where there is no step.
pub open spec fn last_or_unit(values: Seq<ValueView>) -> ValueView {
    if values.len() == 0 {
        ValueView::Unit
    } else {
        values.last()
    }
}

/// Evaluation of `e` with the methods of `table`, the bindings `stack`
/// (innermost last) and the lines `output` written so far, where
/// user-defined method calls may still nest `budget` deep.
pub open spec fn eval(
    table: Dispatch,
    stack: Seq<ValueView>,
    output: Seq<Seq<char>>,
    e: ExpressionView,
    budget: nat,
) -> Outcome
    decreases budget, 1nat, e, 0nat,
{
    match e {
        OfView::Literal(value) => Outcome { result: Ok(value), stack, output },
        OfView::MethodCall { name, this, arguments } => {
            let receiver = eval(table, stack, output, *this, budget);
            match receiver.result {
                Err(_) => receiver,
                Ok(this) => if !table.contains_key((this.typ(), name)) {
                    Outcome {
                        result: Err(ErrorView::NoSuchMethod(this.typ(), name)),
                        stack,
                        output: receiver.output,
                    }
                } else {
                    let evaluated = eval_all(table, stack, receiver.output, arguments, 0, budget);
                    match evaluated.result {
                        Err(error) => Outcome {
                            result: Err(error),
                            stack: evaluated.stack,
                            output: evaluated.output,
                        },
                        Ok(arguments) => invoke(
                            table,
                            stack,
                            evaluated.output,
                            table[(this.typ(), name)],
                            this,
                            arguments,
                            budget,
                        ),
                    }
                },
            }
        },
        OfView::LocalVariable { name_or_de_bruijn_index: index } => match binding(stack, index) {
            Some(value) => Outcome { result: Ok(value), stack, output },
            None => Outcome { result: Err(ErrorView::IndexOutOfRange), stack, output },
        },
        OfView::LetIn { name: _, bound, body } => {
            let outer = eval(table, stack, output, *bound, budget);
            match outer.result {
                Err(_) => outer,
                Ok(value) => {
                    let inner = eval(table, stack.push(value), outer.output, *body, budget);
                    match inner.result {
                        Err(_) => inner,
                        Ok(_) => Outcome { result: inner.result, stack, output: inner.output },
                    }
                },
            }
        },
        OfView::IfThenElse { condition, if_true, if_false } => {
            let test = eval(table, stack, output, *condition, budget);
            match test.result {
                Err(_) => test,
                Ok(ValueView::Bool(true)) => eval(table, stack, test.output, *if_true, budget),
                Ok(ValueView::Bool(false)) => eval(table, stack, test.output, *if_false, budget),
                Ok(_) => Outcome {
                    result: Err(ErrorView::TypeMismatch),
                    stack,
                    output: test.output,
                },
            }
        },
        OfView::Do(steps) => {
            let evaluated = eval_all(table, stack, output, steps, 0, budget);
            match evaluated.result {
                Err(error) => Outcome {
                    result: Err(error),
                    stack: evaluated.stack,
                    output: evaluated.output,
                },
                Ok(values) => Outcome {
                    result: Ok(last_or_unit(values)),
                    stack,
                    output: evaluated.output,
                },
            }
        },
    }
}

/// Evaluation of the expressions `es[from..]` in order, each with the same
/// bindings and with the output that its predecessor left. It stops at the
/// first failure.
pub open spec fn eval_all(
    table: Dispatch,
    stack: Seq<ValueView>,
    output: Seq<Seq<char>>,
    es: Seq<ExpressionView>,
    from: int,
    budget: nat,
) -> Outcomes
    decreases budget, 1nat, es, es.len() - from,
{
    if from < 0 || from >= es.len() {
        Outcomes { result: Ok(Seq::empty()), stack, output }
    } else {
        let first = eval(table, stack, output, es[from], budget);
        match first.result {
            Err(error) => Outcomes { result: Err(error), stack: first.stack, output: first.output },
            Ok(head) => {
                let rest = eval_all(table, stack, first.output, es, from + 1, budget);
                match rest.result {
                    Err(_) => rest,
                    Ok(tail) => Outcomes {
                        result: Ok(seq![head] + tail),
                        stack,
                        output: rest.output,
                    },
                }
            },
        }
    }
}

/// Invocation of `method` on the receiver `this` with `arguments`.
///
/// A user-defined method evaluates its body with the receiver and then the
/// arguments as the innermost bindings, one level deeper in the call budget,
/// and fails with `CallDepthExceeded` where no budget is left. Whether the
/// body succeeds or fails, the bindings afterwards are those before the call.
pub open spec fn invoke(
    table: Dispatch,
    stack: Seq<ValueView>,
    output: Seq<Seq<char>>,
    method: MethodView,
    this: ValueView,
    arguments: Seq<ValueView>,
    budget: nat,
) -> Outcome
    decreases budget, 0nat, method, 0nat,
{
    match method {
        MethodView::Builtin(method) => builtin(method, this, arguments, stack, output),
        MethodView::Custom { body } => if budget == 0 {
            Outcome { result: Err(ErrorView::CallDepthExceeded), stack, output }
        } else {
            let called = eval(
                table,
                stack.push(this) + arguments,
                output,
                body,
                (budget - 1) as nat,
            );
            Outcome { result: called.result, stack, output: called.output }
        },
    }
}

/// The outcome of a sequence whose first values are already known: `values`
/// put in front of what the rest yields.
pub open spec fn after(values: Seq<ValueView>, rest: Outcomes) -> Outcomes {
    match rest.result {
        Ok(tail) => Outcomes { result: Ok(values + tail), stack: rest.stack, output: rest.output },
        Err(_) => rest,
    }
}

/// Evaluating `es[from..]` is evaluating `es[from]` and then, where that
/// succeeds, `es[from + 1..]` with the output it left.
pub proof fn lemma_eval_all_step(
    table: Dispatch,
    stack: Seq<ValueView>,
    output: Seq<Seq<char>>,
    es: Seq<ExpressionView>,
    from: int,
    budget: nat,
    values: Seq<ValueView>,
)
    requires
        0 <= from < es.len(),
    ensures
        ({
            let first = eval(table, stack, output, es[from], budget);
            after(values, eval_all(table, stack, output, es, from, budget)) == match first.result {
                Ok(head) => after(
                    values.push(head),
                    eval_all(table, stack, first.output, es, from + 1, budget),
                ),
                Err(error) => Outcomes {
                    result: Err(error),
                    stack: first.stack,
                    output: first.output,
                },
            }
        }),
{
    let first = eval(table, stack, output, es[from], budget);
    if let Ok(head) = first.result {
        let rest = eval_all(table, stack, first.output, es, from + 1, budget);
        lemma_eval_all_ok_keeps_bindings(table, stack, first.output, es, from + 1, budget);
        if let Ok(tail) = rest.result {
            assert(values + (seq![head] + tail) =~= values.push(head) + tail);
        }
    }
}

/// Past the last expression nothing is left to evaluate.
pub proof fn lemma_eval_all_done(
    table: Dispatch,
    stack: Seq<ValueView>,
    output: Seq<Seq<char>>,
    es: Seq<ExpressionView>,
    budget: nat,
    values: Seq<ValueView>,
)
    ensures
        after(values, eval_all(table, stack, output, es, es.len() as int, budget)) == (Outcomes {
            result: Ok(values),
            stack,
            output,
        }),
{
    assert(values + Seq::<ValueView>::empty() =~= values);
}

/// A successful evaluation leaves the bindings as it found them.
pub proof fn lemma_eval_ok_keeps_bindings(
    table: Dispatch,
    stack: Seq<ValueView>,
    output: Seq<Seq<char>>,
    e: ExpressionView,
    budget: nat,
)
    ensures
        eval(table, stack, output, e, budget).result is Ok ==> eval(
            table,
            stack,
            output,
            e,
            budget,
        ).stack == stack,
    decreases e,
{
    match e {
        OfView::IfThenElse { condition, if_true, if_false } => {
            let test = eval(table, stack, output, *condition, budget);
            lemma_eval_ok_keeps_bindings(table, stack, test.output, *if_true, budget);
            lemma_eval_ok_keeps_bindings(table, stack, test.output, *if_false, budget);
        },
        OfView::MethodCall { name, this, arguments } => {
            let receiver = eval(table, stack, output, *this, budget);
            if let Ok(this) = receiver.result {
                let evaluated = eval_all(table, stack, receiver.output, arguments, 0, budget);
                if let Ok(arguments) = evaluated.result {
                    lemma_invoke_restores_bindings(
                        table,
                        stack,
                        evaluated.output,
                        table[(this.typ(), name)],
                        this,
                        arguments,
                        budget,
                    );
                }
            }
        },
        _ => {},
    }
}

/// A method call leaves the bindings exactly as it found them, whether the
/// method succeeds or fails.
pub proof fn lemma_invoke_restores_bindings(
    table: Dispatch,
    stack: Seq<ValueView>,
    output: Seq<Seq<char>>,
    method: MethodView,
    this: ValueView,
    arguments: Seq<ValueView>,
    budget: nat,
)
    ensures
        invoke(table, stack, output, method, this, arguments, budget).stack == stack,
{
}

/// A successful evaluation of a sequence leaves the bindings as it found them.
pub proof fn lemma_eval_all_ok_keeps_bindings(
    table: Dispatch,
    stack: Seq<ValueView>,
    output: Seq<Seq<char>>,
    es: Seq<ExpressionView>,
    from: int,
    budget: nat,
)
    ensures
        eval_all(table, stack, output, es, from, budget).result is Ok ==> eval_all(
            table,
            stack,
            output,
            es,
            from,
            budget,
        ).stack == stack,
{
}

/// Evaluation never removes a binding that was in force when it started:
/// whatever it yields, the bindings it leaves begin with those it found.
pub proof fn lemma_eval_keeps_outer_bindings(
    table: Dispatch,
    stack: Seq<ValueView>,
    output: Seq<Seq<char>>,
    e: ExpressionView,
    budget: nat,
)
    ensures
        stack.is_prefix_of(eval(table, stack, output, e, budget).stack),
    decreases e, 0nat,
{
    assert(stack.is_prefix_of(stack));
    match e {
        OfView::Literal(_) => {},
        OfView::MethodCall { name, this, arguments } => {
            lemma_eval_keeps_outer_bindings(table, stack, output, *this, budget);
            let receiver = eval(table, stack, output, *this, budget);
            lemma_eval_all_keeps_outer_bindings(
                table,
                stack,
                receiver.output,
                arguments,
                0,
                budget,
            );
            if let Ok(this) = receiver.result {
                let evaluated = eval_all(table, stack, receiver.output, arguments, 0, budget);
                if let Ok(arguments) = evaluated.result {
                    lemma_invoke_restores_bindings(
                        table,
                        stack,
                        evaluated.output,
                        table[(this.typ(), name)],
                        this,
                        arguments,
                        budget,
                    );
                }
            }
        },
        OfView::LocalVariable { .. } => {},
        OfView::LetIn { name: _, bound, body } => {
            lemma_eval_keeps_outer_bindings(table, stack, output, *bound, budget);
            let outer = eval(table, stack, output, *bound, budget);
            if let Ok(value) = outer.result {
                lemma_eval_keeps_outer_bindings(
                    table,
                    stack.push(value),
                    outer.output,
                    *body,
                    budget,
                );
                let inner = eval(table, stack.push(value), outer.output, *body, budget);
                assert(stack =~= inner.stack.subrange(0, stack.len() as int)) by {
                    assert(stack.push(value) =~= inner.stack.subrange(0, stack.len() as int + 1));
                    assert forall|i: int| 0 <= i < stack.len() implies stack[i]
                        == inner.stack[i] by {
                        assert(stack.push(value)[i] == inner.stack.subrange(
                            0,
                            stack.len() as int + 1,
                        )[i]);
                    }
                }
            }
        },
        OfView::IfThenElse { condition, if_true, if_false } => {
            lemma_eval_keeps_outer_bindings(table, stack, output, *condition, budget);
            let test = eval(table, stack, output, *condition, budget);
            lemma_eval_keeps_outer_bindings(table, stack, test.output, *if_true, budget);
            lemma_eval_keeps_outer_bindings(table, stack, test.output, *if_false, budget);
        },
        OfView::Do(steps) => {
            lemma_eval_all_keeps_outer_bindings(table, stack, output, steps, 0, budget);
        },
    }
}

/// Evaluation of a sequence never removes a binding that was in force when
/// it started.
pub proof fn lemma_eval_all_keeps_outer_bindings(
    table: Dispatch,
    stack: Seq<ValueView>,
    output: Seq<Seq<char>>,
    es: Seq<ExpressionView>,
    from: int,
    budget: nat,
)
    ensures
        stack.is_prefix_of(eval_all(table, stack, output, es, from, budget).stack),
    decreases es, es.len() - from,
{
    assert(stack.is_prefix_of(stack));
    if 0 <= from < es.len() {
        lemma_eval_keeps_outer_bindings(table, stack, output, es[from], budget);
        let first = eval(table, stack, output, es[from], budget);
        lemma_eval_all_keeps_outer_bindings(table, stack, first.output, es, from + 1, budget);
    }
}

} // verus!
