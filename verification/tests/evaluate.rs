use classlang::error::Error;
use classlang::expression::{Expression, Of};
use classlang::method::{BuiltinMethod, Method};
use classlang::resolve::Resolver;
use classlang::typ::Type;
use classlang::value::Value;
use classlang::vm::VM;

fn text(s: &str) -> Expression {
    Of::Literal(Value::String(s.to_owned()))
}

fn number(n: i32) -> Expression {
    Of::Literal(Value::I32(n))
}

fn flag(b: bool) -> Expression {
    Of::Literal(Value::Bool(b))
}

fn var(index: usize) -> Expression {
    Of::LocalVariable { name_or_de_bruijn_index: index }
}

fn let_in(bound: Expression, body: Expression) -> Expression {
    Of::LetIn { name: (), bound: Box::new(bound), body: Box::new(body) }
}

fn call(name: &str, this: Expression, arguments: Vec<Expression>) -> Expression {
    Of::MethodCall { name: name.to_owned(), this: Box::new(this), arguments }
}

fn choose_branch(condition: Expression, if_true: Expression, if_false: Expression) -> Expression {
    Of::IfThenElse {
        condition: Box::new(condition),
        if_true: Box::new(if_true),
        if_false: Box::new(if_false),
    }
}

fn string_of(value: Value) -> String {
    match value {
        Value::String(s) => s,
        other => panic!("not a string: {:?}", other),
    }
}

#[test]
fn literal_evaluates_to_itself() {
    let mut vm = VM::new();
    let value = vm.evaluate_expression(&number(5)).unwrap();
    assert!(matches!(value, Value::I32(5)));
    assert_eq!(vm.stack_depth(), 0);
}

#[test]
fn let_x_be_5_in_x_is_5_after_resolution() {
    let named = Of::LetIn {
        name: "x".to_owned(),
        bound: Box::new(Of::Literal(Value::I32(5))),
        body: Box::new(Of::LocalVariable { name_or_de_bruijn_index: "x".to_owned() }),
    };
    let mut resolver = Resolver { local_variables: Vec::new() };
    let resolved = resolver.resolve_expression(named).unwrap();
    let mut vm = VM::new();
    assert!(matches!(vm.evaluate_expression(&resolved).unwrap(), Value::I32(5)));
    assert_eq!(vm.stack_depth(), 0);
}

#[test]
fn true_condition_takes_the_first_branch() {
    let mut vm = VM::new();
    let value = vm.evaluate_expression(&choose_branch(flag(true), text("a"), text("b"))).unwrap();
    assert_eq!(string_of(value), "a");
}

#[test]
fn false_condition_takes_the_second_branch() {
    let mut vm = VM::new();
    let value = vm.evaluate_expression(&choose_branch(flag(false), text("a"), text("b"))).unwrap();
    assert_eq!(string_of(value), "b");
}

#[test]
fn untaken_branch_is_not_evaluated() {
    let mut vm = VM::new();
    let value = vm
        .evaluate_expression(&choose_branch(
            flag(true),
            number(1),
            call("println", text("no"), vec![]),
        ))
        .unwrap();
    assert!(matches!(value, Value::I32(1)));
    assert!(vm.output().is_empty());
}

#[test]
fn condition_that_is_no_boolean_is_a_type_mismatch() {
    let mut vm = VM::new();
    let error =
        vm.evaluate_expression(&choose_branch(number(1), text("a"), text("b"))).unwrap_err();
    assert!(matches!(error, Error::TypeMismatch));
}

#[test]
fn concat_joins_receiver_and_argument() {
    let mut vm = VM::new();
    let value =
        vm.evaluate_expression(&call("concat", text("Hello, "), vec![text("world!")])).unwrap();
    assert_eq!(string_of(value), "Hello, world!");
}

#[test]
fn concat_joins_all_arguments_left_to_right() {
    let mut vm = VM::new();
    let value = vm
        .evaluate_expression(&call("concat", text("a"), vec![text("b"), text(""), text("cd")]))
        .unwrap();
    assert_eq!(string_of(value), "abcd");
    let alone = vm.evaluate_expression(&call("concat", text("solo"), vec![])).unwrap();
    assert_eq!(string_of(alone), "solo");
}

#[test]
fn concat_with_a_non_string_argument_is_a_type_mismatch() {
    let mut vm = VM::new();
    let error =
        vm.evaluate_expression(&call("concat", text("a"), vec![text("b"), number(1)])).unwrap_err();
    assert!(matches!(error, Error::TypeMismatch));
}

#[test]
fn builtin_on_a_non_string_receiver_is_a_type_mismatch() {
    let mut vm = VM::new();
    let concat = Method::Builtin(BuiltinMethod::Concat);
    let error = vm.invoke_method(&concat, Value::I32(1), vec![]).unwrap_err();
    assert!(matches!(error, Error::TypeMismatch));
    let println = Method::Builtin(BuiltinMethod::Println);
    let error = vm.invoke_method(&println, Value::Unit, vec![]).unwrap_err();
    assert!(matches!(error, Error::TypeMismatch));
    assert!(vm.output().is_empty());
}

#[test]
fn println_writes_one_line_and_yields_unit() {
    let mut vm = VM::new();
    let value = vm.evaluate_expression(&call("println", text("hi"), vec![])).unwrap();
    assert!(matches!(value, Value::Unit));
    assert_eq!(vm.output(), &vec!["hi".to_owned()]);
}

#[test]
fn empty_do_is_unit() {
    let mut vm = VM::new();
    assert!(matches!(vm.evaluate_expression(&Of::Do(vec![])).unwrap(), Value::Unit));
    assert!(vm.output().is_empty());
}

#[test]
fn do_runs_every_step_in_order_and_yields_the_last() {
    let mut vm = VM::new();
    let block = Of::Do(vec![
        call("println", text("first"), vec![]),
        call("println", text("second"), vec![]),
        number(3),
    ]);
    assert!(matches!(vm.evaluate_expression(&block).unwrap(), Value::I32(3)));
    assert_eq!(vm.output(), &vec!["first".to_owned(), "second".to_owned()]);
    assert_eq!(vm.stack_depth(), 0);
}

#[test]
fn do_stops_at_the_first_failing_step() {
    let mut vm = VM::new();
    let block = Of::Do(vec![
        call("println", text("first"), vec![]),
        var(0),
        call("println", text("never"), vec![]),
    ]);
    assert!(matches!(vm.evaluate_expression(&block).unwrap_err(), Error::IndexOutOfRange));
    assert_eq!(vm.output(), &vec!["first".to_owned()]);
}

#[test]
fn undefined_method_fails_with_no_such_method() {
    let mut vm = VM::new();
    let error = vm.evaluate_expression(&call("shout", text("a"), vec![])).unwrap_err();
    assert!(
        matches!(&error, Error::NoSuchMethod(Type::String, name) if name == "shout"),
        "{:?}",
        error
    );
    assert_eq!(error.message(), "type `String` has no method named `shout`");
}

#[test]
fn method_of_a_type_without_any_method_fails_with_no_such_method() {
    let mut vm = VM::new();
    for receiver in [number(1), flag(true), Of::Literal(Value::Unit)] {
        let error = vm.evaluate_expression(&call("concat", receiver, vec![])).unwrap_err();
        assert!(matches!(error, Error::NoSuchMethod(_, name) if name == "concat"));
    }
}

#[test]
fn arguments_are_not_evaluated_when_the_method_is_missing() {
    let mut vm = VM::new();
    let error = vm
        .evaluate_expression(&call(
            "missing",
            number(1),
            vec![call("println", text("side effect"), vec![])],
        ))
        .unwrap_err();
    assert!(matches!(error, Error::NoSuchMethod(Type::I32, _)));
    assert!(vm.output().is_empty());
}

#[test]
fn receiver_is_evaluated_before_arguments() {
    let mut vm = VM::new();
    let expression = call(
        "concat",
        Of::Do(vec![call("println", text("receiver"), vec![]), text("a")]),
        vec![Of::Do(vec![call("println", text("argument"), vec![]), text("b")])],
    );
    assert_eq!(string_of(vm.evaluate_expression(&expression).unwrap()), "ab");
    assert_eq!(vm.output(), &vec!["receiver".to_owned(), "argument".to_owned()]);
}

#[test]
fn variable_index_beyond_the_stack_is_out_of_range() {
    let mut vm = VM::new();
    assert!(matches!(vm.evaluate_expression(&var(0)).unwrap_err(), Error::IndexOutOfRange));
    let error = vm.evaluate_expression(&let_in(number(1), var(1))).unwrap_err();
    assert!(matches!(error, Error::IndexOutOfRange));
    assert_eq!(error.message(), "De Bruijn index is out of range");
}

#[test]
fn inner_binding_is_index_zero_and_outer_is_index_one() {
    let mut vm = VM::new();
    let inner = vm.evaluate_expression(&let_in(number(1), let_in(number(2), var(0)))).unwrap();
    assert!(matches!(inner, Value::I32(2)));
    let outer = vm.evaluate_expression(&let_in(number(1), let_in(number(2), var(1)))).unwrap();
    assert!(matches!(outer, Value::I32(1)));
    assert_eq!(vm.stack_depth(), 0);
}

#[test]
fn failing_let_body_leaves_its_binding_on_the_stack() {
    let mut vm = VM::new();
    let error = vm.evaluate_expression(&let_in(number(1), var(7))).unwrap_err();
    assert!(matches!(error, Error::IndexOutOfRange));
    assert_eq!(vm.stack_depth(), 1);
}

#[test]
fn custom_method_sees_receiver_then_arguments() {
    let mut vm = VM::new();
    let pick = |index: usize| Method::Custom { body: var(index) };
    let arguments = || vec![Value::I32(10), Value::I32(20)];
    let this = || Value::String("me".to_owned());
    assert!(matches!(vm.invoke_method(&pick(0), this(), arguments()).unwrap(), Value::I32(20)));
    assert!(matches!(vm.invoke_method(&pick(1), this(), arguments()).unwrap(), Value::I32(10)));
    assert_eq!(string_of(vm.invoke_method(&pick(2), this(), arguments()).unwrap()), "me");
    assert!(matches!(
        vm.invoke_method(&pick(3), this(), arguments()).unwrap_err(),
        Error::IndexOutOfRange
    ));
    assert_eq!(vm.stack_depth(), 0);
}

#[test]
fn custom_method_restores_the_stack_on_success_and_on_failure() {
    let mut vm = VM::new();
    let _ = vm.evaluate_expression(&let_in(number(1), var(7)));
    let before = vm.stack_depth();
    assert_eq!(before, 1);
    let succeeds = Method::Custom { body: let_in(number(2), var(0)) };
    vm.invoke_method(&succeeds, Value::Unit, vec![Value::Unit]).unwrap();
    assert_eq!(vm.stack_depth(), before);
    let fails_partway = Method::Custom {
        body: let_in(number(2), let_in(number(3), call("nope", number(4), vec![]))),
    };
    let error = vm.invoke_method(&fails_partway, Value::Unit, vec![Value::Unit]).unwrap_err();
    assert!(matches!(error, Error::NoSuchMethod(Type::I32, _)));
    assert_eq!(vm.stack_depth(), before);
}
