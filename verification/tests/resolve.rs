use classlang::error::Error;
use classlang::expression::{Expression, Of};
use classlang::resolve::Resolver;
use classlang::value::Value;

type Named = Of<String, String>;

fn var(name: &str) -> Named {
    Of::LocalVariable { name_or_de_bruijn_index: name.to_owned() }
}

fn let_in(name: &str, bound: Named, body: Named) -> Named {
    Of::LetIn { name: name.to_owned(), bound: Box::new(bound), body: Box::new(body) }
}

fn number(n: i32) -> Named {
    Of::Literal(Value::I32(n))
}

fn resolver(names: &[&str]) -> Resolver {
    Resolver { local_variables: names.iter().map(|name| (*name).to_owned()).collect() }
}

fn index_of(expression: &Expression) -> usize {
    match expression {
        Of::LocalVariable { name_or_de_bruijn_index } => *name_or_de_bruijn_index,
        other => panic!("not a variable: {:?}", other),
    }
}

#[test]
fn most_recent_binding_is_index_zero() {
    let mut r = resolver(&["a", "b", "c"]);
    assert_eq!(index_of(&r.resolve_expression(var("c")).unwrap()), 0);
    assert_eq!(index_of(&r.resolve_expression(var("b")).unwrap()), 1);
    assert_eq!(index_of(&r.resolve_expression(var("a")).unwrap()), 2);
}

#[test]
fn receiver_of_method_with_two_parameters_is_index_two() {
    let mut r = resolver(&["this", "x", "y"]);
    assert_eq!(index_of(&r.resolve_expression(var("this")).unwrap()), 2);
    assert_eq!(index_of(&r.resolve_expression(var("y")).unwrap()), 0);
}

#[test]
fn parameter_named_this_hides_the_receiver() {
    let mut r = resolver(&["this", "this"]);
    assert_eq!(index_of(&r.resolve_expression(var("this")).unwrap()), 0);
}

#[test]
fn shadowing_refers_to_the_second_binding() {
    let mut r = resolver(&[]);
    let resolved =
        r.resolve_expression(let_in("x", number(1), let_in("x", number(2), var("x")))).unwrap();
    let Of::LetIn { body: outer_body, .. } = resolved else { panic!("not a let") };
    let Of::LetIn { bound, body, .. } = *outer_body else { panic!("not a let") };
    assert!(matches!(*bound, Of::Literal(Value::I32(2))));
    assert_eq!(index_of(&body), 0);
    assert!(r.local_variables.is_empty());
}

#[test]
fn outer_binding_is_reached_past_an_inner_one() {
    let mut r = resolver(&[]);
    let resolved =
        r.resolve_expression(let_in("x", number(1), let_in("y", number(2), var("x")))).unwrap();
    let Of::LetIn { body: outer_body, .. } = resolved else { panic!("not a let") };
    let Of::LetIn { body, .. } = *outer_body else { panic!("not a let") };
    assert_eq!(index_of(&body), 1);
}

#[test]
fn bound_expression_does_not_see_its_own_name() {
    let mut r = resolver(&[]);
    let error = r.resolve_expression(let_in("x", var("x"), number(0))).unwrap_err();
    assert!(matches!(error, Error::UnboundVariable(name) if name == "x"));
    assert!(r.local_variables.is_empty());
}

#[test]
fn free_variable_fails_with_unbound_variable() {
    let mut r = resolver(&["a"]);
    let error = r.resolve_expression(var("b")).unwrap_err();
    assert!(matches!(&error, Error::UnboundVariable(name) if name == "b"));
    assert_eq!(error.message(), "variable `b` is not defined");
    assert_eq!(r.local_variables, vec!["a".to_owned()]);
}

#[test]
fn failure_in_a_body_leaves_the_binding_in_scope() {
    let mut r = resolver(&["a"]);
    let error = r.resolve_expression(let_in("x", number(1), var("missing"))).unwrap_err();
    assert!(matches!(error, Error::UnboundVariable(name) if name == "missing"));
    assert_eq!(r.local_variables, vec!["a".to_owned(), "x".to_owned()]);
}

#[test]
fn let_inside_a_step_is_not_visible_to_the_next_step() {
    let mut r = resolver(&[]);
    let block = Of::Do(vec![let_in("x", number(1), var("x")), var("x")]);
    let error = r.resolve_expression(block).unwrap_err();
    assert!(matches!(error, Error::UnboundVariable(name) if name == "x"));
}

#[test]
fn arguments_resolve_in_the_ambient_scope_left_to_right() {
    let mut r = resolver(&["a", "b"]);
    let call = Of::MethodCall {
        name: "f".to_owned(),
        this: Box::new(var("a")),
        arguments: vec![var("b"), let_in("c", var("a"), var("c")), var("nope"), var("later")],
    };
    let error = r.resolve_expression(call).unwrap_err();
    assert!(matches!(error, Error::UnboundVariable(name) if name == "nope"));
}

#[test]
fn method_call_keeps_name_and_order() {
    let mut r = resolver(&["a", "b"]);
    let call = Of::MethodCall {
        name: "f".to_owned(),
        this: Box::new(var("a")),
        arguments: vec![var("b"), var("a")],
    };
    let Of::MethodCall { name, this, arguments } = r.resolve_expression(call).unwrap() else {
        panic!("not a call")
    };
    assert_eq!(name, "f");
    assert_eq!(index_of(&this), 1);
    assert_eq!(arguments.iter().map(index_of).collect::<Vec<_>>(), vec![0, 1]);
}

#[test]
fn branches_resolve_independently() {
    let mut r = resolver(&["p"]);
    let conditional = Of::IfThenElse {
        condition: Box::new(var("p")),
        if_true: Box::new(let_in("q", number(1), var("p"))),
        if_false: Box::new(var("p")),
    };
    let Of::IfThenElse { condition, if_true, if_false } =
        r.resolve_expression(conditional).unwrap()
    else {
        panic!("not a conditional")
    };
    assert_eq!(index_of(&condition), 0);
    assert_eq!(index_of(&if_false), 0);
    let Of::LetIn { body, .. } = *if_true else { panic!("not a let") };
    assert_eq!(index_of(&body), 1);
}
