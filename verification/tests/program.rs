use classlang::error::Error;
use classlang::expression::Of;
use classlang::program::{Class, ClassMethod, Program};
use classlang::typ::Type;
use classlang::value::Value;
use classlang::vm::VM;

type Named = Of<String, String>;

fn var(name: &str) -> Named {
    Of::LocalVariable { name_or_de_bruijn_index: name.to_owned() }
}

fn text(s: &str) -> Named {
    Of::Literal(Value::String(s.to_owned()))
}

fn call(name: &str, this: Named, arguments: Vec<Named>) -> Named {
    Of::MethodCall { name: name.to_owned(), this: Box::new(this), arguments }
}

fn method(name: &str, parameters: &[&str], body: Named) -> ClassMethod {
    ClassMethod {
        name: name.to_owned(),
        parameters: parameters.iter().map(|p| (*p).to_owned()).collect(),
        body,
    }
}

fn class(name: &str, methods: Vec<ClassMethod>) -> Class {
    Class { name: name.to_owned(), methods }
}

fn lines(vm: &VM) -> Vec<&str> {
    vm.output().iter().map(|line| line.as_str()).collect()
}

#[test]
fn hello_world_runs() {
    let program = Program {
        classes: vec![class(
            "Main",
            vec![method(
                "main",
                &[],
                call("println", call("concat", text("Hello, "), vec![text("world!")]), vec![]),
            )],
        )],
    };
    let mut vm = VM::new();
    let ids = vm.load_program(program).unwrap();
    let main = *ids.get("Main").unwrap();
    vm.run(main).unwrap();
    assert_eq!(lines(&vm), vec!["Hello, world!"]);
    assert_eq!(vm.stack_depth(), 0);
}

#[test]
fn class_ids_are_issued_in_order_from_one() {
    let mut vm = VM::new();
    let ids = vm
        .load_program(Program {
            classes: vec![class("A", vec![]), class("B", vec![]), class("C", vec![])],
        })
        .unwrap();
    assert_eq!(ids.len(), 3);
    assert_eq!(ids.get("A").unwrap().index(), 1);
    assert_eq!(ids.get("B").unwrap().index(), 2);
    assert_eq!(ids.get("C").unwrap().index(), 3);
    assert_eq!(vm.class_count(), 3);
    assert_eq!(vm.new_class_id().index(), 4);
    assert_eq!(vm.new_class_id().index(), 5);
    assert_eq!(vm.class_count(), 5);
}

#[test]
fn ids_of_a_second_program_continue_after_the_first() {
    let mut vm = VM::new();
    let first = vm.load_program(Program { classes: vec![class("A", vec![])] }).unwrap();
    let second = vm.load_program(Program { classes: vec![class("B", vec![])] }).unwrap();
    assert_eq!(first.get("A").unwrap().index(), 1);
    assert_eq!(second.get("B").unwrap().index(), 2);
    assert!(second.get("A").is_none());
}

#[test]
fn later_class_of_the_same_name_keeps_the_name() {
    let mut vm = VM::new();
    let ids = vm
        .load_program(Program {
            classes: vec![
                class("A", vec![method("main", &[], text("first"))]),
                class("A", vec![method("main", &[], call("println", text("second"), vec![]))]),
            ],
        })
        .unwrap();
    assert_eq!(ids.len(), 1);
    let id = *ids.get("A").unwrap();
    assert_eq!(id.index(), 2);
    vm.run(id).unwrap();
    assert_eq!(lines(&vm), vec!["second"]);
}

#[test]
fn later_method_of_the_same_name_replaces_the_earlier() {
    let mut vm = VM::new();
    let ids = vm
        .load_program(Program {
            classes: vec![class(
                "Main",
                vec![
                    method("main", &[], call("println", text("old"), vec![])),
                    method("main", &[], call("println", text("new"), vec![])),
                ],
            )],
        })
        .unwrap();
    vm.run(*ids.get("Main").unwrap()).unwrap();
    assert_eq!(lines(&vm), vec!["new"]);
}

#[test]
fn method_sees_this_and_its_parameters() {
    let program = Program {
        classes: vec![class(
            "Main",
            vec![
                method("main", &[], call("show", var("this"), vec![text("x"), text("y")])),
                method(
                    "show",
                    &["a", "b"],
                    Of::Do(vec![
                        call("println", var("a"), vec![]),
                        call("println", var("b"), vec![]),
                        call("again", var("this"), vec![var("b")]),
                    ]),
                ),
                method(
                    "again",
                    &["c"],
                    call("println", call("concat", var("c"), vec![var("c")]), vec![]),
                ),
            ],
        )],
    };
    let mut vm = VM::new();
    let ids = vm.load_program(program).unwrap();
    vm.run(*ids.get("Main").unwrap()).unwrap();
    assert_eq!(lines(&vm), vec!["x", "y", "yy"]);
    assert_eq!(vm.stack_depth(), 0);
}

#[test]
fn program_with_one_unbound_variable_is_not_loaded_at_all() {
    let mut vm = VM::new();
    let program = Program {
        classes: vec![
            class("Good", vec![method("main", &[], call("println", text("good"), vec![]))]),
            class(
                "Bad",
                vec![
                    method("fine", &["x"], var("x")),
                    method("broken", &["x"], var("y")),
                    method("also_broken", &[], var("z")),
                ],
            ),
        ],
    };
    let error = vm.load_program(program).err().unwrap();
    assert!(matches!(error, Error::UnboundVariable(name) if name == "y"));
    let ids = vm.load_program(Program { classes: vec![class("Next", vec![])] }).unwrap();
    let next = *ids.get("Next").unwrap();
    assert_eq!(next.index(), 1);
    assert!(matches!(vm.run(next).unwrap_err(), Error::MissingEntryPoint));
}

#[test]
fn class_without_main_has_no_entry_point() {
    let mut vm = VM::new();
    let ids = vm
        .load_program(Program {
            classes: vec![class("Main", vec![method("other", &[], text("x"))])],
        })
        .unwrap();
    let error = vm.run(*ids.get("Main").unwrap()).unwrap_err();
    assert!(matches!(error, Error::MissingEntryPoint));
    assert_eq!(error.message(), "program has no entry point");
}

#[test]
fn method_of_another_class_is_not_found_on_this_one() {
    let mut vm = VM::new();
    let ids = vm
        .load_program(Program {
            classes: vec![
                class("Main", vec![method("main", &[], call("helper", var("this"), vec![]))]),
                class("Other", vec![method("helper", &[], text("x"))]),
            ],
        })
        .unwrap();
    let main = *ids.get("Main").unwrap();
    let error = vm.run(main).unwrap_err();
    assert!(matches!(&error, Error::NoSuchMethod(Type::Object(class), name)
        if *class == main && name == "helper"));
    assert_eq!(error.message(), "type `Class_1` has no method named `helper`");
    assert_eq!(vm.stack_depth(), 0);
}

#[test]
fn output_before_a_failure_is_kept() {
    let mut vm = VM::new();
    let ids = vm
        .load_program(Program {
            classes: vec![class(
                "Main",
                vec![method(
                    "main",
                    &[],
                    Of::Do(vec![
                        call("println", text("before"), vec![]),
                        call("concat", text("a"), vec![Of::Literal(Value::I32(1))]),
                        call("println", text("after"), vec![]),
                    ]),
                )],
            )],
        })
        .unwrap();
    assert!(matches!(vm.run(*ids.get("Main").unwrap()).unwrap_err(), Error::TypeMismatch));
    assert_eq!(lines(&vm), vec!["before"]);
}

#[test]
fn endless_recursion_ends_with_call_depth_exceeded() {
    let mut vm = VM::new();
    let ids = vm
        .load_program(Program {
            classes: vec![class(
                "Main",
                vec![method("main", &[], call("main", var("this"), vec![]))],
            )],
        })
        .unwrap();
    let error = vm.run(*ids.get("Main").unwrap()).unwrap_err();
    assert!(matches!(error, Error::CallDepthExceeded));
    assert_eq!(error.message(), "method calls are nested too deeply");
    assert_eq!(vm.stack_depth(), 0);
    let again = vm.run(*ids.get("Main").unwrap()).unwrap_err();
    assert!(matches!(again, Error::CallDepthExceeded));
}

#[test]
fn main_object_has_its_class_and_no_properties() {
    let mut vm = VM::new();
    let ids = vm
        .load_program(Program {
            classes: vec![class("Main", vec![method("main", &[], var("this"))])],
        })
        .unwrap();
    let main = *ids.get("Main").unwrap();
    vm.run(main).unwrap();
    let body = Of::LocalVariable { name_or_de_bruijn_index: 0usize };
    let method = classlang::method::Method::Custom { body };
    let object = std::rc::Rc::new(classlang::object::Object {
        class: main,
        properties: std::collections::HashMap::new(),
    });
    let returned = vm.invoke_method(&method, Value::Object(object.clone()), vec![]).unwrap();
    assert_eq!(returned.typ(), Type::Object(main));
    match returned {
        Value::Object(same) => assert!(std::rc::Rc::ptr_eq(&same, &object)),
        other => panic!("not an object: {:?}", other),
    }
}
