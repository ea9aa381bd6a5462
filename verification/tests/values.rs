use classlang::method::{default_methods, BuiltinMethod, Method, MethodTable};
use classlang::text::decimal_string;
use classlang::typ::Type;
use classlang::value::Value;
use classlang::vm::VM;

#[test]
fn every_value_has_the_type_of_its_tag() {
    assert_eq!(Value::Unit.typ(), Type::Unit);
    assert_eq!(Value::Bool(false).typ(), Type::Bool);
    assert_eq!(Value::I32(-3).typ(), Type::I32);
    assert_eq!(Value::String(String::new()).typ(), Type::String);
}

#[test]
fn clone_keeps_the_value() {
    assert!(matches!(Value::I32(7).clone(), Value::I32(7)));
    assert!(matches!(Value::Bool(true).clone(), Value::Bool(true)));
    assert!(matches!(Value::Unit.clone(), Value::Unit));
    assert!(matches!(Value::String("abc".to_owned()).clone(), Value::String(s) if s == "abc"));
}

#[test]
fn type_names() {
    assert_eq!(Type::Unit.name(), "Unit");
    assert_eq!(Type::Bool.name(), "Bool");
    assert_eq!(Type::I32.name(), "I32");
    assert_eq!(Type::String.name(), "String");
    let mut vm = VM::new();
    let mut last = vm.new_class_id();
    assert_eq!(Type::Object(last).name(), "Class_1");
    for _ in 0..11 {
        last = vm.new_class_id();
    }
    assert_eq!(Type::Object(last).name(), "Class_12");
}

#[test]
fn decimal_numerals() {
    assert_eq!(decimal_string(0), "0");
    assert_eq!(decimal_string(7), "7");
    assert_eq!(decimal_string(10), "10");
    assert_eq!(decimal_string(9081726354), "9081726354");
    assert_eq!(decimal_string(usize::MAX), usize::MAX.to_string());
}

#[test]
fn default_methods_are_println_and_concat_on_strings() {
    let table = default_methods();
    assert!(matches!(
        table.get(Type::String, "println").as_deref(),
        Some(Method::Builtin(BuiltinMethod::Println))
    ));
    assert!(matches!(
        table.get(Type::String, "concat").as_deref(),
        Some(Method::Builtin(BuiltinMethod::Concat))
    ));
    assert!(table.get(Type::String, "other").is_none());
    assert!(table.get(Type::I32, "concat").is_none());
    assert!(table.get(Type::Unit, "println").is_none());
    assert!(table.get(Type::Bool, "println").is_none());
}

#[test]
fn method_table_keeps_types_apart_and_replaces_by_name() {
    let mut vm = VM::new();
    let first = vm.new_class_id();
    let second = vm.new_class_id();
    let mut table = MethodTable::new();
    assert!(table.get(Type::Object(first), "m").is_none());
    table.insert(Type::Object(first), "m".to_owned(), Method::Builtin(BuiltinMethod::Println));
    table.insert(Type::Unit, "m".to_owned(), Method::Builtin(BuiltinMethod::Concat));
    assert!(matches!(
        table.get(Type::Object(first), "m").as_deref(),
        Some(Method::Builtin(BuiltinMethod::Println))
    ));
    assert!(matches!(
        table.get(Type::Unit, "m").as_deref(),
        Some(Method::Builtin(BuiltinMethod::Concat))
    ));
    assert!(table.get(Type::Object(second), "m").is_none());
    assert!(table.get(Type::Bool, "m").is_none());
    table.insert(Type::Object(first), "m".to_owned(), Method::Builtin(BuiltinMethod::Concat));
    assert!(matches!(
        table.get(Type::Object(first), "m").as_deref(),
        Some(Method::Builtin(BuiltinMethod::Concat))
    ));
}
