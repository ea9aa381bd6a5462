use classlang::error::Error;
use classlang::parse::{is_keyword, program};
use classlang::program::Program;
use classlang::vm::VM;

fn body_of(source_body: &str) -> Option<String> {
    let source = format!("class C {{ def m = {}; }}\n", source_body);
    match program(&source) {
        Ok(mut read) => {
            let mut class = read.classes.pop().unwrap();
            Some(format!("{:?}", class.methods.pop().unwrap().body))
        },
        Err(_) => None,
    }
}

fn shape(read: &Program) -> Vec<(String, Vec<(String, Vec<String>)>)> {
    read.classes
        .iter()
        .map(|class| {
            (
                class.name.clone(),
                class
                    .methods
                    .iter()
                    .map(|method| (method.name.clone(), method.parameters.clone()))
                    .collect(),
            )
        })
        .collect()
}

#[test]
fn keywords_are_the_eight_reserved_words() {
    for word in ["class", "def", "true", "false", "if", "else", "let", "in"] {
        assert!(is_keyword(word), "{}", word);
    }
    for word in ["", "this", "main", "Class", "classes", "i", "inn", "le", "truee", "_if"] {
        assert!(!is_keyword(word), "{}", word);
    }
}

#[test]
fn empty_text_is_the_empty_program() {
    assert!(program("").unwrap().classes.is_empty());
    assert!(program("  \n\t// only a comment\n").unwrap().classes.is_empty());
    assert!(program("// comment without line end").unwrap().classes.is_empty());
}

#[test]
fn classes_methods_and_parameters_are_read_in_order() {
    let read = program(
        "// first\nclass A {\n  def f = ();\n  def g x y_1 = x;\n}\n\nclass _B{}\nclass C { }\n",
    )
    .unwrap();
    assert_eq!(
        shape(&read),
        vec![
            (
                "A".to_owned(),
                vec![
                    ("f".to_owned(), vec![]),
                    ("g".to_owned(), vec!["x".to_owned(), "y_1".to_owned()]),
                ]
            ),
            ("_B".to_owned(), vec![]),
            ("C".to_owned(), vec![]),
        ]
    );
}

#[test]
fn white_space_must_follow_every_class() {
    assert!(matches!(program("class A {}"), Err(Error::Syntax)));
    assert!(program("class A {}\n").is_ok());
    assert!(program("class A {}//c").is_ok());
    assert!(matches!(program("class A {}class B {}\n"), Err(Error::Syntax)));
    assert!(program("class A {} class B {}\n").is_ok());
}

#[test]
fn text_that_is_no_program_is_a_syntax_error() {
    for source in [
        "class",
        "class A\n",
        "class A {\n",
        "class if {}\n",
        "class A { def }\n",
        "class A { def m = ; }\n",
        "class A { def m = 1 }\n",
        "class A { def m 1; }\n",
        "class A {} junk\n",
        "def m = 1;\n",
        "classA {}\n",
        "class A { def let = 1; }\n",
        "class A { def m in = 1; }\n",
    ] {
        let error = program(source).err().unwrap();
        assert!(matches!(error, Error::Syntax), "{}", source);
        assert_eq!(error.message(), "the source text is not a program");
    }
}

#[test]
fn literals() {
    assert_eq!(body_of("()").unwrap(), "Literal(Unit)");
    assert_eq!(body_of("(  \n )").unwrap(), "Literal(Unit)");
    assert_eq!(body_of("true").unwrap(), "Literal(Bool(true))");
    assert_eq!(body_of("false").unwrap(), "Literal(Bool(false))");
    assert_eq!(body_of("0").unwrap(), "Literal(I32(0))");
    assert_eq!(body_of("42").unwrap(), "Literal(I32(42))");
    assert_eq!(body_of("+7").unwrap(), "Literal(I32(7))");
    assert_eq!(body_of("-7").unwrap(), "Literal(I32(-7))");
    assert_eq!(body_of("-0").unwrap(), "Literal(I32(0))");
    assert_eq!(body_of("1_000_000").unwrap(), "Literal(I32(1000000))");
    assert_eq!(body_of("1__2_").unwrap(), "Literal(I32(12))");
    assert_eq!(body_of("0000000000000000000012").unwrap(), "Literal(I32(12))");
    assert_eq!(body_of("2147483647").unwrap(), "Literal(I32(2147483647))");
    assert_eq!(body_of("-2147483648").unwrap(), "Literal(I32(-2147483648))");
    assert_eq!(body_of("-2_147_483_648").unwrap(), "Literal(I32(-2147483648))");
}

#[test]
fn numbers_out_of_range_are_no_numbers() {
    assert!(body_of("2147483648").is_none());
    assert!(body_of("-2147483649").is_none());
    assert!(body_of("99999999999999999999999999").is_none());
    assert!(body_of("+").is_none());
    assert!(body_of("-").is_none());
    assert!(body_of("+_1").is_none());
}

#[test]
fn leading_underscore_makes_a_name_not_a_number() {
    assert_eq!(
        body_of("_1").unwrap(),
        "LocalVariable { name_or_de_bruijn_index: \"_1\" }"
    );
}

#[test]
fn strings_and_their_escapes() {
    assert_eq!(body_of(r#""""#).unwrap(), r#"Literal(String(""))"#);
    assert_eq!(body_of(r#""Hello, world!""#).unwrap(), r#"Literal(String("Hello, world!"))"#);
    assert_eq!(body_of(r#""a // b""#).unwrap(), r#"Literal(String("a // b"))"#);
    let read = |source: &str| -> Option<String> {
        let text = format!("class C {{ def m = {}; }}\n", source);
        let mut classes = program(&text).ok()?.classes;
        match classes.pop().unwrap().methods.pop().unwrap().body {
            classlang::expression::Of::Literal(classlang::value::Value::String(s)) => Some(s),
            _ => None,
        }
    };
    assert_eq!(read(r#""\"\'\\\n\t\r""#).unwrap(), "\"'\\\n\t\r");
    assert_eq!(read(r#""\b\f\v""#).unwrap(), "\u{8}\u{c}\u{11}");
    assert_eq!(read(r#""\0""#).unwrap(), "\0");
    assert_eq!(read(r#""\0a""#).unwrap(), "\0a");
    assert_eq!(read(r#""\x41\x7a\xe9""#).unwrap(), "Az\u{e9}");
    assert_eq!(read(r#""\u00e9\u20AC""#).unwrap(), "\u{e9}\u{20ac}");
    assert_eq!(read(r#""\u12345""#).unwrap(), "\u{1234}5");
    assert_eq!(read(r#""\u{41}\u{1F600}\u{10FFFF}\u{0}""#).unwrap(), "A\u{1F600}\u{10FFFF}\0");
    assert_eq!(read("\"h\u{e9}llo \u{1F600}\"").unwrap(), "h\u{e9}llo \u{1F600}");
    for bad in [
        r#""\01""#,
        r#""\q""#,
        r#""\x4""#,
        r#""\x4g""#,
        r#""\u123""#,
        r#""\ud800""#,
        r#""\u{}""#,
        r#""\u{1234567}""#,
        r#""\u{110000}""#,
        r#""\u{d800}""#,
        r#""\u{41""#,
        r#""abc"#,
        "\"a\nb\"",
    ] {
        assert!(body_of(bad).is_none(), "{}", bad);
    }
}

#[test]
fn variables_and_method_calls() {
    assert_eq!(body_of("x").unwrap(), "LocalVariable { name_or_de_bruijn_index: \"x\" }");
    assert_eq!(
        body_of("f x").unwrap(),
        "MethodCall { name: \"f\", this: LocalVariable { name_or_de_bruijn_index: \"x\" }, \
         arguments: [] }"
    );
    assert_eq!(
        body_of("f x 1 \"s\"").unwrap(),
        "MethodCall { name: \"f\", this: LocalVariable { name_or_de_bruijn_index: \"x\" }, \
         arguments: [Literal(I32(1)), Literal(String(\"s\"))] }"
    );
    assert_eq!(
        body_of("f x y").unwrap(),
        body_of("f   x // comment\n   y").unwrap()
    );
}

#[test]
fn calls_nest_only_in_parentheses() {
    assert_eq!(
        body_of("f (g x) y").unwrap(),
        "MethodCall { name: \"f\", this: MethodCall { name: \"g\", this: LocalVariable { \
         name_or_de_bruijn_index: \"x\" }, arguments: [] }, arguments: [LocalVariable { \
         name_or_de_bruijn_index: \"y\" }] }"
    );
    assert_eq!(
        body_of("f g x").unwrap(),
        "MethodCall { name: \"f\", this: LocalVariable { name_or_de_bruijn_index: \"g\" }, \
         arguments: [LocalVariable { name_or_de_bruijn_index: \"x\" }] }"
    );
    assert_eq!(body_of("(x)").unwrap(), body_of("x").unwrap());
    assert_eq!(body_of("( f x )").unwrap(), body_of("f x").unwrap());
}

#[test]
fn let_binds_a_name() {
    assert_eq!(
        body_of("let x = 5 in x").unwrap(),
        "LetIn { name: \"x\", bound: Literal(I32(5)), body: LocalVariable { \
         name_or_de_bruijn_index: \"x\" } }"
    );
    assert_eq!(
        body_of("let x = y in f x z").unwrap(),
        "LetIn { name: \"x\", bound: LocalVariable { name_or_de_bruijn_index: \"y\" }, body: \
         MethodCall { name: \"f\", this: LocalVariable { name_or_de_bruijn_index: \"x\" }, \
         arguments: [LocalVariable { name_or_de_bruijn_index: \"z\" }] } }"
    );
    assert!(body_of("let x 5 in x").is_none());
    assert!(body_of("let x = 5 x").is_none());
    assert!(body_of("let in = 5 in x").is_none());
    assert!(body_of("letx = 5 in x").is_none());
}

#[test]
fn conditionals_take_a_condition_in_parentheses_and_two_blocks() {
    assert_eq!(
        body_of("if (true) { \"a\" } else { \"b\" }").unwrap(),
        "IfThenElse { condition: Literal(Bool(true)), if_true: Do([Literal(String(\"a\"))]), \
         if_false: Do([Literal(String(\"b\"))]) }"
    );
    assert_eq!(
        body_of("if(c){}else{}").unwrap(),
        "IfThenElse { condition: LocalVariable { name_or_de_bruijn_index: \"c\" }, if_true: \
         Do([]), if_false: Do([]) }"
    );
    assert!(body_of("if true { 1 } else { 2 }").is_none());
    assert!(body_of("if (true) 1 else 2").is_none());
    assert!(body_of("if (true) { 1 }").is_none());
    assert!(body_of("if () { 1 } else { 2 }").is_none());
}

#[test]
fn blocks_separate_steps_by_semicolons() {
    assert_eq!(body_of("{}").unwrap(), "Do([])");
    assert_eq!(body_of("{   }").unwrap(), "Do([])");
    assert_eq!(body_of("{ 1 }").unwrap(), "Do([Literal(I32(1))])");
    assert_eq!(
        body_of("{ 1; 2;\n 3 }").unwrap(),
        "Do([Literal(I32(1)), Literal(I32(2)), Literal(I32(3))])"
    );
    assert_eq!(body_of("{{}; {1}}").unwrap(), "Do([Do([]), Do([Literal(I32(1))])])");
    assert!(body_of("{ 1; }").is_none());
    assert!(body_of("{ 1 ; 2 }").is_none());
    assert!(body_of("{ ; }").is_none());
    assert!(body_of("{ 1 2 }").is_none());
}

#[test]
fn words_that_start_with_a_keyword_are_names() {
    assert_eq!(body_of("truely").unwrap(), "LocalVariable { name_or_de_bruijn_index: \"truely\" }");
    assert_eq!(body_of("iffy").unwrap(), "LocalVariable { name_or_de_bruijn_index: \"iffy\" }");
    assert!(body_of("class").is_none());
    assert!(body_of("else").is_none());
}

#[test]
fn hello_world_from_source_text() {
    let source = "\
// The classic.
class Main {
    def main = greet this \"world\";
    def greet whom = println (concat \"Hello, \" whom \"!\");
}
";
    let mut vm = VM::new();
    let ids = vm.load_program(program(source).unwrap()).unwrap();
    vm.run(*ids.get("Main").unwrap()).unwrap();
    assert_eq!(vm.output(), &vec!["Hello, world!".to_owned()]);
}

#[test]
fn source_program_with_let_if_and_blocks() {
    let source = "\
class Main {
    def main = {
        println (pick this true);
        println (pick this false);
        let s = \"x\" in let s = concat s s in println s
    };
    def pick flag = if (flag) { \"yes\" } else { \"no\" };
}
";
    let mut vm = VM::new();
    let ids = vm.load_program(program(source).unwrap()).unwrap();
    vm.run(*ids.get("Main").unwrap()).unwrap();
    assert_eq!(vm.output(), &vec!["yes".to_owned(), "no".to_owned(), "xx".to_owned()]);
    assert_eq!(vm.stack_depth(), 0);
}
