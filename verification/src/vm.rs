use crate::error::{result_view, Error, ErrorView};
use crate::eval::{
    after, all_strings, builtin, eval, eval_all, invoke, joined, lemma_eval_all_done,
    lemma_eval_all_step, lemma_eval_keeps_outer_bindings, lemma_eval_ok_keeps_bindings,
    lemma_invoke_restores_bindings,
};
use crate::expression::{of_views, Expression, ExpressionView, Of};
use crate::load::{
    class_ids, first_failure, first_failure_in, initial_scope, lemma_first_failure_in_skip,
    lemma_first_failure_skip, resolve_method, with_classes, with_methods,
};
use crate::method::{
    default_dispatch, default_methods, BuiltinMethod, Dispatch, Method, MethodTable,
};
use crate::object::{Object, ObjectView};
use crate::program::{Class, ClassMethod, ClassView, Program};
use crate::resolve::Resolver;
use crate::typ::Type;
use crate::value::{properties_view, Value, ValueView};
use std::collections::HashMap;
use std::rc::Rc;
use vstd::hash_map::StringHashMap;
use vstd::prelude::*;
use vstd::string::StringExecFns;

verus! {

/// Handle of a registered class. Handles are issued by [`VM::new_class_id`] in
/// strictly increasing order and are never reused.
#[derive(Debug, Clone, Copy, PartialEq, Eq, Hash, Structural)]
pub struct ClassID(usize);

impl ClassID {
    /// The position of this class in the order of registration, counted from 1.
    pub closed spec fn number(self) -> nat {
        self.0 as nat
    }

    /// The handle of the class registered as the `n`-th.
    pub closed spec fn numbered(n: nat) -> ClassID {
        ClassID(n as usize)
    }

    /// The handle numbered `n` has the number `n`, as far as classes can be
    /// counted.
    pub proof fn lemma_numbered(n: nat)
        requires
            n <= usize::MAX,
        ensures
            Self::numbered(n).number() == n,
    {
    }

    /// Returns the position of this class in the order of registration.
    pub fn index(&self) -> (n: usize)
        ensures
            n == self.number(),
    {
        self.0
    }

    /// Two handles with the same number are the same handle.
    pub proof fn lemma_number_injective(a: ClassID, b: ClassID)
        requires
            a.number() == b.number(),
        ensures
            a == b,
    {
    }

    /// A class number fits the machine word that counts classes.
    pub proof fn lemma_number_bounded(self)
        ensures
            self.number() <= usize::MAX,
    {
    }
}

/// How deep calls of user-defined methods may nest in a fresh evaluator.
pub const CALL_DEPTH_LIMIT: usize = 256;

/// The evaluator: the dispatch table, the bindings in force, the lines
/// written so far, the number of classes registered, and how deep calls of
/// user-defined methods may still nest.
pub struct VM {
    methods: MethodTable,
    local_variables: Vec<Value>,
    class_id_counter: usize,
    output: Vec<String>,
    call_budget: usize,
}

/// The mathematical content of a [`VM`].
pub struct VMView {
    /// The method that each pair of a type and a name selects.
    pub methods: Dispatch,
    /// The bindings in force, innermost last.
    pub stack: Seq<ValueView>,
    /// The lines written by `println`, oldest first.
    pub output: Seq<Seq<char>>,
    /// The number of classes registered so far.
    pub class_count: nat,
    /// How deep calls of user-defined methods may still nest.
    pub call_budget: nat,
}

/// The contents of a sequence of values, in order.
pub open spec fn values_view(values: Seq<Value>) -> Seq<ValueView> {
    values.map_values(|value: Value| value@)
}

impl View for VM {
    type V = VMView;

    closed spec fn view(&self) -> VMView {
        VMView {
            methods: self.methods@,
            stack: values_view(self.local_variables@),
            output: self.output.deep_view(),
            class_count: self.class_id_counter as nat,
            call_budget: self.call_budget as nat,
        }
    }
}

/// An instance of `class` without properties, as the evaluator makes one to
/// start a program on.
pub open spec fn fresh_object(class: ClassID) -> ValueView {
    ValueView::Object(ObjectView { class, properties: Map::empty() })
}

/// A method whose body has been resolved.
struct ResolvedMethod {
    name: String,
    body: Expression,
}

/// A class all of whose method bodies have been resolved.
struct ResolvedClass {
    name: String,
    methods: Vec<ResolvedMethod>,
}

/// `resolved` holds `class` with every body resolved against its initial
/// scope.
spec fn resolved_as(resolved: ResolvedClass, class: ClassView) -> bool {
    &&& resolved.name@ == class.name
    &&& resolved.methods.len() == class.methods.len()
    &&& forall|j: int|
        0 <= j < class.methods.len() ==> {
            &&& (#[trigger] resolved.methods[j]).name@ == class.methods[j].name
            &&& resolve_method(class.methods[j]) == Ok::<ExpressionView, ErrorView>(
                resolved.methods[j].body@,
            )
        }
}

/// Resolves the body of every method of a class, in order, and stops at the
/// first that fails.
fn resolve_class(class: Class) -> (result: Result<ResolvedClass, Error>)
    ensures
        match result {
            Ok(resolved) => first_failure_in(class@.methods, 0) is None && resolved_as(
                resolved,
                class@,
            ),
            Err(error) => first_failure_in(class@.methods, 0) == Some(error@),
        },
{
    let ghost written = class@;
    let Class { name, methods } = class;
    let mut resolved: Vec<ResolvedMethod> = Vec::new();
    for method in it: methods
        invariant
            it.seq() == methods@,
            written == class@,
            written.name == name@,
            written.methods == methods@.map_values(|method: ClassMethod| method@),
            resolved.len() == it.index(),
            forall|j: int|
                0 <= j < it.index() ==> {
                    &&& (#[trigger] resolved[j]).name@ == written.methods[j].name
                    &&& resolve_method(written.methods[j]) == Ok::<ExpressionView, ErrorView>(
                        resolved[j].body@,
                    )
                },
    {
        let ghost at = it.index() as int;
        assert(written.methods[at] == method@);
        let ClassMethod { name: method_name, parameters, body } = method;
        let ghost declared = parameters.deep_view();
        let mut parameters = parameters;
        let mut names: Vec<String> = Vec::new();
        names.push("this".to_owned());
        names.append(&mut parameters);
        let mut resolver = Resolver { local_variables: names };
        assert(resolver.scope() =~= initial_scope(declared));
        match resolver.resolve_expression(body) {
            Ok(body) => {
                resolved.push(ResolvedMethod { name: method_name, body });
            },
            Err(error) => {
                proof {
                    assert forall|j: int| 0 <= j < at implies (#[trigger] resolve_method(
                        written.methods[j],
                    )) is Ok by {
                        assert(resolved[j].name@ == written.methods[j].name);
                    }
                    lemma_first_failure_in_skip(written.methods, 0, at);
                }
                return Err(error);
            },
        }
    }
    proof {
        assert forall|j: int| 0 <= j < written.methods.len() implies (#[trigger] resolve_method(
            written.methods[j],
        )) is Ok by {
            assert(resolved[j].name@ == written.methods[j].name);
        }
        lemma_first_failure_in_skip(written.methods, 0, written.methods.len() as int);
    }
    Ok(ResolvedClass { name, methods: resolved })
}

/// Resolves the body of every method of every class, in source order, and
/// stops at the first that fails.
fn resolve_program(program: Program) -> (result: Result<Vec<ResolvedClass>, Error>)
    ensures
        match result {
            Ok(resolved) => {
                &&& first_failure(program@.classes, 0) is None
                &&& resolved.len() == program@.classes.len()
                &&& forall|i: int|
                    0 <= i < resolved.len() ==> resolved_as(
                        #[trigger] resolved[i],
                        program@.classes[i],
                    )
            },
            Err(error) => first_failure(program@.classes, 0) == Some(error@),
        },
{
    let ghost written = program@.classes;
    let Program { classes } = program;
    let mut resolved: Vec<ResolvedClass> = Vec::new();
    for class in it: classes
        invariant
            it.seq() == classes@,
            written == program@.classes,
            written == classes@.map_values(|class: Class| class@),
            resolved.len() == it.index(),
            forall|i: int|
                0 <= i < it.index() ==> (#[trigger] first_failure_in(written[i].methods, 0))
                    is None,
            forall|i: int| 0 <= i < it.index() ==> resolved_as(#[trigger] resolved[i], written[i]),
    {
        let ghost at = it.index() as int;
        assert(written[at] == class@);
        match resolve_class(class) {
            Ok(class) => {
                resolved.push(class);
            },
            Err(error) => {
                proof {
                    lemma_first_failure_skip(written, 0, at);
                }
                return Err(error);
            },
        }
    }
    proof {
        lemma_first_failure_skip(written, 0, written.len() as int);
    }
    Ok(resolved)
}

impl VM {
    /// An evaluator that knows the methods of the language itself and
    /// nothing else: no class, no binding, no output.
    pub fn new() -> (vm: Self)
        ensures
            vm@ == (VMView {
                methods: default_dispatch(),
                stack: Seq::empty(),
                output: Seq::empty(),
                class_count: 0,
                call_budget: CALL_DEPTH_LIMIT as nat,
            }),
    {
        let vm = VM {
            methods: default_methods(),
            local_variables: Vec::new(),
            class_id_counter: 0,
            output: Vec::new(),
            call_budget: CALL_DEPTH_LIMIT,
        };
        assert(vm@.stack =~= Seq::empty());
        assert(vm@.output =~= Seq::empty());
        vm
    }

    /// Issues the handle of a new class. Handles are numbered from 1 in the
    /// order in which they are issued, so no two classes share one.
    pub fn new_class_id(&mut self) -> (id: ClassID)
        requires
            old(self)@.class_count < usize::MAX,
        ensures
            id == ClassID::numbered(old(self)@.class_count + 1),
            id.number() == old(self)@.class_count + 1,
            final(self)@ == (VMView { class_count: old(self)@.class_count + 1, ..old(self)@ }),
    {
        self.class_id_counter = self.class_id_counter + 1;
        ClassID(self.class_id_counter)
    }

    /// Registers the resolved methods of one class on the object type of
    /// its handle, in order.
    fn register_class(&mut self, id: ClassID, methods: Vec<ResolvedMethod>, Ghost(class): Ghost<
        ClassView,
    >)
        requires
            methods.len() == class.methods.len(),
            forall|j: int|
                0 <= j < class.methods.len() ==> {
                    &&& (#[trigger] methods[j]).name@ == class.methods[j].name
                    &&& resolve_method(class.methods[j]) == Ok::<ExpressionView, ErrorView>(
                        methods[j].body@,
                    )
                },
        ensures
            final(self)@ == (VMView {
                methods: with_methods(
                    old(self)@.methods,
                    Type::Object(id),
                    class.methods,
                    class.methods.len() as int,
                ),
                ..old(self)@
            }),
    {
        for method in it: methods
            invariant
                it.seq() == methods@,
                methods.len() == class.methods.len(),
                forall|j: int|
                    0 <= j < class.methods.len() ==> {
                        &&& (#[trigger] methods[j]).name@ == class.methods[j].name
                        &&& resolve_method(class.methods[j]) == Ok::<ExpressionView, ErrorView>(
                            methods[j].body@,
                        )
                    },
                self@ == (VMView {
                    methods: with_methods(
                        old(self)@.methods,
                        Type::Object(id),
                        class.methods,
                        it.index() as int,
                    ),
                    ..old(self)@
                }),
        {
            let ghost at = it.index() as int;
            assert(method == methods[at]);
            let ResolvedMethod { name, body } = method;
            self.methods.insert(Type::Object(id), name, Method::Custom { body });
        }
    }

    /// Loads a program: every class receives a new handle, in source order,
    /// and every method is registered on the object type of its class with
    /// its body resolved where `this` and then the parameters are bound.
    ///
    /// A program one of whose bodies reads an unbound variable is not loaded
    /// at all: the call fails as the first such body, in source order, and
    /// leaves the evaluator as it was. Otherwise the handles are returned by
    /// class name.
    pub fn load_program(&mut self, program: Program) -> (result: Result<
        StringHashMap<ClassID>,
        Error,
    >)
        requires
            old(self)@.class_count + program.classes.len() <= usize::MAX,
        ensures
            match first_failure(program@.classes, 0) {
                Some(failure) => {
                    &&& result matches Err(error) && error@ == failure
                    &&& final(self)@ == old(self)@
                },
                None => {
                    &&& result matches Ok(ids) && ids@ == class_ids(
                        old(self)@.class_count,
                        program@.classes,
                        program@.classes.len() as int,
                    )
                    &&& final(self)@ == (VMView {
                        methods: with_classes(
                            old(self)@.methods,
                            old(self)@.class_count,
                            program@.classes,
                            program@.classes.len() as int,
                        ),
                        class_count: old(self)@.class_count + program@.classes.len(),
                        ..old(self)@
                    })
                },
            },
    {
        let ghost written = program@.classes;
        let ghost registered = self@.class_count;
        let resolved = match resolve_program(program) {
            Ok(resolved) => resolved,
            Err(error) => {
                return Err(error);
            },
        };
        let mut ids: StringHashMap<ClassID> = StringHashMap::new();
        for class in it: resolved
            invariant
                it.seq() == resolved@,
                resolved.len() == written.len(),
                registered == old(self)@.class_count,
                registered + written.len() <= usize::MAX,
                forall|i: int|
                    0 <= i < resolved.len() ==> resolved_as(#[trigger] resolved[i], written[i]),
                ids@ == class_ids(registered, written, it.index() as int),
                self@ == (VMView {
                    methods: with_classes(
                        old(self)@.methods,
                        registered,
                        written,
                        it.index() as int,
                    ),
                    class_count: (registered + it.index()) as nat,
                    ..old(self)@
                }),
        {
            let ghost at = it.index() as int;
            assert(class == resolved[at]);
            assert(resolved_as(resolved[at], written[at]));
            let ResolvedClass { name, methods } = class;
            let id = self.new_class_id();
            ids.insert(name, id);
            self.register_class(id, methods, Ghost(written[at]));
        }
        Ok(ids)
    }

    /// Starts the program: invokes the method `main`, without arguments, on
    /// a new instance of the class `main_type` that has no properties.
    ///
    /// Fails with [`Error::MissingEntryPoint`] where that class has no method
    /// `main`, and otherwise as the method does. The value of `main` is
    /// dropped. The bindings in force are left as they were.
    pub fn run(&mut self, main_type: ClassID) -> (result: Result<(), Error>)
        ensures
            ({
                let selector = (Type::Object(main_type), "main"@);
                if old(self)@.methods.contains_key(selector) {
                    let o = invoke(
                        old(self)@.methods,
                        old(self)@.stack,
                        old(self)@.output,
                        old(self)@.methods[selector],
                        fresh_object(main_type),
                        Seq::empty(),
                        old(self)@.call_budget,
                    );
                    &&& match result {
                        Ok(_) => o.result is Ok,
                        Err(error) => o.result == Err::<ValueView, ErrorView>(error@),
                    }
                    &&& final(self)@ == VMView { output: o.output, ..old(self)@ }
                } else {
                    &&& result matches Err(error) && error@ == ErrorView::MissingEntryPoint
                    &&& final(self)@ == old(self)@
                }
            }),
    {
        let main_method = match self.methods.get(Type::Object(main_type), "main") {
            Some(method) => method,
            None => {
                return Err(Error::MissingEntryPoint);
            },
        };
        let this = Value::Object(Rc::new(Object { class: main_type, properties: HashMap::new() }));
        let arguments: Vec<Value> = Vec::new();
        proof {
            assert(properties_view(Map::<String, Value>::empty()) =~= Map::<
                Seq<char>,
                ValueView,
            >::empty());
            assert(this@ == fresh_object(main_type));
            assert(values_view(arguments@) =~= Seq::<ValueView>::empty());
        }
        match self.invoke_method(&main_method, this, arguments) {
            Ok(_) => Ok(()),
            Err(error) => Err(error),
        }
    }

    /// The number of classes registered so far.
    pub fn class_count(&self) -> (count: usize)
        ensures
            count == self@.class_count,
    {
        self.class_id_counter
    }

    /// The number of bindings in force.
    pub fn stack_depth(&self) -> (depth: usize)
        ensures
            depth == self@.stack.len(),
    {
        self.local_variables.len()
    }

    /// The lines written by `println` so far, oldest first.
    pub fn output(&self) -> (lines: &Vec<String>)
        ensures
            lines.deep_view() == self@.output,
    {
        &self.output
    }

    /// Runs a method of the evaluator's own.
    fn invoke_builtin(
        &mut self,
        method: BuiltinMethod,
        this: &Value,
        arguments: &Vec<Value>,
    ) -> (result: Result<Value, Error>)
        ensures
            ({
                let o = builtin(
                    method,
                    this@,
                    values_view(arguments@),
                    old(self)@.stack,
                    old(self)@.output,
                );
                &&& result_view(result) == o.result
                &&& final(self)@ == VMView { stack: o.stack, output: o.output, ..old(self)@ }
            }),
    {
        let text = match this {
            Value::String(text) => text,
            _ => {
                return Err(Error::TypeMismatch);
            },
        };
        match method {
            BuiltinMethod::Println => {
                self.output.push(text.clone());
                assert(self.output.deep_view() =~= old(self).output.deep_view().push(text@));
                Ok(Value::Unit)
            },
            BuiltinMethod::Concat => {
                let ghost values = values_view(arguments@);
                let mut whole = text.clone();
                let mut at: usize = 0;
                while at < arguments.len()
                    invariant
                        at <= arguments.len(),
                        self@ == old(self)@,
                        method == BuiltinMethod::Concat,
                        this@ == ValueView::String(text@),
                        values == values_view(arguments@),
                        all_strings(values.take(at as int)),
                        whole@ == text@ + joined(values.take(at as int)),
                    decreases arguments.len() - at,
                {
                    proof {
                        assert(values.take(at + 1).drop_last() =~= values.take(at as int));
                        assert(values.take(at + 1).last() == arguments@[at as int]@);
                    }
                    match &arguments[at] {
                        Value::String(argument) => {
                            whole.append(argument.as_str());
                            assert(whole@ =~= text@ + joined(values.take(at + 1)));
                        },
                        _ => {
                            assert(!(values[at as int] is String));
                            return Err(Error::TypeMismatch);
                        },
                    }
                    at += 1;
                }
                assert(values.take(at as int) =~= values);
                Ok(Value::String(whole))
            },
        }
    }

    /// Invokes `method` on the receiver `this` with `arguments`.
    ///
    /// A user-defined method sees the receiver and then the arguments as its
    /// innermost bindings. Once it returns, with a value or with a failure,
    /// the bindings are exactly those in force before the call.
    pub fn invoke_method(&mut self, method: &Method, this: Value, arguments: Vec<Value>) -> (result:
        Result<Value, Error>)
        ensures
            ({
                let o = invoke(
                    old(self)@.methods,
                    old(self)@.stack,
                    old(self)@.output,
                    method@,
                    this@,
                    values_view(arguments@),
                    old(self)@.call_budget,
                );
                &&& result_view(result) == o.result
                &&& final(self)@ == VMView { output: o.output, ..old(self)@ }
            }),
        decreases old(self)@.call_budget, 0nat, method, 0nat,
    {
        match method {
            Method::Builtin(builtin) => self.invoke_builtin(*builtin, &this, &arguments),
            Method::Custom { body } => {
                if self.call_budget == 0 {
                    return Err(Error::CallDepthExceeded);
                }
                let ghost stack = self@.stack;
                let ghost entered = stack.push(this@) + values_view(arguments@);
                let local_variable_count = self.local_variables.len();
                let mut arguments = arguments;
                self.local_variables.push(this);
                self.local_variables.append(&mut arguments);
                assert(self@.stack =~= entered);
                self.call_budget = self.call_budget - 1;
                let result = self.evaluate_expression(body);
                self.call_budget = self.call_budget + 1;
                proof {
                    lemma_eval_keeps_outer_bindings(
                        old(self)@.methods,
                        entered,
                        old(self)@.output,
                        body@,
                        (old(self)@.call_budget - 1) as nat,
                    );
                    assert(stack.is_prefix_of(entered));
                }
                let ghost left = self@.stack;
                self.local_variables.truncate(local_variable_count);
                assert(self@.stack =~= stack) by {
                    assert(self@.stack =~= left.subrange(0, stack.len() as int));
                    assert(entered =~= left.subrange(0, entered.len() as int));
                    assert forall|i: int| 0 <= i < stack.len() implies stack[i] == left[i] by {
                        assert(entered[i] == left.subrange(0, entered.len() as int)[i]);
                    }
                }
                result
            },
        }
    }

    /// Evaluates the expressions of a sequence in order, each with the
    /// bindings in force, and stops at the first that fails.
    fn evaluate_each(&mut self, expressions: &Vec<Expression>) -> (result: Result<
        Vec<Value>,
        Error,
    >)
        ensures
            ({
                let o = eval_all(
                    old(self)@.methods,
                    old(self)@.stack,
                    old(self)@.output,
                    of_views(expressions@),
                    0,
                    old(self)@.call_budget,
                );
                &&& match result {
                    Ok(values) => o.result == Ok::<Seq<ValueView>, ErrorView>(values_view(values@)),
                    Err(error) => o.result == Err::<Seq<ValueView>, ErrorView>(error@),
                }
                &&& final(self)@ == VMView { stack: o.stack, output: o.output, ..old(self)@ }
            }),
            result is Ok ==> final(self)@.stack == old(self)@.stack,
        decreases old(self)@.call_budget, 1nat, expressions, expressions.len(),
    {
        let ghost table = self@.methods;
        let ghost stack = self@.stack;
        let ghost budget = self@.call_budget;
        let ghost es = of_views(expressions@);
        let ghost whole = eval_all(table, stack, self@.output, es, 0, budget);
        let mut values: Vec<Value> = Vec::new();
        let mut at: usize = 0;
        proof {
            assert(Seq::<ValueView>::empty() + whole.result->Ok_0 =~= whole.result->Ok_0);
        }
        while at < expressions.len()
            invariant
                at <= expressions.len(),
                es == of_views(expressions@),
                self@ == (VMView { output: self@.output, ..old(self)@ }),
                table == old(self)@.methods,
                stack == old(self)@.stack,
                budget == old(self)@.call_budget,
                whole == eval_all(table, stack, old(self)@.output, es, 0, budget),
                whole == after(
                    values_view(values@),
                    eval_all(table, stack, self@.output, es, at as int, budget),
                ),
            decreases expressions.len() - at,
        {
            proof {
                lemma_eval_all_step(
                    table,
                    stack,
                    self@.output,
                    es,
                    at as int,
                    budget,
                    values_view(values@),
                );
            }
            let ghost before = values_view(values@);
            match self.evaluate_expression(&expressions[at]) {
                Ok(value) => {
                    let ghost head = value@;
                    values.push(value);
                    assert(values_view(values@) =~= before.push(head));
                },
                Err(error) => {
                    return Err(error);
                },
            }
            at += 1;
        }
        proof {
            lemma_eval_all_done(table, stack, self@.output, es, budget, values_view(values@));
        }
        Ok(values)
    }

    /// Evaluates `expression` with the bindings in force.
    ///
    /// The receiver of a method call is evaluated first, then the method is
    /// looked up under the receiver's runtime type, then the arguments are
    /// evaluated from left to right, then the method is invoked. Failures are
    /// never recovered from: [`Error::NoSuchMethod`] where the lookup finds
    /// nothing, [`Error::IndexOutOfRange`] where a variable index reaches
    /// beyond the bindings, [`Error::TypeMismatch`] where a condition is no
    /// boolean, and whatever a part or a called method fails with.
    pub fn evaluate_expression(&mut self, expression: &Expression) -> (result: Result<Value, Error>)
        ensures
            ({
                let o = eval(
                    old(self)@.methods,
                    old(self)@.stack,
                    old(self)@.output,
                    expression@,
                    old(self)@.call_budget,
                );
                &&& result_view(result) == o.result
                &&& final(self)@ == VMView { stack: o.stack, output: o.output, ..old(self)@ }
            }),
            result is Ok ==> final(self)@.stack == old(self)@.stack,
        decreases old(self)@.call_budget, 1nat, expression, 0nat,
    {
        let ghost table = self@.methods;
        let ghost stack = self@.stack;
        let ghost budget = self@.call_budget;
        proof {
            lemma_eval_ok_keeps_bindings(table, stack, self@.output, expression@, budget);
        }
        match expression {
            Of::Literal(value) => Ok(value.clone()),
            Of::MethodCall { name, this, arguments } => {
                let receiver = match self.evaluate_expression(this) {
                    Ok(receiver) => receiver,
                    Err(error) => {
                        return Err(error);
                    },
                };
                let receiver_type = receiver.typ();
                let method = match self.methods.get(receiver_type, name.as_str()) {
                    Some(method) => method,
                    None => {
                        return Err(Error::NoSuchMethod(receiver_type, name.clone()));
                    },
                };
                let values = match self.evaluate_each(arguments) {
                    Ok(values) => values,
                    Err(error) => {
                        return Err(error);
                    },
                };
                proof {
                    lemma_invoke_restores_bindings(
                        table,
                        stack,
                        self@.output,
                        method@,
                        receiver@,
                        values_view(values@),
                        budget,
                    );
                }
                self.invoke_method(&method, receiver, values)
            },
            Of::LocalVariable { name_or_de_bruijn_index: index } => {
                let count = self.local_variables.len();
                if *index < count {
                    Ok(self.local_variables[count - 1 - *index].clone())
                } else {
                    Err(Error::IndexOutOfRange)
                }
            },
            Of::LetIn { name: _, bound, body } => {
                let bound = match self.evaluate_expression(bound) {
                    Ok(bound) => bound,
                    Err(error) => {
                        return Err(error);
                    },
                };
                let ghost value = bound@;
                self.local_variables.push(bound);
                assert(self@.stack =~= stack.push(value));
                let result = match self.evaluate_expression(body) {
                    Ok(result) => result,
                    Err(error) => {
                        return Err(error);
                    },
                };
                let ghost extended = self@.stack;
                self.local_variables.pop();
                assert(self@.stack =~= extended.drop_last());
                assert(self@.stack =~= stack);
                Ok(result)
            },
            Of::IfThenElse { condition, if_true, if_false } => {
                let condition = match self.evaluate_expression(condition) {
                    Ok(condition) => condition,
                    Err(error) => {
                        return Err(error);
                    },
                };
                match condition {
                    Value::Bool(true) => self.evaluate_expression(if_true),
                    Value::Bool(false) => self.evaluate_expression(if_false),
                    _ => Err(Error::TypeMismatch),
                }
            },
            Of::Do(steps) => {
                let mut values = match self.evaluate_each(steps) {
                    Ok(values) => values,
                    Err(error) => {
                        return Err(error);
                    },
                };
                match values.pop() {
                    Some(last) => Ok(last),
                    None => Ok(Value::Unit),
                }
            },
        }
    }
}

} // verus!
