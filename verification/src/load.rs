//! What loading a program means: which methods it adds to the dispatch table
//! and which handle each class receives.

use crate::error::ErrorView;
use crate::expression::ExpressionView;
use crate::method::{Dispatch, MethodView};
use crate::program::{ClassMethodView, ClassView};
use crate::resolve::resolve;
use crate::typ::Type;
use crate::vm::ClassID;
use vstd::prelude::*;

verus! {

/// The names bound on entry to a method body: the receiver `this`, then the
/// parameters in declaration order. The last parameter is thus the innermost
/// binding and the receiver the outermost.
pub open spec fn initial_scope(parameters: Seq<Seq<char>>) -> Seq<Seq<char>> {
    seq!["this"@] + parameters
}

/// The body of a method, resolved against its initial scope.
pub open spec fn resolve_method(method: ClassMethodView) -> Result<ExpressionView, ErrorView> {
    resolve(method.body, initial_scope(method.parameters)).result
}

/// The failure of the first of `methods[from..]` whose body does not resolve.
pub open spec fn first_failure_in(methods: Seq<ClassMethodView>, from: int) -> Option<ErrorView>
    decreases methods.len() - from,
{
    if from < 0 || from >= methods.len() {
        None
    } else {
        match resolve_method(methods[from]) {
            Err(error) => Some(error),
            Ok(_) => first_failure_in(methods, from + 1),
        }
    }
}

/// The failure of the first method, in source order, of `classes[from..]`
/// whose body does not resolve.
pub open spec fn first_failure(classes: Seq<ClassView>, from: int) -> Option<ErrorView>
    decreases classes.len() - from,
{
    if from < 0 || from >= classes.len() {
        None
    } else {
        match first_failure_in(classes[from].methods, 0) {
            Some(error) => Some(error),
            None => first_failure(classes, from + 1),
        }
    }
}

/// `table` after the first `count` of `methods` were registered on `typ`, in
/// order: a later method replaces an earlier one of the same name.
pub open spec fn with_methods(
    table: Dispatch,
    typ: Type,
    methods: Seq<ClassMethodView>,
    count: int,
) -> Dispatch
    decreases count,
{
    if count <= 0 {
        table
    } else {
        with_methods(table, typ, methods, count - 1).insert(
            (typ, methods[count - 1].name),
            MethodView::Custom { body: resolve_method(methods[count - 1])->Ok_0 },
        )
    }
}

/// `table` after the first `count` of `classes` were registered, in order,
/// where `registered` classes existed before: the class at position `i`
/// receives the handle numbered `registered + 1 + i`, and its methods are
/// registered on the object type of that handle.
pub open spec fn with_classes(
    table: Dispatch,
    registered: nat,
    classes: Seq<ClassView>,
    count: int,
) -> Dispatch
    decreases count,
{
    if count <= 0 {
        table
    } else {
        with_methods(
            with_classes(table, registered, classes, count - 1),
            Type::Object(ClassID::numbered((registered + count) as nat)),
            classes[count - 1].methods,
            classes[count - 1].methods.len() as int,
        )
    }
}

/// The handles of the first `count` of `classes` by class name, where
/// `registered` classes existed before. Of two classes of one name the later
/// keeps the name.
pub open spec fn class_ids(registered: nat, classes: Seq<ClassView>, count: int) -> Map<
    Seq<char>,
    ClassID,
>
    decreases count,
{
    if count <= 0 {
        Map::empty()
    } else {
        class_ids(registered, classes, count - 1).insert(
            classes[count - 1].name,
            ClassID::numbered((registered + count) as nat),
        )
    }
}

/// Where the methods `methods[from..at]` all resolve, the first failure from
/// `from` on is the first failure from `at` on.
pub proof fn lemma_first_failure_in_skip(methods: Seq<ClassMethodView>, from: int, at: int)
    requires
        0 <= from <= at <= methods.len(),
        forall|i: int| from <= i < at ==> (#[trigger] resolve_method(methods[i])) is Ok,
    ensures
        first_failure_in(methods, from) == first_failure_in(methods, at),
    decreases at - from,
{
    if from < at {
        lemma_first_failure_in_skip(methods, from + 1, at);
    }
}

/// Where no method of the classes `classes[from..at]` fails to resolve, the
/// first failure from `from` on is the first failure from `at` on.
pub proof fn lemma_first_failure_skip(classes: Seq<ClassView>, from: int, at: int)
    requires
        0 <= from <= at <= classes.len(),
        forall|i: int|
            from <= i < at ==> (#[trigger] first_failure_in(classes[i].methods, 0)) is None,
    ensures
        first_failure(classes, from) == first_failure(classes, at),
    decreases at - from,
{
    if from < at {
        lemma_first_failure_skip(classes, from + 1, at);
    }
}

} // verus!
