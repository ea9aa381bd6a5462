use crate::error::{result_view, Error, ErrorView};
use crate::expression::{of_views, Expression, ExpressionView, NamedView, Of, OfView};
use vstd::prelude::*;

verus! {

/// Turns named expressions into indexed ones. `local_variables` holds the
/// names that are bound where the expression stands, innermost last.
pub struct Resolver {
    pub local_variables: Vec<String>,
}

/// The number of bindings that lie between the innermost end of `scope` and
/// the nearest binding of `name`; `None` where `scope` does not bind `name`.
pub open spec fn innermost(scope: Seq<Seq<char>>, name: Seq<char>) -> Option<nat>
    decreases scope.len(),
{
    if scope.len() == 0 {
        None
    } else if scope.last() == name {
        Some(0nat)
    } else {
        match innermost(scope.drop_last(), name) {
            Some(distance) => Some(distance + 1),
            None => None,
        }
    }
}

/// What resolving one expression yields: the indexed expression or the
/// failure, and the scope as resolution leaves it. After a success that is
/// the scope it started from; after a failure it is the scope in which the
/// unbound variable was met.
pub struct Resolution {
    pub result: Result<ExpressionView, ErrorView>,
    pub scope: Seq<Seq<char>>,
}

/// What resolving a sequence of expressions yields.
pub struct Resolutions {
    pub result: Result<Seq<ExpressionView>, ErrorView>,
    pub scope: Seq<Seq<char>>,
}

/// Resolution of `e` where the names of `scope` are bound, innermost last.
///
/// A variable becomes the distance to its nearest binding. `let` resolves the
/// bound expression outside its own binding and the body inside it. All other
/// forms resolve their parts in the scope they stand in, left to right, and
/// fail as the first part that fails.
pub open spec fn resolve(e: NamedView, scope: Seq<Seq<char>>) -> Resolution
    decreases e, 0nat,
{
    match e {
        OfView::Literal(value) => Resolution { result: Ok(OfView::Literal(value)), scope },
        OfView::MethodCall { name, this, arguments } => {
            let receiver = resolve(*this, scope);
            match receiver.result {
                Err(_) => receiver,
                Ok(this) => {
                    let rest = resolve_all(arguments, scope, 0);
                    match rest.result {
                        Err(error) => Resolution { result: Err(error), scope: rest.scope },
                        Ok(arguments) => Resolution {
                            result: Ok(
                                OfView::MethodCall { name, this: Box::new(this), arguments },
                            ),
                            scope,
                        },
                    }
                },
            }
        },
        OfView::LocalVariable { name_or_de_bruijn_index: name } => match innermost(scope, name) {
            Some(distance) => Resolution {
                result: Ok(OfView::LocalVariable { name_or_de_bruijn_index: distance as usize }),
                scope,
            },
            None => Resolution { result: Err(ErrorView::UnboundVariable(name)), scope },
        },
        OfView::LetIn { name, bound, body } => {
            let outer = resolve(*bound, scope);
            match outer.result {
                Err(_) => outer,
                Ok(bound) => {
                    let inner = resolve(*body, scope.push(name));
                    match inner.result {
                        Err(_) => inner,
                        Ok(body) => Resolution {
                            result: Ok(
                                OfView::LetIn {
                                    name: (),
                                    bound: Box::new(bound),
                                    body: Box::new(body),
                                },
                            ),
                            scope,
                        },
                    }
                },
            }
        },
        OfView::IfThenElse { condition, if_true, if_false } => {
            let first = resolve(*condition, scope);
            match first.result {
                Err(_) => first,
                Ok(condition) => {
                    let second = resolve(*if_true, scope);
                    match second.result {
                        Err(_) => second,
                        Ok(if_true) => {
                            let third = resolve(*if_false, scope);
                            match third.result {
                                Err(_) => third,
                                Ok(if_false) => Resolution {
                                    result: Ok(
                                        OfView::IfThenElse {
                                            condition: Box::new(condition),
                                            if_true: Box::new(if_true),
                                            if_false: Box::new(if_false),
                                        },
                                    ),
                                    scope,
                                },
                            }
                        },
                    }
                },
            }
        },
        OfView::Do(steps) => {
            let all = resolve_all(steps, scope, 0);
            match all.result {
                Err(error) => Resolution { result: Err(error), scope: all.scope },
                Ok(steps) => Resolution { result: Ok(OfView::Do(steps)), scope },
            }
        },
    }
}

/// Resolution of the expressions `es[from..]`, each in `scope`, in order.
pub open spec fn resolve_all(es: Seq<NamedView>, scope: Seq<Seq<char>>, from: int) -> Resolutions
    decreases es, es.len() - from,
{
    if from < 0 || from >= es.len() {
        Resolutions { result: Ok(Seq::empty()), scope }
    } else {
        let first = resolve(es[from], scope);
        match first.result {
            Err(error) => Resolutions { result: Err(error), scope: first.scope },
            Ok(head) => {
                let rest = resolve_all(es, scope, from + 1);
                match rest.result {
                    Err(_) => rest,
                    Ok(tail) => Resolutions { result: Ok(seq![head] + tail), scope },
                }
            },
        }
    }
}

/// A scope binds `name` at distance `distance` from its innermost end and
/// nowhere nearer.
pub proof fn lemma_innermost_found(scope: Seq<Seq<char>>, name: Seq<char>, distance: nat)
    requires
        distance < scope.len(),
        scope[scope.len() - 1 - distance] == name,
        forall|i: int| scope.len() - distance <= i < scope.len() ==> scope[i] != name,
    ensures
        innermost(scope, name) == Some(distance),
    decreases scope.len(),
{
    if distance > 0 {
        lemma_innermost_found(scope.drop_last(), name, (distance - 1) as nat);
    }
}

/// A scope none of whose names is `name` does not bind it.
pub proof fn lemma_innermost_absent(scope: Seq<Seq<char>>, name: Seq<char>)
    requires
        forall|i: int| 0 <= i < scope.len() ==> scope[i] != name,
    ensures
        innermost(scope, name) is None,
    decreases scope.len(),
{
    if scope.len() > 0 {
        lemma_innermost_absent(scope.drop_last(), name);
    }
}

/// Where every expression of `es[from..]` resolves, the sequence resolves to
/// their results in order.
pub proof fn lemma_resolve_all_ok(es: Seq<NamedView>, scope: Seq<Seq<char>>, from: int)
    requires
        0 <= from <= es.len(),
        forall|i: int| from <= i < es.len() ==> (#[trigger] resolve(es[i], scope)).result is Ok,
    ensures
        resolve_all(es, scope, from).scope == scope,
        resolve_all(es, scope, from).result == Ok::<Seq<ExpressionView>, ErrorView>(
            Seq::new(
                (es.len() - from) as nat,
                |i: int| resolve(es[from + i], scope).result->Ok_0,
            ),
        ),
    decreases es.len() - from,
{
    let expected = Seq::new(
        (es.len() - from) as nat,
        |i: int| resolve(es[from + i], scope).result->Ok_0,
    );
    if from < es.len() {
        lemma_resolve_all_ok(es, scope, from + 1);
        let head = resolve(es[from], scope).result->Ok_0;
        let tail = resolve_all(es, scope, from + 1).result->Ok_0;
        assert(seq![head] + tail =~= expected);
    } else {
        assert(expected =~= Seq::empty());
    }
}

/// Where `es[at]` is the first expression of `es[from..]` that does not
/// resolve, the sequence fails as that expression does.
pub proof fn lemma_resolve_all_err(
    es: Seq<NamedView>,
    scope: Seq<Seq<char>>,
    from: int,
    at: int,
)
    requires
        0 <= from <= at < es.len(),
        forall|i: int| from <= i < at ==> (#[trigger] resolve(es[i], scope)).result is Ok,
        resolve(es[at], scope).result is Err,
    ensures
        resolve_all(es, scope, from).scope == resolve(es[at], scope).scope,
        resolve_all(es, scope, from).result == Err::<Seq<ExpressionView>, ErrorView>(
            resolve(es[at], scope).result->Err_0,
        ),
    decreases at - from,
{
    if from < at {
        assert(resolve(es[from], scope).result is Ok);
        lemma_resolve_all_err(es, scope, from + 1, at);
    }
}

/// A successful resolution leaves the scope as it found it.
pub proof fn lemma_resolve_ok_keeps_scope(e: NamedView, scope: Seq<Seq<char>>)
    ensures
        resolve(e, scope).result is Ok ==> resolve(e, scope).scope == scope,
{
}

/// A successful resolution of a sequence leaves the scope as it found it.
pub proof fn lemma_resolve_all_ok_keeps_scope(es: Seq<NamedView>, scope: Seq<Seq<char>>, from: int)
    ensures
        resolve_all(es, scope, from).result is Ok ==> resolve_all(es, scope, from).scope == scope,
{
}

impl Resolver {
    /// The names in scope, innermost last, each read as its text.
    pub open spec fn scope(&self) -> Seq<Seq<char>> {
        self.local_variables.deep_view()
    }

    /// Finds the nearest binding of `name`, counted from the innermost.
    fn find(&self, name: &String) -> (found: Option<usize>)
        ensures
            match found {
                Some(distance) => innermost(self.scope(), name@) == Some(distance as nat),
                None => innermost(self.scope(), name@) is None,
            },
    {
        let count = self.local_variables.len();
        let mut distance: usize = 0;
        while distance < count
            invariant
                count == self.local_variables.len(),
                distance <= count,
                forall|i: int| count - distance <= i < count ==> self.scope()[i] != name@,
            decreases count - distance,
        {
            if self.local_variables[count - 1 - distance] == *name {
                proof {
                    lemma_innermost_found(self.scope(), name@, distance as nat);
                }
                return Some(distance);
            }
            distance += 1;
        }
        proof {
            lemma_innermost_absent(self.scope(), name@);
        }
        None
    }

    /// Resolves each expression of a sequence in the current scope, in order,
    /// and stops at the first that fails.
    fn resolve_each(&mut self, expressions: Vec<Of<String, String>>) -> (result: Result<
        Vec<Expression>,
        Error,
    >)
        ensures
            match result {
                Ok(resolved) => resolve_all(of_views(expressions@), old(self).scope(), 0).result
                    == Ok::<Seq<ExpressionView>, ErrorView>(of_views(resolved@)),
                Err(error) => resolve_all(of_views(expressions@), old(self).scope(), 0).result
                    == Err::<Seq<ExpressionView>, ErrorView>(error@),
            },
            final(self).scope() == resolve_all(of_views(expressions@), old(self).scope(), 0).scope,
            result is Ok ==> final(self).scope() == old(self).scope(),
        decreases expressions, 1nat,
    {
        let ghost es = of_views(expressions@);
        let ghost scope = self.scope();
        let mut resolved: Vec<Expression> = Vec::new();
        for expression in it: expressions
            invariant
                it.seq() == expressions@,
                es == of_views(expressions@),
                scope == old(self).scope(),
                self.scope() == scope,
                resolved.len() == it.index(),
                forall|i: int|
                    0 <= i < it.index() ==> (#[trigger] resolve(es[i], scope)).result == Ok::<
                        ExpressionView,
                        ErrorView,
                    >(resolved[i]@),
        {
            let ghost at = it.index() as int;
            match self.resolve_expression(expression) {
                Ok(indexed) => {
                    resolved.push(indexed);
                },
                Err(error) => {
                    proof {
                        lemma_resolve_all_err(es, scope, 0, at);
                    }
                    return Err(error);
                },
            }
        }
        proof {
            lemma_resolve_all_ok(es, scope, 0);
            assert(of_views(resolved@) =~= Seq::new(
                (es.len() - 0) as nat,
                |i: int| resolve(es[0 + i], scope).result->Ok_0,
            ));
        }
        Ok(resolved)
    }

    /// Resolves `expression` in the current scope: every variable name becomes
    /// the distance to its nearest enclosing binding, and binders lose their
    /// names.
    ///
    /// Fails with [`Error::UnboundVariable`] at the first variable, in reading
    /// order, that nothing binds. On success the scope is left as it was; on
    /// failure it is left as it stood where that variable was met.
    pub fn resolve_expression(&mut self, expression: Of<String, String>) -> (result: Result<
        Expression,
        Error,
    >)
        ensures
            result_view(result) == resolve(expression@, old(self).scope()).result,
            final(self).scope() == resolve(expression@, old(self).scope()).scope,
            result is Ok ==> final(self).scope() == old(self).scope(),
        decreases expression, 0nat,
    {
        let ghost scope = self.scope();
        match expression {
            Of::Literal(value) => Ok(Of::Literal(value)),
            Of::MethodCall { name, this, arguments } => {
                let this = match self.resolve_expression(*this) {
                    Ok(this) => this,
                    Err(error) => {
                        return Err(error);
                    },
                };
                let arguments = match self.resolve_each(arguments) {
                    Ok(arguments) => arguments,
                    Err(error) => {
                        return Err(error);
                    },
                };
                Ok(Of::MethodCall { name, this: Box::new(this), arguments })
            },
            Of::LocalVariable { name_or_de_bruijn_index: name } => match self.find(&name) {
                Some(distance) => Ok(Of::LocalVariable { name_or_de_bruijn_index: distance }),
                None => Err(Error::UnboundVariable(name)),
            },
            Of::LetIn { name, bound, body } => {
                let bound = match self.resolve_expression(*bound) {
                    Ok(bound) => bound,
                    Err(error) => {
                        return Err(error);
                    },
                };
                let ghost binder = name@;
                self.local_variables.push(name);
                assert(self.scope() =~= scope.push(binder));
                let body = match self.resolve_expression(*body) {
                    Ok(body) => body,
                    Err(error) => {
                        return Err(error);
                    },
                };
                let ghost extended = self.local_variables;
                self.local_variables.pop();
                assert(self.scope() =~= extended.deep_view().drop_last());
                Ok(Of::LetIn { name: (), bound: Box::new(bound), body: Box::new(body) })
            },
            Of::IfThenElse { condition, if_true, if_false } => {
                let condition = match self.resolve_expression(*condition) {
                    Ok(condition) => condition,
                    Err(error) => {
                        return Err(error);
                    },
                };
                let if_true = match self.resolve_expression(*if_true) {
                    Ok(if_true) => if_true,
                    Err(error) => {
                        return Err(error);
                    },
                };
                let if_false = match self.resolve_expression(*if_false) {
                    Ok(if_false) => if_false,
                    Err(error) => {
                        return Err(error);
                    },
                };
                Ok(
                    Of::IfThenElse {
                        condition: Box::new(condition),
                        if_true: Box::new(if_true),
                        if_false: Box::new(if_false),
                    },
                )
            },
            Of::Do(steps) => {
                let steps = match self.resolve_each(steps) {
                    Ok(steps) => steps,
                    Err(error) => {
                        return Err(error);
                    },
                };
                Ok(Of::Do(steps))
            },
        }
    }
}

} // verus!
