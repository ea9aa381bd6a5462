use crate::expression::{Expression, ExpressionView};
use crate::share::share;
use crate::typ::Type;
use crate::vm::ClassID;
use std::collections::HashMap;
use std::rc::Rc;
use vstd::hash_map::StringHashMap;
use vstd::prelude::*;
use vstd::std_specs::hash::group_hash_axioms;

verus! {

broadcast use group_hash_axioms;

/// The methods that the evaluator implements itself.
#[derive(Debug, Clone, Copy, PartialEq, Eq, Structural)]
pub enum BuiltinMethod {
    /// On a string: writes the receiver as one line of output; yields unit.
    Println,
    /// On a string: the receiver followed by every argument, all of which
    /// must be strings.
    Concat,
}

/// What a method name stands for: a method of the evaluator's own or an
/// expression of the program, evaluated with the receiver and the arguments
/// as its innermost bindings.
#[derive(Debug)]
pub enum Method {
    Builtin(BuiltinMethod),
    Custom { body: Expression },
}

/// The mathematical content of a [`Method`].
pub enum MethodView {
    Builtin(BuiltinMethod),
    Custom { body: ExpressionView },
}

impl View for Method {
    type V = MethodView;

    open spec fn view(&self) -> MethodView {
        match self {
            Method::Builtin(builtin) => MethodView::Builtin(*builtin),
            Method::Custom { body } => MethodView::Custom { body: body@ },
        }
    }
}

/// The mathematical content of a [`MethodTable`]: the method that each pair
/// of a type and a name selects.
pub type Dispatch = Map<(Type, Seq<char>), MethodView>;

/// The number under which the methods of a type are kept.
pub open spec fn type_key(typ: Type) -> u128 {
    match typ {
        Type::Unit => 0,
        Type::Bool => 1,
        Type::I32 => 2,
        Type::String => 3,
        Type::Object(class) => (class.number() + 4) as u128,
    }
}

/// Different types are kept under different numbers.
pub proof fn lemma_type_key_injective(a: Type, b: Type)
    requires
        type_key(a) == type_key(b),
    ensures
        a == b,
{
    if let Type::Object(x) = a {
        x.lemma_number_bounded();
    }
    if let Type::Object(y) = b {
        y.lemma_number_bounded();
    }
    if let Type::Object(x) = a {
        if let Type::Object(y) = b {
            ClassID::lemma_number_injective(x, y);
        }
    }
}

fn key_of(typ: Type) -> (key: u128)
    ensures
        key == type_key(typ),
{
    match typ {
        Type::Unit => 0,
        Type::Bool => 1,
        Type::I32 => 2,
        Type::String => 3,
        Type::Object(class) => class.index() as u128 + 4,
    }
}

/// The dispatch table: for each runtime type, its methods by name.
pub struct MethodTable {
    by_type: HashMap<u128, StringHashMap<Rc<Method>>>,
}

impl View for MethodTable {
    type V = Dispatch;

    closed spec fn view(&self) -> Dispatch {
        Map::new(
            |selector: (Type, Seq<char>)|
                self.by_type@.contains_key(type_key(selector.0))
                    && self.by_type@[type_key(selector.0)]@.contains_key(selector.1),
            |selector: (Type, Seq<char>)| self.by_type@[type_key(selector.0)]@[selector.1]@,
        )
    }
}

impl MethodTable {
    /// A table without methods.
    pub fn new() -> (table: Self)
        ensures
            table@ == Map::<(Type, Seq<char>), MethodView>::empty(),
    {
        let table = MethodTable { by_type: HashMap::new() };
        assert(table@ =~= Map::<(Type, Seq<char>), MethodView>::empty());
        table
    }

    /// Makes `name` on `typ` stand for `method`, in place of what it stood
    /// for before, if anything.
    pub fn insert(&mut self, typ: Type, name: String, method: Method)
        ensures
            final(self)@ == old(self)@.insert((typ, name@), method@),
    {
        let key = key_of(typ);
        let mut methods = match self.by_type.remove(&key) {
            Some(methods) => methods,
            None => StringHashMap::new(),
        };
        methods.insert(name, Rc::new(method));
        self.by_type.insert(key, methods);
        proof {
            assert forall|selector: (Type, Seq<char>)|
                type_key(selector.0) == key implies selector.0 == typ by {
                lemma_type_key_injective(selector.0, typ);
            }
            assert(self@ =~= old(self)@.insert((typ, name@), method@));
        }
    }

    /// Looks up the method that `name` stands for on `typ`.
    pub fn get(&self, typ: Type, name: &str) -> (found: Option<Rc<Method>>)
        ensures
            match found {
                Some(method) => self@.contains_key((typ, name@)) && method@ == self@[(typ, name@)],
                None => !self@.contains_key((typ, name@)),
            },
    {
        let key = key_of(typ);
        match self.by_type.get(&key) {
            Some(methods) => match methods.get(name) {
                Some(method) => Some(share(method)),
                None => None,
            },
            None => None,
        }
    }
}

/// The methods that exist before any class is loaded: `println` and `concat`
/// on strings.
pub open spec fn default_dispatch() -> Dispatch {
    Map::<(Type, Seq<char>), MethodView>::empty().insert(
        (Type::String, "println"@),
        MethodView::Builtin(BuiltinMethod::Println),
    ).insert((Type::String, "concat"@), MethodView::Builtin(BuiltinMethod::Concat))
}

/// Builds the table of the methods that exist before any class is loaded.
pub fn default_methods() -> (table: MethodTable)
    ensures
        table@ == default_dispatch(),
{
    let mut table = MethodTable::new();
    table.insert(Type::String, "println".to_owned(), Method::Builtin(BuiltinMethod::Println));
    table.insert(Type::String, "concat".to_owned(), Method::Builtin(BuiltinMethod::Concat));
    table
}

} // verus!
