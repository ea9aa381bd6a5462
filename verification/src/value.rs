use crate::object::{Object, ObjectView};
use crate::share::share;
use crate::typ::Type;
use std::rc::Rc;
use vstd::prelude::*;

verus! {

/// A runtime value. Object values share their instance: cloning a value never
/// copies the instance it refers to.
#[derive(Debug)]
pub enum Value {
    Object(Rc<Object>),
    Unit,
    Bool(bool),
    I32(i32),
    String(String),
}

/// The mathematical content of a [`Value`].
pub enum ValueView {
    Object(ObjectView),
    Unit,
    Bool(bool),
    I32(i32),
    String(Seq<char>),
}

/// The content of a property map, with each name read as its text.
pub open spec fn properties_view(m: Map<String, Value>) -> Map<Seq<char>, ValueView>
    decreases m,
{
    Map::new(
        |k: Seq<char>| exists|s: String| #[trigger] m.contains_key(s) && s@ == k,
        |k: Seq<char>|
            {
                let s = choose|s: String| #[trigger] m.contains_key(s) && s@ == k;
                if m.dom().finite() && m.contains_key(s) {
                    value_view(m[s])
                } else {
                    ValueView::Unit
                }
            },
    )
}

/// The content of a value.
pub open spec fn value_view(v: Value) -> ValueView
    decreases v,
{
    match v {
        Value::Object(object) => ValueView::Object(
            ObjectView { class: object.class, properties: properties_view(object.properties@) },
        ),
        Value::Unit => ValueView::Unit,
        Value::Bool(b) => ValueView::Bool(b),
        Value::I32(n) => ValueView::I32(n),
        Value::String(s) => ValueView::String(s@),
    }
}

impl View for Value {
    type V = ValueView;

    open spec fn view(&self) -> ValueView {
        value_view(*self)
    }
}

impl ValueView {
    /// The runtime type of a value, read off its own tag; for an object, the
    /// type of its class.
    pub open spec fn typ(self) -> Type {
        match self {
            ValueView::Object(object) => Type::Object(object.class),
            ValueView::Unit => Type::Unit,
            ValueView::Bool(_) => Type::Bool,
            ValueView::I32(_) => Type::I32,
            ValueView::String(_) => Type::String,
        }
    }
}

impl Value {
    /// Computes the runtime type of the value from its tag.
    pub fn typ(&self) -> (t: Type)
        ensures
            t == self@.typ(),
    {
        match self {
            Value::Object(object) => Type::Object(object.class),
            Value::Unit => Type::Unit,
            Value::Bool(_) => Type::Bool,
            Value::I32(_) => Type::I32,
            Value::String(_) => Type::String,
        }
    }
}

impl Clone for Value {
    /// Copies the value. An object value is shared, not copied: the clone
    /// refers to the same instance.
    fn clone(&self) -> (copy: Self)
        ensures
            copy@ == self@,
    {
        match self {
            Value::Object(object) => Value::Object(share(object)),
            Value::Unit => Value::Unit,
            Value::Bool(b) => Value::Bool(*b),
            Value::I32(n) => Value::I32(*n),
            Value::String(s) => Value::String(s.clone()),
        }
    }
}

} // verus!
