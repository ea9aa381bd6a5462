use crate::value::{Value, ValueView};
use crate::vm::ClassID;
use std::collections::HashMap;
use vstd::prelude::*;

verus! {

/// An instance of a class: the class it belongs to and its named properties.
#[derive(Debug)]
pub struct Object {
    pub class: ClassID,
    pub properties: HashMap<String, Value>,
}

/// The mathematical content of an [`Object`].
pub struct ObjectView {
    pub class: ClassID,
    pub properties: Map<Seq<char>, ValueView>,
}

} // verus!
