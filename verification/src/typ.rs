use crate::text::{decimal, decimal_string};
use crate::vm::ClassID;
use vstd::prelude::*;
use vstd::string::StringExecFns;

verus! {

/// The runtime category of a value; the key under which methods are found.
#[derive(Debug, Clone, Copy, PartialEq, Eq, Hash, Structural)]
pub enum Type {
    Object(ClassID),
    Unit,
    Bool,
    I32,
    String,
}

impl Type {
    /// The text under which a type is shown to users: `Class_` followed by the
    /// class number for an object type, and the bare tag otherwise.
    pub open spec fn name_text(self) -> Seq<char> {
        match self {
            Type::Object(class_id) => "Class_"@ + decimal(class_id.number()),
            Type::Unit => "Unit"@,
            Type::Bool => "Bool"@,
            Type::I32 => "I32"@,
            Type::String => "String"@,
        }
    }

    /// Renders the type as text.
    pub fn name(&self) -> (text: String)
        ensures
            text@ == self.name_text(),
    {
        match self {
            Type::Object(class_id) => {
                let digits = decimal_string(class_id.index());
                String::from_str("Class_").concat(digits.as_str())
            },
            Type::Unit => String::from_str("Unit"),
            Type::Bool => String::from_str("Bool"),
            Type::I32 => String::from_str("I32"),
            Type::String => String::from_str("String"),
        }
    }
}

} // verus!
