use crate::expression::{NamedView, Of};
use vstd::prelude::*;

verus! {

/// A program as written: classes in source order.
#[derive(Debug)]
pub struct Program {
    pub classes: Vec<Class>,
}

/// A class as written: its name and its methods in source order.
#[derive(Debug)]
pub struct Class {
    pub name: String,
    pub methods: Vec<ClassMethod>,
}

/// A method as written: its name, its parameters in declaration order and
/// its body, in which variables are still referred to by name.
#[derive(Debug)]
pub struct ClassMethod {
    pub name: String,
    pub parameters: Vec<String>,
    pub body: Of<String, String>,
}

/// The mathematical content of a [`ClassMethod`].
pub struct ClassMethodView {
    pub name: Seq<char>,
    pub parameters: Seq<Seq<char>>,
    pub body: NamedView,
}

/// The mathematical content of a [`Class`].
pub struct ClassView {
    pub name: Seq<char>,
    pub methods: Seq<ClassMethodView>,
}

/// The mathematical content of a [`Program`].
pub struct ProgramView {
    pub classes: Seq<ClassView>,
}

impl View for ClassMethod {
    type V = ClassMethodView;

    open spec fn view(&self) -> ClassMethodView {
        ClassMethodView {
            name: self.name@,
            parameters: self.parameters.deep_view(),
            body: self.body@,
        }
    }
}

impl View for Class {
    type V = ClassView;

    open spec fn view(&self) -> ClassView {
        ClassView {
            name: self.name@,
            methods: self.methods@.map_values(|method: ClassMethod| method@),
        }
    }
}

impl View for Program {
    type V = ProgramView;

    open spec fn view(&self) -> ProgramView {
        ProgramView { classes: self.classes@.map_values(|class: Class| class@) }
    }
}

} // verus!
