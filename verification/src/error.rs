use crate::typ::Type;
use vstd::prelude::*;
use vstd::string::StringExecFns;

verus! {

/// Why resolving, loading or running a program failed. No failure is ever
/// recovered from: the first one ends the run.
#[derive(Debug)]
pub enum Error {
    /// A variable is read that no enclosing binding introduces.
    UnboundVariable(String),
    /// The receiver's type has no method of the called name.
    NoSuchMethod(Type, String),
    /// An operation met a value of the wrong kind.
    TypeMismatch,
    /// A variable index reaches beyond the bindings in force: the expression
    /// was not resolved against the scope it is evaluated in.
    IndexOutOfRange,
    /// The class chosen to start the program has no `main` method.
    MissingEntryPoint,
    /// User-defined methods were nested deeper than the evaluator allows.
    CallDepthExceeded,
    /// The source text is no program.
    Syntax,
}

/// The mathematical content of an [`Error`].
pub enum ErrorView {
    UnboundVariable(Seq<char>),
    NoSuchMethod(Type, Seq<char>),
    TypeMismatch,
    IndexOutOfRange,
    MissingEntryPoint,
    CallDepthExceeded,
    Syntax,
}

impl View for Error {
    type V = ErrorView;

    open spec fn view(&self) -> ErrorView {
        match self {
            Error::UnboundVariable(name) => ErrorView::UnboundVariable(name@),
            Error::NoSuchMethod(typ, name) => ErrorView::NoSuchMethod(*typ, name@),
            Error::TypeMismatch => ErrorView::TypeMismatch,
            Error::IndexOutOfRange => ErrorView::IndexOutOfRange,
            Error::MissingEntryPoint => ErrorView::MissingEntryPoint,
            Error::CallDepthExceeded => ErrorView::CallDepthExceeded,
            Error::Syntax => ErrorView::Syntax,
        }
    }
}

impl ErrorView {
    /// The sentence that reports the failure to a user.
    pub open spec fn message_text(self) -> Seq<char> {
        match self {
            ErrorView::UnboundVariable(name) => "variable `"@ + name + "` is not defined"@,
            ErrorView::NoSuchMethod(typ, name) => "type `"@ + typ.name_text()
                + "` has no method named `"@ + name + "`"@,
            ErrorView::TypeMismatch => "a value of the wrong type was used"@,
            ErrorView::IndexOutOfRange => "De Bruijn index is out of range"@,
            ErrorView::MissingEntryPoint => "program has no entry point"@,
            ErrorView::CallDepthExceeded => "method calls are nested too deeply"@,
            ErrorView::Syntax => "the source text is not a program"@,
        }
    }
}

impl Error {
    /// Renders the failure as a sentence for the user.
    pub fn message(&self) -> (text: String)
        ensures
            text@ == self@.message_text(),
    {
        match self {
            Error::UnboundVariable(name) => String::from_str("variable `").concat(
                name.as_str(),
            ).concat("` is not defined"),
            Error::NoSuchMethod(typ, name) => {
                let shown_type = typ.name();
                String::from_str("type `").concat(shown_type.as_str()).concat(
                    "` has no method named `",
                ).concat(name.as_str()).concat("`")
            },
            Error::TypeMismatch => String::from_str("a value of the wrong type was used"),
            Error::IndexOutOfRange => String::from_str("De Bruijn index is out of range"),
            Error::MissingEntryPoint => String::from_str("program has no entry point"),
            Error::CallDepthExceeded => String::from_str("method calls are nested too deeply"),
            Error::Syntax => String::from_str("the source text is not a program"),
        }
    }
}

/// The content of a result: the content of whichever side it holds.
pub open spec fn result_view<T: View, E: View>(r: Result<T, E>) -> Result<T::V, E::V> {
    match r {
        Ok(t) => Ok(t@),
        Err(e) => Err(e@),
    }
}

} // verus!
