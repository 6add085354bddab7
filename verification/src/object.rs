use vstd::prelude::*;

verus! {

/// A literal value attached to a token, and the shared value vocabulary of
/// later stages. The scanner itself only ever produces `Num` and `Str`;
/// `Bool`, `Nil` and the two error sentinels belong to downstream consumers.
///
/// A numeric literal keeps its exact source text (an unbroken run of digits,
/// optionally followed by a dot and a second run). The floating-point domain
/// lies outside the verified core, so a consumer that needs arithmetic
/// converts the text itself. A string literal holds the content strictly
/// between the quotes.
#[derive(Debug, Clone, PartialEq)]
pub enum Object {
    Num(String),
    Str(String),
    Bool(bool),
    Nil,
    ArithmeticError,
    NumsOrStringsError,
}

/// The mathematical view of an `Object`: text fields become sequences of
/// characters.
#[verifier::ext_equal]
pub enum ObjectModel {
    Num(Seq<char>),
    Str(Seq<char>),
    Bool(bool),
    Nil,
    ArithmeticError,
    NumsOrStringsError,
}

impl View for Object {
    type V = ObjectModel;

    open spec fn view(&self) -> ObjectModel {
        match self {
            Object::Num(s) => ObjectModel::Num(s@),
            Object::Str(s) => ObjectModel::Str(s@),
            Object::Bool(b) => ObjectModel::Bool(*b),
            Object::Nil => ObjectModel::Nil,
            Object::ArithmeticError => ObjectModel::ArithmeticError,
            Object::NumsOrStringsError => ObjectModel::NumsOrStringsError,
        }
    }
}

/// The view of an optional literal, used by token contracts.
pub open spec fn literal_model(l: Option<Object>) -> Option<ObjectModel> {
    match l {
        Option::Some(o) => Option::Some(o@),
        Option::None => Option::None,
    }
}

impl From<bool> for Object {
    fn from(b: bool) -> (o: Object) {
        Object::Bool(b)
    }
}

impl vstd::std_specs::convert::FromSpecImpl<bool> for Object {
    open spec fn obeys_from_spec() -> bool {
        true
    }

    open spec fn from_spec(b: bool) -> Object {
        Object::Bool(b)
    }
}

impl From<String> for Object {
    fn from(s: String) -> (o: Object) {
        Object::Str(s)
    }
}

impl vstd::std_specs::convert::FromSpecImpl<String> for Object {
    open spec fn obeys_from_spec() -> bool {
        true
    }

    open spec fn from_spec(s: String) -> Object {
        Object::Str(s)
    }
}

} // verus!
