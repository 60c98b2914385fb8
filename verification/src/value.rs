//! The typed values that the transform produces, their mathematical views,
//! and the error type of the collection interface.

use vstd::prelude::*;

verus! {

/// A typed configuration value: the output alphabet of the inference step.
///
/// A value recognised as a floating-point number keeps its literal text:
/// every consumer that wants the number reads it from the literal, which the
/// grammar (`is_float_literal`) guarantees to be readable.
#[derive(Debug, Clone, PartialEq)]
pub enum TypedValue {
    Boolean(bool),
    Integer(i64),
    Float(String),
    Str(String),
    List(Vec<String>),
}

/// The view of a typed value, over character sequences.
#[verifier::ext_equal]
pub ghost enum TypedValueView {
    Boolean(bool),
    Integer(i64),
    Float(Seq<char>),
    Str(Seq<char>),
    List(Seq<Seq<char>>),
}

impl View for TypedValue {
    type V = TypedValueView;

    open spec fn view(&self) -> TypedValueView {
        match self {
            TypedValue::Boolean(b) => TypedValueView::Boolean(*b),
            TypedValue::Integer(n) => TypedValueView::Integer(*n),
            TypedValue::Float(s) => TypedValueView::Float(s@),
            TypedValue::Str(s) => TypedValueView::Str(s@),
            TypedValue::List(v) => TypedValueView::List(crate::text::strings_view(v@)),
        }
    }
}

/// A typed value together with its provenance tag, which names the source
/// the entry came from.
#[derive(Debug, Clone, PartialEq)]
pub struct TypedEntry {
    pub value: TypedValue,
    pub origin: String,
}

/// The view of a typed entry.
#[verifier::ext_equal]
pub ghost struct TypedEntryView {
    pub value: TypedValueView,
    pub origin: Seq<char>,
}

impl View for TypedEntry {
    type V = TypedEntryView;

    open spec fn view(&self) -> TypedEntryView {
        TypedEntryView { value: self.value@, origin: self.origin@ }
    }
}

/// The error of the collection interface. No operation of this library
/// produces one today; the fallible signatures are kept for the host
/// configuration framework, which reserves the right to fail.
#[derive(Debug, Clone, PartialEq, Eq)]
pub enum SourceError {
    Message(String),
}

} // verus!
