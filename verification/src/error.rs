//! What can go wrong.

use vstd::prelude::*;

verus! {

/// Why an event cannot be registered.
#[derive(Debug, Clone, Copy, PartialEq, Eq, Structural)]
pub enum SchemaError {
    /// A dynamic array stands inside another dynamic array.
    NestedDynamicArrays,
    /// Two fields have the same identifier.
    DuplicateFieldName,
    /// The event is registered already, with another descriptor.
    DescriptorMismatch,
}

/// Why an operation on the store is refused.
#[derive(Debug, Clone, Copy, PartialEq, Eq, Structural)]
pub enum Error {
    /// The event cannot be registered.
    Schema(SchemaError),
    /// No event of that name is registered.
    UnknownEvent,
    /// The values of a log do not match the descriptor of its event, in
    /// number or in kind.
    ValueMismatch,
    /// A number does not fit the integers of the storage engine.
    Range,
    /// A statement changed another number of rows than it should have.
    Consistency,
    /// Block 0 was reported as an uncle.
    InvalidUncle,
}

/// An error in a batch, with the name of the event of the item that the
/// error is about, as the item gave it.
#[derive(Debug, Clone, Copy, PartialEq, Eq)]
pub struct Failure<'a> {
    pub event: &'a str,
    pub error: Error,
}

/// A [`Failure`] as a mathematical value.
pub struct FailureView {
    pub event: Seq<char>,
    pub error: Error,
}

impl<'a> View for Failure<'a> {
    type V = FailureView;

    open spec fn view(&self) -> FailureView {
        FailureView { event: self.event@, error: self.error }
    }
}

} // verus!
