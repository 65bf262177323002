//! DOM exceptions that the bindings raise.
use vstd::prelude::*;

verus! {

/// The `DOMException` names the bindings raise.
#[derive(PartialEq, Eq, Structural, Clone, Copy, Debug)]
pub enum DomError {
    /// `SyntaxError` (code 12).
    SyntaxError,
    /// `InvalidCharacterError` (code 5).
    InvalidCharacterError,
    /// `NamespaceError` (code 14).
    NamespaceError,
    /// `NotFoundError` (code 8).
    NotFoundError,
    /// `IndexSizeError` (code 1).
    IndexSizeError,
    /// `InUseAttributeError` (code 10).
    InUseAttributeError,
    /// `NotSupportedError` (code 9).
    NotSupportedError,
}

impl DomError {
    /// The exception's name.
    pub fn name(&self) -> (r: &'static str)
        ensures
            *self == DomError::SyntaxError ==> r@ == "SyntaxError"@,
            *self == DomError::InvalidCharacterError ==> r@ == "InvalidCharacterError"@,
            *self == DomError::NamespaceError ==> r@ == "NamespaceError"@,
            *self == DomError::NotFoundError ==> r@ == "NotFoundError"@,
            *self == DomError::IndexSizeError ==> r@ == "IndexSizeError"@,
            *self == DomError::InUseAttributeError ==> r@ == "InUseAttributeError"@,
            *self == DomError::NotSupportedError ==> r@ == "NotSupportedError"@,
    {
        match self {
            DomError::SyntaxError => "SyntaxError",
            DomError::InvalidCharacterError => "InvalidCharacterError",
            DomError::NamespaceError => "NamespaceError",
            DomError::NotFoundError => "NotFoundError",
            DomError::IndexSizeError => "IndexSizeError",
            DomError::InUseAttributeError => "InUseAttributeError",
            DomError::NotSupportedError => "NotSupportedError",
        }
    }

    /// The legacy `DOMException` code.
    pub fn code(&self) -> (r: u16)
        ensures
            *self == DomError::SyntaxError ==> r == 12,
            *self == DomError::InvalidCharacterError ==> r == 5,
            *self == DomError::NamespaceError ==> r == 14,
            *self == DomError::NotFoundError ==> r == 8,
            *self == DomError::IndexSizeError ==> r == 1,
            *self == DomError::InUseAttributeError ==> r == 10,
            *self == DomError::NotSupportedError ==> r == 9,
    {
        match self {
            DomError::SyntaxError => 12,
            DomError::InvalidCharacterError => 5,
            DomError::NamespaceError => 14,
            DomError::NotFoundError => 8,
            DomError::IndexSizeError => 1,
            DomError::InUseAttributeError => 10,
            DomError::NotSupportedError => 9,
        }
    }
}

} // verus!
