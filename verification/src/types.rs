//! The small enums that the rest of the library shares.
use vstd::prelude::*;

verus! {

/// How the bytes of a scanned or watched value are read.
#[derive(Debug, Clone, Copy, PartialEq, Eq, Structural)]
pub enum EValueType {
    I32,
    I64,
    F32,
    F64,
    Utf8String,
    Utf16String,
    Bytes,
}

impl EValueType {
    /// The floating-point types, whose text the library does not handle.
    pub open spec fn spec_is_float(self) -> bool {
        self is F32 || self is F64
    }

    /// Whether the type is one of the floating-point types.
    pub fn is_float(&self) -> (r: bool)
        ensures
            r == self.spec_is_float(),
    {
        match self {
            EValueType::F32 | EValueType::F64 => true,
            _ => false,
        }
    }

    /// The text types, which a scan looks for at every byte offset.
    pub open spec fn spec_is_text(self) -> bool {
        self is Utf8String || self is Utf16String
    }

    /// Whether the type is one of the text types.
    pub fn is_text(&self) -> (r: bool)
        ensures
            r == self.spec_is_text(),
    {
        match self {
            EValueType::Utf8String | EValueType::Utf16String => true,
            _ => false,
        }
    }
}

impl Default for EValueType {
    fn default() -> (r: Self)
        ensures
            r == EValueType::I32,
    {
        EValueType::I32
    }
}

/// The severity of a console message.
#[derive(Debug, Clone, Copy, PartialEq, Eq, Structural)]
pub enum EMessageType {
    Log,
    Warning,
    Error,
    Success,
}

/// The screen that the application shows.
#[derive(Debug, Clone, Copy, PartialEq, Eq, Structural)]
pub enum AppState {
    ProcessSelection,
}

impl Default for AppState {
    fn default() -> (r: Self)
        ensures
            r == AppState::ProcessSelection,
    {
        AppState::ProcessSelection
    }
}

} // verus!
