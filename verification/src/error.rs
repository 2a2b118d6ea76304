//! The errors of decoding and rendering.

use vstd::prelude::*;

verus! {

/// Everything that can go wrong while a script is decoded or rendered.
#[derive(Debug, Clone)]
pub enum BBScriptError {
    /// An input file is missing.
    FileDoesNotExist(String),
    /// An output file is already there and may not be overwritten.
    OutputAlreadyExists(String),
    /// No instruction of this ID or name is known.
    UnknownFunction(String),
    /// An argument (first field) has no value of the given name (second field).
    NoAssociatedValue(String, String),
    /// An argument refers to an enum group that the configuration lacks.
    BadEnumReference(String),
    /// The jump table, whose size in bytes is given in decimal, leaves no
    /// room for instructions.
    IncorrectJumpTableSize(String),
    /// A fixed-layout script holds an instruction that the configuration lacks.
    UnknownInstructionID(u32),
    /// The input ended in the middle of a value.
    UnexpectedEnd,
}

/// What a [`BBScriptError`] says, with its strings as sequences of characters.
pub enum ErrorModel {
    FileDoesNotExist(Seq<char>),
    OutputAlreadyExists(Seq<char>),
    UnknownFunction(Seq<char>),
    NoAssociatedValue(Seq<char>, Seq<char>),
    BadEnumReference(Seq<char>),
    IncorrectJumpTableSize(Seq<char>),
    UnknownInstructionID(u32),
    UnexpectedEnd,
}

impl View for BBScriptError {
    type V = ErrorModel;

    open spec fn view(&self) -> ErrorModel {
        match self {
            BBScriptError::FileDoesNotExist(path) => ErrorModel::FileDoesNotExist(path@),
            BBScriptError::OutputAlreadyExists(path) => ErrorModel::OutputAlreadyExists(path@),
            BBScriptError::UnknownFunction(name) => ErrorModel::UnknownFunction(name@),
            BBScriptError::NoAssociatedValue(arg, name) => ErrorModel::NoAssociatedValue(
                arg@,
                name@,
            ),
            BBScriptError::BadEnumReference(group) => ErrorModel::BadEnumReference(group@),
            BBScriptError::IncorrectJumpTableSize(size) => ErrorModel::IncorrectJumpTableSize(
                size@,
            ),
            BBScriptError::UnknownInstructionID(id) => ErrorModel::UnknownInstructionID(*id),
            BBScriptError::UnexpectedEnd => ErrorModel::UnexpectedEnd,
        }
    }
}

} // verus!
