//! The ways in which a request can fail inside the library.

use vstd::prelude::*;

verus! {

/// Why a command could not be built from, or turned into, a frame.
#[derive(Debug, Clone, Copy, PartialEq, Eq)]
pub enum CommandError {
    /// The command holds no key although its kind needs one.
    MissingKey,
    /// A `SET` command holds no value.
    MissingValue,
    /// The frame is neither an array nor a bare tag.
    Shape,
    /// The tag is missing or names no command.
    UnknownTag,
    /// The array has too few or too many elements for its tag.
    Arity,
    /// A key or value position holds a frame that is not a value frame.
    Kind,
    /// A key or value is not UTF-8 text.
    Text,
}

/// An error of the library, by the layer that raised it.
#[derive(Debug, Clone, Copy, PartialEq, Eq)]
pub enum KvsError {
    /// The bytes received hold no well-formed frame, or a response frame is
    /// of a kind that no response has.
    Protocol,
    /// A frame does not describe a command, or a command lacks a field.
    Command(CommandError),
    /// The table could not be turned into a snapshot.
    Persistence,
}

} // verus!
