//! A safety wrapper around a handle-based speech-recognition engine.
//!
//! The engine itself is an external collaborator reached through opaque
//! handles; this crate holds the logic around it: the rules for handle
//! lifetime and sharing, the streaming protocol that governs when results
//! may be read, the encoder for constrained vocabularies and grammars, and
//! the decoder for the engine's textual result format.

use vstd::prelude::*;

pub mod grammar;
pub mod handle;
pub mod json;
pub mod results;
pub mod stream;
mod text;

verus! {

/// The errors this library surfaces to its callers.
///
/// Construction of a model is the one fallible step of setting an engine up;
/// a result whose text does not follow the engine's result format is the one
/// fallible step of reading it back.
#[derive(Debug, Clone, Copy, PartialEq, Eq, Structural)]
pub enum Error {
    /// Model construction failed: the path named no valid model.
    NoValidModel,
    /// A retrieval call handed back text that does not follow the engine's
    /// result format.
    MalformedResult,
}

impl Error {
    /// A short description of the error, in words.
    pub fn describe(&self) -> (r: &'static str)
        ensures
            self is NoValidModel ==> r@ == "could not find a valid model at the given path"@,
            self is MalformedResult ==> r@ == "the engine returned a result in an unexpected format"@,
    {
        match self {
            Error::NoValidModel => "could not find a valid model at the given path",
            Error::MalformedResult => "the engine returned a result in an unexpected format",
        }
    }
}

} // verus!
