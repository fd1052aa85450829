//! A syscall-level test harness for executable scripts: the verified core.
//!
//! A script under test is run under tracing; every command it tries to
//! execute is intercepted and checked against an ordered list of expected
//! steps.  This crate holds the logic of that check: commands and their
//! shell-like parsing, step matchers (exact and anchored-regex), the word
//! codec for strings read out of a traced process's memory, and the
//! step-matching engine that turns a sequence of intercepted invocations
//! and the script's exit code into a pass/fail result.
//!
//! The process plumbing itself (forking, tracing, pipes) is not part of
//! this crate's verified code: it hands the engine plain values.

use vstd::prelude::*;

pub mod command;
pub mod command_matcher;
pub mod emulation;
pub mod protocol;
pub mod test_spec;
pub mod tracee_memory;

verus! {

/// An error of this library: a human-readable message, as bytes.
///
/// Command lines and paths are byte strings throughout; UTF-8 decoding is
/// a display concern only.
#[derive(Debug)]
pub struct Error {
    pub message: Vec<u8>,
}

impl View for Error {
    type V = Seq<u8>;

    open spec fn view(&self) -> Seq<u8> {
        self.message@
    }
}

impl Error {
    /// Builds an error carrying the given message.
    pub fn new(message: Vec<u8>) -> (r: Error)
        ensures
            r@ == message@,
    {
        Error { message }
    }
}

/// The result type used throughout the library.
pub type R<A> = Result<A, Error>;

} // verus!
