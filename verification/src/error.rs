//! The library's error taxonomy: parse failures carry the offending text and
//! the kind of item that was being read; transport failures distinguish a
//! refused connection from a broken read or write; a discovery agent can be
//! stopped by a backend failure or an orderly shutdown.

use vstd::prelude::*;

verus! {

/// What was being parsed when the offending text was rejected.
#[derive(Structural, PartialEq, Eq, Clone, Copy, Debug)]
pub enum ParseErrorKind {
    /// The overall shape was wrong: wrong field count, missing separator.
    Structure,
    /// A typed scalar value.
    Value,
    /// A physical unit.
    Unit,
    /// An RFC 3339 timestamp.
    Timestamp,
    /// A device identity inside a discovery instance name.
    DeviceName,
    /// A serialized actuator command.
    Command,
    /// A framed wire request.
    Frame,
}

/// A recoverable parse failure: the offending substring and what it was
/// tried as.
#[derive(PartialEq, Eq, Clone, Debug)]
pub struct ParseError {
    pub kind: ParseErrorKind,
    pub text: String,
}

/// Ghost image of a `ParseError`.
pub ghost struct ParseErrorView {
    pub kind: ParseErrorKind,
    pub text: Seq<char>,
}

impl View for ParseError {
    type V = ParseErrorView;

    open spec fn view(&self) -> ParseErrorView {
        ParseErrorView { kind: self.kind, text: self.text@ }
    }
}

impl ParseError {
    pub fn new(kind: ParseErrorKind, text: String) -> (r: ParseError)
        ensures
            r@ == (ParseErrorView { kind, text: text@ }),
    {
        ParseError { kind, text }
    }
}

/// A transport-level failure: the peer was unreachable, or a read or write
/// failed mid-exchange. Recoverable; the affected device is skipped for the
/// cycle.
#[derive(Structural, PartialEq, Eq, Clone, Copy, Debug)]
pub enum TransportError {
    Connection,
    Io,
}

/// Why a discovery agent stopped: its backend failed (fatal to that agent
/// only), or the process asked it to shut down.
#[derive(Structural, PartialEq, Eq, Clone, Copy, Debug)]
pub enum DiscoveryError {
    Backend,
}

} // verus!
