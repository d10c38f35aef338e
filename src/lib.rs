//! Decoders for the status files that a Linux kernel exposes under `/proc`:
//! aggregate CPU and process counters, per-device I/O counters, and uptime.

pub mod diskstats;
pub mod lines;
pub mod stat;
pub mod time;
pub mod uptime;
pub mod util;

use vstd::prelude::*;

verus! {

/// What went wrong while reading a status file.
#[derive(Clone, Copy, Debug, PartialEq, Eq, Structural)]
pub enum ErrorKind {
    /// The source could not be opened or read.
    Io,
    /// The text ended before the record was complete.
    EndOfStream,
    /// A line did not have the shape of the field or record being read.
    Decode,
    /// The text broke a rule that the format never breaks (a repeated device name,
    /// a fraction finer than a nanosecond).
    Invariant,
}

/// An error, with its kind and a message for people.
#[derive(Clone, Debug)]
pub struct Error {
    pub kind: ErrorKind,
    pub message: String,
}

impl Error {
    pub fn new(kind: ErrorKind, message: &str) -> (r: Error)
        ensures
            r.kind == kind,
            r.message@ == message@,
    {
        Error { kind, message: message.to_owned() }
    }

    /// An error of the underlying source, with its description.
    pub fn io(message: String) -> (r: Error)
        ensures
            r.kind == ErrorKind::Io,
            r.message == message,
    {
        Error { kind: ErrorKind::Io, message }
    }
}

} // verus!
