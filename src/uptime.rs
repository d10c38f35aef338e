//! Time since boot and time spent idle, as in `/proc/uptime`.

use vstd::prelude::*;

use crate::lines::{first_line, LineParser};
use crate::time::{Duration, NANOS_PER_SEC};
use crate::util::{
    consume_space, count_digits, digit_count, expect_bytes, expect_spec, nanos_spec, parse_nanos,
    parse_u64, skip_space, u64_spec,
};
use crate::{Error, ErrorKind};

verus! {

/// Time since boot, and idle time summed over the cores (which can exceed the uptime on
/// a machine with several cores).
#[derive(Clone, Copy, Debug)]
pub struct Uptime {
    /// The time the system has been up for.
    pub up: Duration,
    /// The time any core has been idle for.
    pub idle: Duration,
}

/// A decimal number `secs.frac` at the start of `s` (after whitespace), in nanoseconds,
/// and what follows it.
pub open spec fn seconds_spec(s: Seq<char>) -> Result<(Seq<char>, int), ErrorKind> {
    match u64_spec(s) {
        None => Err(ErrorKind::Decode),
        Some((r1, secs)) => match expect_spec(seq!['.'], r1) {
            None => Err(ErrorKind::Decode),
            Some(r2) => if digit_count(r2) > 9 {
                Err(ErrorKind::Invariant)
            } else {
                match nanos_spec(r2) {
                    None => Err(ErrorKind::Decode),
                    Some((r3, nanos)) => Ok((r3, secs * NANOS_PER_SEC + nanos)),
                }
            },
        },
    }
}

/// The uptime and idle time of a line, in nanoseconds: two decimal numbers and nothing
/// after them but whitespace.
pub open spec fn uptime_spec(s: Seq<char>) -> Result<(int, int), ErrorKind> {
    match seconds_spec(s) {
        Err(k) => Err(k),
        Ok((r1, up)) => match seconds_spec(r1) {
            Err(k) => Err(k),
            Ok((r2, idle)) => if skip_space(r2).len() == 0 {
                Ok((up, idle))
            } else {
                Err(ErrorKind::Decode)
            },
        },
    }
}

/// Two decimal numbers followed by nothing but whitespace decode to the first as the
/// uptime and the second as the idle time, whichever is larger: idle time above the uptime
/// is accepted.
pub proof fn lemma_uptime_any_order(s: Seq<char>)
    requires
        seconds_spec(s) is Ok,
        seconds_spec(seconds_spec(s)->Ok_0.0) is Ok,
        skip_space(seconds_spec(seconds_spec(s)->Ok_0.0)->Ok_0.0).len() == 0,
    ensures
        uptime_spec(s) == Ok::<(int, int), ErrorKind>(
            (seconds_spec(s)->Ok_0.1, seconds_spec(seconds_spec(s)->Ok_0.0)->Ok_0.1),
        ),
{
}

/// The uptime and idle time of the first line of a text; a text without lines ends too
/// early.
pub open spec fn uptime_text_spec(s: Seq<char>) -> Result<(int, int), ErrorKind> {
    if s.len() == 0 {
        Err(ErrorKind::EndOfStream)
    } else {
        uptime_spec(first_line(s))
    }
}

/// Reads `secs.frac` into a [`Duration`] and returns what follows it.
fn parse_seconds(input: &str) -> (r: Result<(&str, Duration), Error>)
    ensures
        match r {
            Ok((rest, d)) => seconds_spec(input@) == Ok::<(Seq<char>, int), ErrorKind>(
                (rest@, d@),
            ),
            Err(e) => seconds_spec(input@) == Err::<(Seq<char>, int), ErrorKind>(e.kind),
        },
{
    let (rest, secs) = match parse_u64(input) {
        Some(p) => p,
        None => {
            return Err(Error::new(ErrorKind::Decode, "expected number"));
        },
    };
    proof {
        reveal_strlit(".");
    }
    assert("."@ =~= seq!['.']);
    let rest = match expect_bytes(".", rest) {
        Some(r) => r,
        None => {
            return Err(Error::new(ErrorKind::Decode, "expected \".\""));
        },
    };
    if count_digits(rest) > 9 {
        return Err(Error::new(ErrorKind::Invariant, "more than nine digits after \".\""));
    }
    let (rest, nanos) = match parse_nanos(rest) {
        Some(p) => p,
        None => {
            return Err(Error::new(ErrorKind::Decode, "expected number"));
        },
    };
    Ok((rest, Duration::new(secs, nanos)))
}

impl Uptime {
    /// Decodes one line: the uptime and the idle time, each as `secs.frac`, separated by
    /// whitespace, with nothing but whitespace after them.
    pub fn from_str(input: &str) -> (r: Result<Uptime, Error>)
        ensures
            match r {
                Ok(u) => uptime_spec(input@) == Ok::<(int, int), ErrorKind>((u.up@, u.idle@)),
                Err(e) => uptime_spec(input@) == Err::<(int, int), ErrorKind>(e.kind),
            },
    {
        let (rest, up) = parse_seconds(input)?;
        let (rest, idle) = match parse_seconds(rest) {
            Ok(p) => p,
            Err(e) => {
                return Err(e);
            },
        };
        if consume_space(rest).unicode_len() != 0 {
            return Err(Error::new(ErrorKind::Decode, "trailing content"));
        }
        Ok(Uptime { up, idle })
    }

    /// Decodes the first line of a text.
    pub fn from_reader(input: &str) -> (r: Result<Uptime, Error>)
        ensures
            match r {
                Ok(u) => uptime_text_spec(input@) == Ok::<(int, int), ErrorKind>(
                    (u.up@, u.idle@),
                ),
                Err(e) => uptime_text_spec(input@) == Err::<(int, int), ErrorKind>(e.kind),
            },
    {
        let mut lines = LineParser::new(input);
        match lines.read_line() {
            None => Err(Error::new(ErrorKind::EndOfStream, "no uptime line")),
            Some(line) => Uptime::from_str(line),
        }
    }
}

} // verus!
