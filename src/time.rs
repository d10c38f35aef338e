//! Spans of time, kept as whole seconds and the nanoseconds beyond them.

use vstd::prelude::*;

verus! {

pub const NANOS_PER_SEC: u32 = 1_000_000_000;

pub const NANOS_PER_MILLI: u32 = 1_000_000;

/// A span of time: whole seconds and a count of nanoseconds below one second.
#[derive(Clone, Copy, Debug, PartialEq, Eq, Structural)]
pub struct Duration {
    secs: u64,
    nanos: u32,
}

impl View for Duration {
    type V = int;

    /// The span in nanoseconds.
    closed spec fn view(&self) -> int {
        self.secs * NANOS_PER_SEC + self.nanos
    }
}

impl Duration {
    #[verifier::type_invariant]
    spec fn wf(&self) -> bool {
        self.nanos < NANOS_PER_SEC
    }

    /// `secs` seconds and `nanos` nanoseconds, which must stay below one second.
    pub fn new(secs: u64, nanos: u32) -> (r: Duration)
        requires
            nanos < NANOS_PER_SEC,
        ensures
            r@ == secs * NANOS_PER_SEC + nanos,
    {
        Duration { secs, nanos }
    }

    /// A span of `ms` milliseconds.
    pub fn from_millis(ms: u64) -> (r: Duration)
        ensures
            r@ == ms * NANOS_PER_MILLI,
    {
        let secs = ms / 1000;
        let rem = (ms % 1000) as u32;
        assert(rem * NANOS_PER_MILLI < NANOS_PER_SEC) by (nonlinear_arith)
            requires
                rem < 1000,
        ;
        let nanos = rem * NANOS_PER_MILLI;
        assert(secs * 1_000_000_000 + nanos == ms * 1_000_000) by (nonlinear_arith)
            requires
                secs == ms / 1000,
                rem == ms % 1000,
                nanos == rem * 1_000_000,
        ;
        Duration { secs, nanos }
    }

    /// The whole seconds of the span.
    pub fn as_secs(&self) -> (r: u64)
        ensures
            r == self@ / NANOS_PER_SEC as int,
    {
        proof {
            use_type_invariant(self);
            lemma_split(self.secs as int, self.nanos as int);
        }
        self.secs
    }

    /// The nanoseconds of the span beyond its whole seconds.
    pub fn subsec_nanos(&self) -> (r: u32)
        ensures
            r == self@ % NANOS_PER_SEC as int,
    {
        proof {
            use_type_invariant(self);
            lemma_split(self.secs as int, self.nanos as int);
        }
        self.nanos
    }
}

proof fn lemma_split(s: int, n: int)
    requires
        s >= 0,
        0 <= n < 1_000_000_000,
    ensures
        (s * 1_000_000_000 + n) / 1_000_000_000 == s,
        (s * 1_000_000_000 + n) % 1_000_000_000 == n,
{
    vstd::arithmetic::div_mod::lemma_fundamental_div_mod_converse(
        s * 1_000_000_000 + n,
        1_000_000_000,
        s,
        n,
    );
}

} // verus!
