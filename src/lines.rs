//! A cursor over text that hands it out one line at a time. A line can be looked at
//! before it is consumed, so that a decoder can decide from it what comes next.

use vstd::prelude::*;

use crate::{Error, ErrorKind};

verus! {

use vstd::std_specs::iter::IteratorSpec;

/// Index of the first line feed at or after `i`, or the length of `s` if there is none.
pub open spec fn newline_at(s: Seq<char>, i: int) -> int
    decreases s.len() - i,
{
    if 0 <= i < s.len() && s[i] != '\n' {
        newline_at(s, i + 1)
    } else {
        i
    }
}

/// Length of the first line of `s`, its line feed included.
pub open spec fn line_len(s: Seq<char>) -> int {
    let e = newline_at(s, 0);
    if e < s.len() {
        e + 1
    } else {
        e
    }
}

/// The first line of `s`, with its line feed if it has one.
pub open spec fn first_line(s: Seq<char>) -> Seq<char> {
    s.take(line_len(s))
}

/// What follows the first line of `s`.
pub open spec fn after_line(s: Seq<char>) -> Seq<char> {
    s.skip(line_len(s))
}

pub proof fn lemma_newline_at_bounds(s: Seq<char>, i: int)
    requires
        0 <= i <= s.len(),
    ensures
        i <= newline_at(s, i) <= s.len(),
    decreases s.len() - i,
{
    if i < s.len() && s[i] != '\n' {
        lemma_newline_at_bounds(s, i + 1);
    }
}

/// A non-empty text has a non-empty first line, so what follows it is shorter.
pub proof fn lemma_line_progress(s: Seq<char>)
    requires
        s.len() > 0,
    ensures
        0 < line_len(s) <= s.len(),
        after_line(s).len() < s.len(),
{
    lemma_newline_at_bounds(s, 0);
}

/// The unread part of a text, handed out line by line.
pub struct LineParser<'a> {
    rest: &'a str,
}

impl<'a> View for LineParser<'a> {
    type V = Seq<char>;

    closed spec fn view(&self) -> Seq<char> {
        self.rest@
    }
}

/// The length of the first line of `s`, its line feed included.
fn first_line_len(s: &str) -> (r: usize)
    ensures
        r == line_len(s@),
{
    let len = s.unicode_len();
    let mut it = s.chars();
    let mut i: usize = 0;
    let ghost text = s@;
    loop
        invariant
            text == s@,
            len == text.len(),
            i <= text.len(),
            it.remaining() == text.skip(i as int),
            newline_at(text, 0) == newline_at(text, i as int),
        ensures
            i == line_len(text),
        decreases text.len() - i,
    {
        match it.next() {
            None => {
                assert(text.skip(i as int).len() == 0);
                return i;
            },
            Some(c) => {
                assert(c == text[i as int]);
                assert(it.remaining() =~= text.skip(i as int + 1));
                i = i + 1;
                if c == '\n' {
                    return i;
                }
            },
        }
    }
}

impl<'a> LineParser<'a> {
    /// A cursor at the start of `input`.
    pub fn new(input: &'a str) -> (r: LineParser<'a>)
        ensures
            r@ == input@,
    {
        LineParser { rest: input }
    }

    /// Whether every line has been consumed.
    pub fn is_at_end(&self) -> (r: bool)
        ensures
            r == (self@.len() == 0),
    {
        self.rest.is_empty()
    }

    /// The next line, line feed included, without consuming it; `None` at the end.
    pub fn peek_line(&self) -> (r: Option<&'a str>)
        ensures
            match r {
                Some(line) => self@.len() > 0 && line@ == first_line(self@),
                None => self@.len() == 0,
            },
    {
        if self.rest.is_empty() {
            return None;
        }
        let n = first_line_len(self.rest);
        proof {
            lemma_line_progress(self@);
        }
        Some(self.rest.substring_char(0, n))
    }

    /// Moves past the next line. Does nothing at the end.
    pub fn consume_line(&mut self)
        ensures
            final(self)@ == after_line(old(self)@),
    {
        let n = first_line_len(self.rest);
        proof {
            lemma_newline_at_bounds(self@, 0);
        }
        let len = self.rest.unicode_len();
        self.rest = self.rest.substring_char(n, len);
    }

    /// Hands the next line to `decode`. The line is consumed only if `decode` gives a
    /// value; otherwise it stays, and another decoder can be tried on it. At the end, the
    /// error is an end of stream; when `decode` gives nothing, it is a decode error.
    pub fn parse_line<V, F: Fn(&'a str) -> Option<V>>(&mut self, decode: F) -> (r: Result<
        V,
        Error,
    >)
        requires
            forall|l: &'a str| decode.requires((l,)),
        ensures
            r is Ok ==> old(self)@.len() > 0 && final(self)@ == after_line(old(self)@),
            r is Ok ==> exists|l: &'a str|
                l@ == first_line(old(self)@) && #[trigger] decode.ensures((l,), Some(r->Ok_0)),
            r is Err ==> final(self)@ == old(self)@,
            r is Err ==> (r->Err_0.kind == ErrorKind::EndOfStream <==> old(self)@.len() == 0),
            r is Err ==> (r->Err_0.kind == ErrorKind::Decode <==> old(self)@.len() > 0),
            r is Err && old(self)@.len() > 0 ==> exists|l: &'a str|
                l@ == first_line(old(self)@) && #[trigger] decode.ensures((l,), None::<V>),
    {
        let line = match self.peek_line() {
            Some(l) => l,
            None => {
                return Err(Error::new(ErrorKind::EndOfStream, "unexpected end of text"));
            },
        };
        match decode(line) {
            Some(v) => {
                self.consume_line();
                let r: Result<V, Error> = Ok(v);
                assert(decode.ensures((line,), Some(r->Ok_0)));
                r
            },
            None => Err(Error::new(ErrorKind::Decode, "line does not decode")),
        }
    }

    /// The next line, line feed included, which it consumes; `None` at the end.
    pub fn read_line(&mut self) -> (r: Option<&'a str>)
        ensures
            match r {
                Some(line) => {
                    &&& old(self)@.len() > 0
                    &&& line@ == first_line(old(self)@)
                    &&& final(self)@ == after_line(old(self)@)
                },
                None => old(self)@.len() == 0 && final(self)@ == old(self)@,
            },
    {
        let line = self.peek_line();
        if line.is_some() {
            self.consume_line();
        }
        line
    }
}

} // verus!
