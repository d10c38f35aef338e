//! Primitive parsers on text slices. Each one skips leading whitespace, consumes a
//! prefix, and hands back the remainder together with what it decoded.

use vstd::arithmetic::div_mod::{lemma_add_mod_noop, lemma_mul_mod_noop_left, lemma_small_mod};
use vstd::prelude::*;

use crate::Error;

verus! {

/// The largest `u64` plus one: decimal numbers are read modulo this.
pub open spec fn u64_modulus() -> nat {
    0x1_0000_0000_0000_0000
}

/// The whitespace that separates fields: space, tab, carriage return, line feed.
pub open spec fn is_space(c: char) -> bool {
    c == ' ' || c == '\t' || c == '\r' || c == '\n'
}

pub open spec fn is_digit(c: char) -> bool {
    '0' <= c && c <= '9'
}

pub open spec fn digit_value(c: char) -> nat {
    (c as int - '0' as int) as nat
}

/// The number that a run of decimal digits spells.
pub open spec fn digits_value(d: Seq<char>) -> nat
    decreases d.len(),
{
    if d.len() == 0 {
        0
    } else {
        digits_value(d.drop_last()) * 10 + digit_value(d.last())
    }
}

pub open spec fn pow10(n: nat) -> nat
    decreases n,
{
    if n == 0 {
        1
    } else {
        10 * pow10((n - 1) as nat)
    }
}

/// Index of the first character at or after `i` that is not whitespace.
pub open spec fn space_end(s: Seq<char>, i: int) -> int
    decreases s.len() - i,
{
    if 0 <= i < s.len() && is_space(s[i]) {
        space_end(s, i + 1)
    } else {
        i
    }
}

/// Index of the first whitespace character at or after `i`.
pub open spec fn token_end(s: Seq<char>, i: int) -> int
    decreases s.len() - i,
{
    if 0 <= i < s.len() && !is_space(s[i]) {
        token_end(s, i + 1)
    } else {
        i
    }
}

/// Index of the first character at or after `i` that is not a decimal digit.
pub open spec fn digit_end(s: Seq<char>, i: int) -> int
    decreases s.len() - i,
{
    if 0 <= i < s.len() && is_digit(s[i]) {
        digit_end(s, i + 1)
    } else {
        i
    }
}

/// `s` without its leading whitespace.
pub open spec fn skip_space(s: Seq<char>) -> Seq<char> {
    s.skip(space_end(s, 0))
}

/// After leading whitespace, the longest run of other characters, and what follows it.
pub open spec fn token_spec(s: Seq<char>) -> Option<(Seq<char>, Seq<char>)> {
    let t = skip_space(s);
    let e = token_end(t, 0);
    if t.len() == 0 {
        None
    } else {
        Some((t.skip(e), t.take(e)))
    }
}

/// After leading whitespace, the longest run of decimal digits read as a `u64` (wrapping
/// past its largest value), and what follows it.
pub open spec fn u64_spec(s: Seq<char>) -> Option<(Seq<char>, u64)> {
    let t = skip_space(s);
    let e = digit_end(t, 0);
    if e == 0 {
        None
    } else {
        Some((t.skip(e), (digits_value(t.take(e)) % u64_modulus()) as u64))
    }
}

/// After leading whitespace, what follows `lit` if the text starts with it.
pub open spec fn expect_spec(lit: Seq<char>, s: Seq<char>) -> Option<Seq<char>> {
    let t = skip_space(s);
    if lit.len() <= t.len() && t.take(lit.len() as int) == lit {
        Some(t.skip(lit.len() as int))
    } else {
        None
    }
}

/// How many decimal digits follow the leading whitespace.
pub open spec fn digit_count(s: Seq<char>) -> int {
    digit_end(skip_space(s), 0)
}

/// After leading whitespace, the digits after a decimal point read as nanoseconds (the
/// first digit counts 100,000,000), and what follows them. Meant for at most nine digits.
pub open spec fn nanos_spec(s: Seq<char>) -> Option<(Seq<char>, u32)> {
    let t = skip_space(s);
    let e = digit_end(t, 0);
    if e == 0 {
        None
    } else {
        Some((t.skip(e), (digits_value(t.take(e)) * pow10((9 - e) as nat)) as u32))
    }
}

pub proof fn lemma_space_end_bounds(s: Seq<char>, i: int)
    requires
        0 <= i <= s.len(),
    ensures
        i <= space_end(s, i) <= s.len(),
    decreases s.len() - i,
{
    if i < s.len() && is_space(s[i]) {
        lemma_space_end_bounds(s, i + 1);
    }
}

pub proof fn lemma_token_end_bounds(s: Seq<char>, i: int)
    requires
        0 <= i <= s.len(),
    ensures
        i <= token_end(s, i) <= s.len(),
    decreases s.len() - i,
{
    if i < s.len() && !is_space(s[i]) {
        lemma_token_end_bounds(s, i + 1);
    }
}

pub proof fn lemma_digit_end_bounds(s: Seq<char>, i: int)
    requires
        0 <= i <= s.len(),
    ensures
        i <= digit_end(s, i) <= s.len(),
    decreases s.len() - i,
{
    if i < s.len() && is_digit(s[i]) {
        lemma_digit_end_bounds(s, i + 1);
    }
}

/// Reading one more digit multiplies by ten and adds it.
proof fn lemma_digits_value_push(s: Seq<char>, i: int)
    requires
        0 <= i < s.len(),
    ensures
        digits_value(s.take(i + 1)) == digits_value(s.take(i)) * 10 + digit_value(s[i]),
{
    assert(s.take(i + 1).drop_last() =~= s.take(i));
}

proof fn lemma_wrapping_step(a: nat, d: nat)
    requires
        d < 10,
    ensures
        (((a % u64_modulus()) * 10) % u64_modulus() + d) % u64_modulus() == (a * 10 + d)
            % u64_modulus(),
{
    let m = u64_modulus() as int;
    let x = a as int;
    let y = d as int;
    lemma_mul_mod_noop_left(x, 10, m);
    lemma_small_mod(d, m as nat);
    lemma_add_mod_noop(x * 10, y, m);
    lemma_add_mod_noop(x % m * 10 % m, y, m);
    assert(0 <= x % m * 10 % m < m);
    lemma_small_mod((x % m * 10 % m) as nat, m as nat);
}

/// A run of digits stays below the next power of ten.
proof fn lemma_digits_value_bound(d: Seq<char>)
    requires
        forall|k: int| 0 <= k < d.len() ==> is_digit(#[trigger] d[k]),
    ensures
        digits_value(d) < pow10(d.len()),
    decreases d.len(),
{
    if d.len() > 0 {
        let p = d.drop_last();
        assert forall|k: int| 0 <= k < p.len() implies is_digit(#[trigger] p[k]) by {
            assert(p[k] == d[k]);
        }
        lemma_digits_value_bound(p);
        let v = digits_value(p);
        let q = pow10(p.len());
        assert(pow10(d.len()) == 10 * q);
        assert(digit_value(d.last()) <= 9);
        assert(v * 10 + digit_value(d.last()) < 10 * q) by (nonlinear_arith)
            requires
                v < q,
                digit_value(d.last()) <= 9,
        ;
    }
}

proof fn lemma_pow10_nine()
    ensures
        pow10(9) == 1_000_000_000,
{
    reveal_with_fuel(pow10, 10);
}

fn is_space_char(c: char) -> (r: bool)
    ensures
        r == is_space(c),
{
    c == ' ' || c == '\t' || c == '\r' || c == '\n'
}

fn is_digit_char(c: char) -> (r: bool)
    ensures
        r == is_digit(c),
{
    '0' <= c && c <= '9'
}

/// Returns the suffix of `input` that starts at its first non-whitespace character.
pub fn consume_space(input: &str) -> (r: &str)
    ensures
        r@ == skip_space(input@),
{
    let len = input.unicode_len();
    let mut i: usize = 0;
    while i < len
        invariant
            len == input@.len(),
            i <= len,
            space_end(input@, 0) == space_end(input@, i as int),
        ensures
            i <= len,
            space_end(input@, 0) == i,
        decreases len - i,
    {
        if !is_space_char(input.get_char(i)) {
            break;
        }
        i = i + 1;
    }
    input.substring_char(i, len)
}

/// Skips leading whitespace and returns `(remainder, token)`, where the token is the
/// longest run of non-whitespace characters. The remainder keeps the whitespace that
/// ends the token. Fails on text that is empty or all whitespace.
pub fn parse_token(input: &str) -> (r: Option<(&str, &str)>)
    ensures
        match r {
            Some((rest, token)) => token_spec(input@) == Some((rest@, token@)),
            None => token_spec(input@) is None,
        },
{
    let t = consume_space(input);
    let len = t.unicode_len();
    if len == 0 {
        return None;
    }
    let mut i: usize = 0;
    while i < len
        invariant
            len == t@.len(),
            i <= len,
            token_end(t@, 0) == token_end(t@, i as int),
        ensures
            i <= len,
            token_end(t@, 0) == i,
        decreases len - i,
    {
        if is_space_char(t.get_char(i)) {
            break;
        }
        i = i + 1;
    }
    Some((t.substring_char(i, len), t.substring_char(0, i)))
}

/// Skips leading whitespace and reads the longest run of decimal digits as a `u64`,
/// wrapping past `u64::MAX`. Fails if no digit follows the whitespace.
pub fn parse_u64(input: &str) -> (r: Option<(&str, u64)>)
    ensures
        match r {
            Some((rest, v)) => u64_spec(input@) == Some((rest@, v)),
            None => u64_spec(input@) is None,
        },
{
    let t = consume_space(input);
    let len = t.unicode_len();
    let mut i: usize = 0;
    let mut acc: u64 = 0;
    while i < len
        invariant
            len == t@.len(),
            i <= len,
            digit_end(t@, 0) == digit_end(t@, i as int),
            acc == digits_value(t@.take(i as int)) % u64_modulus(),
        ensures
            i <= len,
            digit_end(t@, 0) == i,
            acc == digits_value(t@.take(i as int)) % u64_modulus(),
        decreases len - i,
    {
        let c = t.get_char(i);
        if !is_digit_char(c) {
            break;
        }
        let d = (c as u32 - '0' as u32) as u64;
        proof {
            lemma_digits_value_push(t@, i as int);
            lemma_wrapping_step(digits_value(t@.take(i as int)), d as nat);
        }
        let m = acc.wrapping_mul(10);
        assert(m + d < 2 * u64_modulus());
        assert(m.wrapping_add(d) == (m + d) % u64_modulus() as int);
        acc = m.wrapping_add(d);
        i = i + 1;
    }
    if i == 0 {
        None
    } else {
        Some((t.substring_char(i, len), acc))
    }
}

/// Always succeeds, consuming nothing.
pub fn parse_dummy(_input: &str) -> (r: Result<(), Error>)
    ensures
        r is Ok,
{
    Ok(())
}

/// Skips leading whitespace, then returns what follows `expected` if the text starts with
/// it, and fails otherwise.
pub fn expect_bytes<'a>(expected: &str, input: &'a str) -> (r: Option<&'a str>)
    ensures
        match r {
            Some(rest) => expect_spec(expected@, input@) == Some(rest@),
            None => expect_spec(expected@, input@) is None,
        },
{
    let t = consume_space(input);
    let len = t.unicode_len();
    let n = expected.unicode_len();
    if len < n {
        return None;
    }
    let mut j: usize = 0;
    while j < n
        invariant
            t@ == skip_space(input@),
            len == t@.len(),
            n == expected@.len(),
            n <= len,
            j <= n,
            forall|k: int| 0 <= k < j ==> t@[k] == expected@[k],
        decreases n - j,
    {
        let a = t.get_char(j);
        let b = expected.get_char(j);
        if a != b {
            assert(a != b);
            assert(t@.take(n as int)[j as int] != expected@[j as int]);
            assert(t@.take(n as int) != expected@);
            return None;
        }
        j = j + 1;
    }
    assert(t@.take(n as int) =~= expected@);
    Some(t.substring_char(n, len))
}

/// Skips leading whitespace and reads the digits that follow a decimal point as
/// nanoseconds: the first digit counts 100,000,000, the next 10,000,000, and so on.
/// Fails if no digit follows the whitespace. More than nine digits would be finer than a
/// nanosecond, which the formats read here never write.
pub fn parse_nanos(input: &str) -> (r: Option<(&str, u32)>)
    requires
        digit_count(input@) <= 9,
    ensures
        match r {
            Some((rest, v)) => nanos_spec(input@) == Some((rest@, v)) && v < 1_000_000_000,
            None => nanos_spec(input@) is None,
        },
{
    let t = consume_space(input);
    let len = t.unicode_len();
    let mut i: usize = 0;
    let mut acc: u32 = 0;
    proof {
        lemma_pow10_nine();
    }
    while i < len
        invariant
            len == t@.len(),
            i <= len,
            digit_end(t@, 0) == digit_end(t@, i as int),
            digit_end(t@, 0) <= 9,
            forall|k: int| 0 <= k < i ==> is_digit(#[trigger] t@[k]),
            acc == digits_value(t@.take(i as int)),
            pow10(9) == 1_000_000_000,
        ensures
            i <= len,
            digit_end(t@, 0) == i,
            forall|k: int| 0 <= k < i ==> is_digit(#[trigger] t@[k]),
            acc == digits_value(t@.take(i as int)),
        decreases len - i,
    {
        let c = t.get_char(i);
        if !is_digit_char(c) {
            break;
        }
        proof {
            lemma_digit_end_bounds(t@, i as int + 1);
            lemma_digits_value_push(t@, i as int);
            let p = t@.take(i as int + 1);
            assert forall|k: int| 0 <= k < p.len() implies is_digit(#[trigger] p[k]) by {
                assert(p[k] == t@[k]);
            }
            lemma_digits_value_bound(p);
            lemma_pow10_monotone((i + 1) as nat, 9);
        }
        acc = acc * 10 + (c as u32 - '0' as u32);
        i = i + 1;
    }
    if i == 0 {
        return None;
    }
    proof {
        let p = t@.take(i as int);
        assert forall|k: int| 0 <= k < p.len() implies is_digit(#[trigger] p[k]) by {
            assert(p[k] == t@[k]);
        }
        lemma_digits_value_bound(p);
    }
    let ghost digits = acc as nat;
    assert(pow10(0) == 1);
    let mut k: usize = i;
    assert((k - i) as nat == 0);
    assert(acc < pow10(i as nat));
    assert(digits * pow10(0) == digits) by (nonlinear_arith)
        requires
            pow10(0) == 1,
    ;
    while k < 9
        invariant
            i <= k <= 9,
            acc < pow10(k as nat),
            acc == digits * pow10((k - i) as nat),
            pow10(9) == 1_000_000_000,
        ensures
            k == 9,
            acc < pow10(9),
            acc == digits * pow10((9 - i) as nat),
        decreases 9 - k,
    {
        proof {
            lemma_pow10_monotone((k + 1) as nat, 9);
            let q = pow10((k - i) as nat);
            assert(pow10((k + 1 - i) as nat) == 10 * q);
            assert(digits * q * 10 == digits * (10 * q)) by (nonlinear_arith);
        }
        acc = acc * 10;
        k = k + 1;
    }
    Some((t.substring_char(i, len), acc))
}

/// `n` numbers read one after another by [`u64_spec`], and what follows them.
pub open spec fn u64s_spec(s: Seq<char>, n: nat) -> Option<(Seq<char>, Seq<u64>)>
    decreases n,
{
    if n == 0 {
        Some((s, Seq::empty()))
    } else {
        match u64_spec(s) {
            None => None,
            Some((r, v)) => match u64s_spec(r, (n - 1) as nat) {
                None => None,
                Some((t, w)) => Some((t, seq![v] + w)),
            },
        }
    }
}

/// How many of `n` numbers read one after another by [`u64_spec`] succeed before the
/// first that fails.
pub open spec fn u64s_read(s: Seq<char>, n: nat) -> nat
    decreases n,
{
    if n == 0 {
        0
    } else {
        match u64_spec(s) {
            None => 0,
            Some((r, _)) => 1 + u64s_read(r, (n - 1) as nat),
        }
    }
}

/// Numbers already read, put in front of what the rest of the text gives.
pub open spec fn prepend_u64s(
    p: Seq<u64>,
    o: Option<(Seq<char>, Seq<u64>)>,
) -> Option<(Seq<char>, Seq<u64>)> {
    match o {
        None => None,
        Some((t, w)) => Some((t, p + w)),
    }
}

/// Reads `n` numbers with [`parse_u64`]. On failure, gives the position of the number
/// that could not be read.
pub(crate) fn parse_u64s(input: &str, n: usize) -> (r: Result<(&str, Vec<u64>), usize>)
    ensures
        match r {
            Ok((rest, v)) => u64s_spec(input@, n as nat) == Some((rest@, v@)) && v@.len() == n,
            Err(i) => u64s_spec(input@, n as nat) is None && i < n && i == u64s_read(
                input@,
                n as nat,
            ),
        },
{
    let mut vals: Vec<u64> = Vec::new();
    let mut cur = input;
    let mut i: usize = 0;
    assert(vals@ + seq![] =~= Seq::<u64>::empty());
    while i < n
        invariant
            i <= n,
            vals@.len() == i,
            u64s_spec(input@, n as nat) == prepend_u64s(vals@, u64s_spec(cur@, (n - i) as nat)),
            u64s_read(input@, n as nat) == i + u64s_read(cur@, (n - i) as nat),
        decreases n - i,
    {
        match parse_u64(cur) {
            None => {
                return Err(i);
            },
            Some((rest, v)) => {
                proof {
                    match u64s_spec(rest@, (n - i - 1) as nat) {
                        Some((t, w)) => {
                            assert(vals@ + (seq![v] + w) =~= vals@.push(v) + w);
                        },
                        None => {},
                    }
                }
                vals.push(v);
                cur = rest;
                i = i + 1;
            },
        }
    }
    assert(vals@ + Seq::<u64>::empty() =~= vals@);
    Ok((cur, vals))
}

/// Whether two texts are the same, character for character.
pub fn str_eq(a: &str, b: &str) -> (r: bool)
    ensures
        r == (a@ == b@),
{
    let n = a.unicode_len();
    if n != b.unicode_len() {
        return false;
    }
    let mut j: usize = 0;
    while j < n
        invariant
            n == a@.len(),
            n == b@.len(),
            j <= n,
            forall|k: int| 0 <= k < j ==> a@[k] == b@[k],
        decreases n - j,
    {
        if a.get_char(j) != b.get_char(j) {
            return false;
        }
        j = j + 1;
    }
    assert(a@ =~= b@);
    true
}

/// How many decimal digits follow the leading whitespace of `input`.
pub fn count_digits(input: &str) -> (r: usize)
    ensures
        r == digit_count(input@),
{
    let t = consume_space(input);
    let len = t.unicode_len();
    let mut i: usize = 0;
    while i < len
        invariant
            len == t@.len(),
            i <= len,
            digit_end(t@, 0) == digit_end(t@, i as int),
        ensures
            digit_end(t@, 0) == i,
        decreases len - i,
    {
        if !is_digit_char(t.get_char(i)) {
            break;
        }
        i = i + 1;
    }
    i
}

/// The character of a decimal digit below ten.
pub open spec fn digit_char(d: nat) -> char {
    seq!['0', '1', '2', '3', '4', '5', '6', '7', '8', '9'][d as int]
}

/// `n` written in decimal, without leading zeros.
pub open spec fn decimal(n: nat) -> Seq<char>
    decreases n,
{
    if n < 10 {
        seq![digit_char(n)]
    } else {
        decimal(n / 10).push(digit_char(n % 10))
    }
}

proof fn lemma_digit_char(d: nat)
    requires
        d < 10,
    ensures
        is_digit(digit_char(d)),
        digit_value(digit_char(d)) == d,
{
}

proof fn lemma_decimal(n: nat)
    ensures
        decimal(n).len() >= 1,
        forall|k: int| 0 <= k < decimal(n).len() ==> is_digit(#[trigger] decimal(n)[k]),
        digits_value(decimal(n)) == n,
    decreases n,
{
    if n < 10 {
        lemma_digit_char(n);
        assert(decimal(n).drop_last() =~= Seq::<char>::empty());
        assert(digits_value(Seq::<char>::empty()) == 0);
    } else {
        lemma_decimal(n / 10);
        lemma_digit_char(n % 10);
        let d = decimal(n);
        assert(d.drop_last() =~= decimal(n / 10));
        assert(d.last() == digit_char(n % 10));
        assert((n / 10) * 10 + n % 10 == n);
        assert forall|k: int| 0 <= k < d.len() implies is_digit(#[trigger] d[k]) by {
            if k < d.len() - 1 {
                assert(d[k] == decimal(n / 10)[k]);
            }
        }
    }
}

proof fn lemma_digit_end_all_digits(s: Seq<char>, i: int)
    requires
        0 <= i <= s.len(),
        forall|k: int| 0 <= k < s.len() ==> is_digit(#[trigger] s[k]),
    ensures
        digit_end(s, i) == s.len(),
    decreases s.len() - i,
{
    if i < s.len() {
        lemma_digit_end_all_digits(s, i + 1);
    }
}

/// Reading back a `u64` written in decimal gives the same value and leaves nothing.
pub proof fn lemma_u64_round_trip(n: u64)
    ensures
        u64_spec(decimal(n as nat)) == Some((Seq::<char>::empty(), n)),
{
    let s = decimal(n as nat);
    lemma_decimal(n as nat);
    assert(!is_space(s[0]));
    assert(space_end(s, 0) == 0);
    assert(skip_space(s) =~= s);
    lemma_digit_end_all_digits(s, 0);
    assert(s.take(s.len() as int) =~= s);
    assert(s.skip(s.len() as int) =~= Seq::<char>::empty());
    lemma_small_mod(n as nat, u64_modulus());
}

/// Where leading whitespace stops: at the end, or at a character that is not whitespace.
proof fn lemma_space_end_stops(s: Seq<char>, i: int)
    requires
        0 <= i <= s.len(),
    ensures
        space_end(s, i) == s.len() || !is_space(s[space_end(s, i)]),
    decreases s.len() - i,
{
    if i < s.len() && is_space(s[i]) {
        lemma_space_end_stops(s, i + 1);
    }
}

/// Where a token stops: at the end, or at whitespace.
proof fn lemma_token_end_stops(s: Seq<char>, i: int)
    requires
        0 <= i <= s.len(),
    ensures
        token_end(s, i) == s.len() || is_space(s[token_end(s, i)]),
    decreases s.len() - i,
{
    if i < s.len() && !is_space(s[i]) {
        lemma_token_end_stops(s, i + 1);
    }
}

/// Skipping whitespace twice is skipping it once.
pub proof fn lemma_skip_space_idempotent(s: Seq<char>)
    ensures
        skip_space(skip_space(s)) == skip_space(s),
{
    let t = skip_space(s);
    lemma_space_end_bounds(s, 0);
    lemma_space_end_stops(s, 0);
    if t.len() > 0 {
        assert(t[0] == s[space_end(s, 0)]);
    }
    assert(space_end(t, 0) == 0);
    assert(t.skip(0) =~= t);
}

/// Leading whitespace makes no difference to a token.
pub proof fn lemma_token_ignores_leading_space(s: Seq<char>)
    ensures
        token_spec(skip_space(s)) == token_spec(s),
{
    lemma_skip_space_idempotent(s);
}

/// Characters before the end of a token are not whitespace.
proof fn lemma_token_end_no_space(s: Seq<char>, i: int, k: int)
    requires
        0 <= i <= k < token_end(s, i),
    ensures
        !is_space(s[k]),
    decreases s.len() - i,
{
    if i < k {
        lemma_token_end_no_space(s, i + 1, k);
    }
}

/// A token is a non-empty run of non-whitespace that, with what follows it, makes up the
/// text after its leading whitespace. What follows it is empty or starts with whitespace,
/// and the next token read from it is the one read after skipping that whitespace.
pub proof fn lemma_token_remainder(s: Seq<char>)
    requires
        token_spec(s) is Some,
    ensures
        match token_spec(s) {
            Some((r, tok)) => {
                &&& tok.len() > 0
                &&& forall|k: int| 0 <= k < tok.len() ==> !is_space(#[trigger] tok[k])
                &&& skip_space(s) == tok + r
                &&& r.len() == 0 || is_space(r[0])
                &&& token_spec(r) == token_spec(skip_space(r))
            },
            None => false,
        },
{
    let t = skip_space(s);
    let r = t.skip(token_end(t, 0));
    lemma_token_end_bounds(t, 0);
    lemma_token_end_stops(t, 0);
    if r.len() > 0 {
        assert(r[0] == t[token_end(t, 0)]);
    }
    lemma_space_end_bounds(s, 0);
    lemma_space_end_stops(s, 0);
    assert(t[0] == s[space_end(s, 0)]);
    assert(token_end(t, 0) > 0);
    let tok = t.take(token_end(t, 0));
    assert forall|k: int| 0 <= k < tok.len() implies !is_space(#[trigger] tok[k]) by {
        lemma_token_end_no_space(t, 0, k);
    }
    assert(t =~= tok + r);
    lemma_token_ignores_leading_space(r);
}

proof fn lemma_pow10_monotone(a: nat, b: nat)
    requires
        a <= b,
    ensures
        pow10(a) <= pow10(b),
    decreases b - a,
{
    if a < b {
        lemma_pow10_monotone(a, (b - 1) as nat);
    }
}

} // verus!
