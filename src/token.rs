use vstd::prelude::*;
use crate::error::{ErrorKind, ParseError, err_at};

verus! {

pub open spec fn is_digit(b: u8) -> bool {
    48 <= b && b <= 57
}

/// Bytes left from `p` to the end of `s` (zero past the end).
pub open spec fn remaining(s: Seq<u8>, p: int) -> nat {
    if p < s.len() {
        (s.len() - p) as nat
    } else {
        0
    }
}

/// Length of the run of ASCII digits that starts at `p`.
pub open spec fn digit_run(s: Seq<u8>, p: int) -> nat
    decreases remaining(s, p),
{
    if 0 <= p < s.len() && is_digit(s[p]) {
        1 + digit_run(s, p + 1)
    } else {
        0
    }
}

/// The number that a string of decimal digits denotes.
pub open spec fn digits_value(d: Seq<u8>) -> int
    decreases d.len(),
{
    if d.len() == 0 {
        0
    } else {
        digits_value(d.drop_last()) * 10 + (d.last() as int - 48)
    }
}

/// An unsigned integer token at `p` no larger than `max`: its value and length.
pub open spec fn spec_uint(s: Seq<u8>, p: int, max: int) -> Result<(int, nat), ParseError> {
    let n = digit_run(s, p);
    if n == 0 || digits_value(s.subrange(p, p + n)) > max {
        Err(err_at(ErrorKind::MalformedNumber, p))
    } else {
        Ok((digits_value(s.subrange(p, p + n)), n))
    }
}

/// A decimal token `digits.digits` at `p`: its text and length.
pub open spec fn spec_decimal(s: Seq<u8>, p: int) -> Result<(Seq<u8>, nat), ParseError> {
    let a = digit_run(s, p);
    let dot = p + a;
    let b = digit_run(s, dot + 1);
    if a == 0 || !(dot < s.len() && s[dot] == 46) || b == 0 {
        Err(err_at(ErrorKind::MalformedNumber, p))
    } else {
        Ok((s.subrange(p, dot + 1 + b), a + 1 + b))
    }
}

/// The text `0.0`.
pub open spec fn zero_text() -> Seq<u8> {
    seq![48u8, 46u8, 48u8]
}

pub proof fn lemma_digit_run(s: Seq<u8>, p: int)
    requires
        0 <= p <= s.len(),
    ensures
        p + digit_run(s, p) <= s.len(),
        forall|i: int| p <= i < p + digit_run(s, p) ==> is_digit(#[trigger] s[i]),
    decreases s.len() - p,
{
    if p < s.len() && is_digit(s[p]) {
        lemma_digit_run(s, p + 1);
    }
}

/// A decimal number kept as the exact digit text it was written with
/// (`digits.digits`), so that no precision is lost before it is converted.
#[derive(Debug)]
pub struct Decimal {
    pub text: Vec<u8>,
}

impl View for Decimal {
    type V = Seq<u8>;

    open spec fn view(&self) -> Seq<u8> {
        self.text@
    }
}

impl Decimal {
    /// The value of a position that no feature wrote: `0.0`.
    pub fn zero() -> (r: Decimal)
        ensures
            r@ == zero_text(),
    {
        let r = Decimal { text: vec![48u8, 46u8, 48u8] };
        assert(r@ =~= zero_text());
        r
    }

    pub fn copy(&self) -> (r: Decimal)
        ensures
            r@ == self@,
    {
        Decimal { text: copy_span(self.text.as_slice(), 0, self.text.len()) }
    }
}

pub fn is_digit_byte(b: u8) -> (r: bool)
    ensures
        r == is_digit(b),
{
    48 <= b && b <= 57
}

/// The bytes of `s` from `a` up to `b`.
pub fn copy_span(s: &[u8], a: usize, b: usize) -> (r: Vec<u8>)
    requires
        a <= b <= s@.len(),
    ensures
        r@ == s@.subrange(a as int, b as int),
{
    let mut r: Vec<u8> = Vec::new();
    let mut i: usize = a;
    while i < b
        invariant
            a <= i <= b <= s@.len(),
            r@ == s@.subrange(a as int, i as int),
        decreases b - i,
    {
        r.push(s[i]);
        assert(s@.subrange(a as int, i + 1) =~= s@.subrange(a as int, i as int).push(s@[i as int]));
        i = i + 1;
    }
    r
}

/// The end of the run of digits that starts at `p`.
pub fn scan_digits(s: &[u8], p: usize) -> (e: usize)
    requires
        p <= s@.len(),
    ensures
        e == p + digit_run(s@, p as int),
        e <= s@.len(),
{
    let mut e: usize = p;
    while e < s.len() && is_digit_byte(s[e])
        invariant
            p <= e <= s@.len(),
            digit_run(s@, p as int) == (e - p) + digit_run(s@, e as int),
        decreases s@.len() - e,
    {
        e = e + 1;
    }
    e
}

/// Reads an unsigned integer token at `p` that must not exceed `max`;
/// returns it with the offset just past it.
pub fn parse_uint(s: &[u8], p: usize, max: u32) -> (r: Result<(u32, usize), ParseError>)
    requires
        p <= s@.len(),
    ensures
        match r {
            Ok((v, e)) => p < e <= s@.len() && spec_uint(s@, p as int, max as int) == Ok::<
                (int, nat),
                ParseError,
            >((v as int, (e - p) as nat)),
            Err(err) => spec_uint(s@, p as int, max as int) == Err::<(int, nat), ParseError>(err),
        },
{
    let e = scan_digits(s, p);
    if e == p {
        return Err(ParseError { kind: ErrorKind::MalformedNumber, pos: p });
    }
    proof {
        lemma_digit_run(s@, p as int);
    }
    let cap: u64 = max as u64 + 1;
    let mut v: u64 = 0;
    let mut k: usize = p;
    assert(s@.subrange(p as int, p as int) =~= Seq::<u8>::empty());
    while k < e
        invariant
            p <= k <= e <= s@.len(),
            e == p + digit_run(s@, p as int),
            forall|i: int| p <= i < e ==> is_digit(#[trigger] s@[i]),
            cap == max as int + 1,
            digits_value(s@.subrange(p as int, k as int)) < cap ==> v == digits_value(
                s@.subrange(p as int, k as int),
            ),
            digits_value(s@.subrange(p as int, k as int)) >= cap ==> v == cap,
        decreases e - k,
    {
        let ghost before = s@.subrange(p as int, k as int);
        assert(s@.subrange(p as int, k + 1).drop_last() =~= before);
        assert(is_digit(s@[k as int]));
        let d: u64 = (s[k] - 48) as u64;
        let t: u64 = v * 10 + d;
        v = if t > cap {
            cap
        } else {
            t
        };
        k = k + 1;
    }
    assert(s@.subrange(p as int, k as int) =~= s@.subrange(p as int, p + digit_run(s@, p as int)));
    if v > max as u64 {
        Err(ParseError { kind: ErrorKind::MalformedNumber, pos: p })
    } else {
        Ok((v as u32, e))
    }
}

/// Reads a decimal token `digits.digits` at `p`; returns its text with the
/// offset just past it.
pub fn parse_decimal(s: &[u8], p: usize) -> (r: Result<(Decimal, usize), ParseError>)
    requires
        p <= s@.len(),
    ensures
        match r {
            Ok((d, e)) => p < e <= s@.len() && spec_decimal(s@, p as int) == Ok::<
                (Seq<u8>, nat),
                ParseError,
            >((d@, (e - p) as nat)),
            Err(err) => spec_decimal(s@, p as int) == Err::<(Seq<u8>, nat), ParseError>(err),
        },
{
    let dot = scan_digits(s, p);
    if dot == p || dot >= s.len() || s[dot] != 46 {
        return Err(ParseError { kind: ErrorKind::MalformedNumber, pos: p });
    }
    let e = scan_digits(s, dot + 1);
    if e == dot + 1 {
        return Err(ParseError { kind: ErrorKind::MalformedNumber, pos: p });
    }
    Ok((Decimal { text: copy_span(s, p, e) }, e))
}

} // verus!
