//! Small string helpers: the few trusted bridges to std's string functions
//! that vstd gives no specification for, and verified conversions built on
//! top of them.

use vstd::prelude::*;
use vstd::utf8::{decode_utf8, valid_utf8};

verus! {

broadcast use vstd::string::group_string_axioms;

/// Relies on std's `String::push_str`: appends the string slice, nothing
/// else.
#[verifier::external_body]
pub fn string_push_str(s: &mut String, t: &str)
    ensures
        final(s)@ == old(s)@ + t@,
{
    s.push_str(t)
}

/// Relies on std's `String::push`: appends the one character.
#[verifier::external_body]
pub fn string_push_char(s: &mut String, c: char)
    ensures
        final(s)@ == old(s)@.push(c),
{
    s.push(c)
}

/// Relies on std's `String::from_utf8`: succeeds exactly on valid UTF-8 and
/// then returns the decoded text, for which vstd's `decode_utf8` is the
/// specification.
#[verifier::external_body]
pub fn string_from_utf8(v: Vec<u8>) -> (r: Option<String>)
    ensures
        r is Some <==> valid_utf8(v@),
        r matches Some(s) ==> s@ == decode_utf8(v@),
{
    match String::from_utf8(v) {
        Ok(s) => Some(s),
        Err(_) => None,
    }
}

/// Relies on std's `str::chars`: it yields the characters of the slice in
/// order, which `collect` gathers into the vector unchanged.
#[verifier::external_body]
pub fn string_to_chars(s: &str) -> (r: Vec<char>)
    ensures
        r@ == s@,
{
    s.chars().collect()
}

/// A string holding exactly the given characters, in order.
pub fn chars_to_string(v: &Vec<char>) -> (r: String)
    ensures
        r@ == v@,
{
    let mut out = String::new();
    let n = v.len();
    let mut i: usize = 0;
    while i < n
        invariant
            n == v@.len(),
            0 <= i <= n,
            out@ == v@.subrange(0, i as int),
        decreases n - i,
    {
        string_push_char(&mut out, v[i]);
        i += 1;
        proof {
            assert(out@ =~= v@.subrange(0, i as int));
        }
    }
    proof {
        assert(out@ =~= v@);
    }
    out
}

/// The two strings, one after the other.
pub fn str_concat(a: &str, b: &str) -> (r: String)
    ensures
        r@ == a@ + b@,
{
    let mut out = a.to_owned();
    string_push_str(&mut out, b);
    out
}

/// The usual decimal digits of a number, most significant first.
pub open spec fn spec_decimal(n: nat) -> Seq<char>
    decreases n,
{
    if n < 10 {
        seq![spec_digit_char(n % 10)]
    } else {
        spec_decimal(n / 10).push(spec_digit_char(n % 10))
    }
}

/// The character of one decimal digit.
pub open spec fn spec_digit_char(d: nat) -> char
    recommends
        d < 10,
{
    ((0x30 + d) as u8) as char
}

/// Print a number in decimal.
pub fn u64_to_decimal(n: u64) -> (r: String)
    ensures
        r@ == spec_decimal(n as nat),
{
    let mut digits: Vec<char> = Vec::new();
    let mut rest: u64 = n;
    proof {
        assert(spec_decimal(n as nat) =~= spec_decimal(rest as nat) + digits@);
    }
    loop
        invariant_except_break
            spec_decimal(n as nat) == spec_decimal(rest as nat) + digits@,
        ensures
            digits@ == spec_decimal(n as nat),
        decreases rest,
    {
        let ghost pre = rest;
        let d: u64 = rest % 10;
        let c: char = ((0x30 + d) as u8) as char;
        digits.insert(0, c);
        rest = rest / 10;
        proof {
            assert(c == spec_digit_char(pre as nat % 10));
            assert(digits@ =~= seq![c] + digits@.skip(1));
            if pre < 10 {
                assert(spec_decimal(pre as nat) =~= seq![c]);
            } else {
                assert(spec_decimal(pre as nat) =~= spec_decimal(pre as nat / 10) + seq![c]);
            }
            assert(spec_decimal(n as nat) =~= spec_decimal(rest as nat) + digits@ || rest == 0);
        }
        if rest == 0 {
            proof {
                assert(spec_decimal(pre as nat) =~= seq![c]);
                assert(digits@ =~= spec_decimal(n as nat));
            }
            break;
        }
        proof {
            assert(spec_decimal(n as nat) =~= spec_decimal(rest as nat) + digits@);
        }
    }
    chars_to_string(&digits)
}

} // verus!
