//! The byte-sequence converter: bytes are presented as their decimal
//! values joined by commas, and such text is parsed back into bytes.

use vstd::prelude::*;
use vstd::utf8::encode_utf8;
use crate::abi::{GalaxyFormatPluginV1_, PluginOp};
use crate::guest::{GalaxyFormat, GuestCore};
use crate::strutil::{spec_decimal, string_push_char, string_push_str, u64_to_decimal};

verus! {

/// The comma-joined decimal rendering of a byte sequence.
pub open spec fn spec_csv(b: Seq<u8>) -> Seq<char>
    decreases b.len(),
{
    if b.len() == 0 {
        Seq::empty()
    } else if b.len() == 1 {
        spec_decimal(b[0] as nat)
    } else {
        spec_csv(b.drop_last()) + seq![','] + spec_decimal(b.last() as nat)
    }
}

/// A decimal digit.
pub open spec fn is_digit(c: char) -> bool {
    0x30 <= c as u32 <= 0x39
}

/// The value of one decimal digit.
pub open spec fn digit_val(c: char) -> nat
    recommends
        is_digit(c),
{
    (c as u32 - 0x30) as nat
}

/// Digits folded left to right, saturating above 255, so that a too-large
/// number is detected without tracking its magnitude.
pub open spec fn spec_digits_value(s: Seq<char>) -> Option<nat>
    decreases s.len(),
{
    if s.len() == 0 {
        Some(0)
    } else {
        match spec_digits_value(s.drop_last()) {
            Some(v) => if is_digit(s.last()) {
                if v * 10 + digit_val(s.last()) > 255 {
                    Some(256)
                } else {
                    Some(v * 10 + digit_val(s.last()))
                }
            } else {
                None
            },
            None => None,
        }
    }
}

/// A segment parses to a byte when it is non-empty, all digits, and its
/// value fits.
pub open spec fn spec_segment_value(s: Seq<char>) -> Option<u8> {
    if s.len() == 0 {
        None
    } else {
        match spec_digits_value(s) {
            Some(v) => if v <= 255 {
                Some(v as u8)
            } else {
                None
            },
            None => None,
        }
    }
}

/// The position of the first comma, or the length when there is none.
pub open spec fn find_comma(t: Seq<char>) -> nat
    decreases t.len(),
{
    if t.len() == 0 {
        0
    } else if t[0] == ',' {
        0
    } else {
        1 + find_comma(t.drop_first())
    }
}

/// `find_comma` is exactly the scan: no comma before it, and a comma (or
/// the end) at it.
pub proof fn lemma_find_comma(t: Seq<char>, k: int)
    requires
        0 <= k <= t.len(),
        forall|j: int| 0 <= j < k ==> t[j] != ',',
        k == t.len() || t[k] == ',',
    ensures
        find_comma(t) == k,
    decreases t.len(),
{
    if t.len() == 0 {
    } else if t[0] == ',' {
        assert(k == 0);
    } else {
        assert(k >= 1);
        let rest = t.drop_first();
        assert(forall|j: int| 0 <= j < k - 1 ==> rest[j] != ',');
        lemma_find_comma(rest, k - 1);
    }
}

/// The comma-separated decimal values of the text, each one byte, or
/// nothing when the text is not of that shape.  The empty text has one
/// empty segment and so never parses.
pub open spec fn spec_parse_csv(t: Seq<char>) -> Option<Seq<u8>>
    decreases t.len(),
{
    let i = find_comma(t) as int;
    let seg = t.subrange(0, i);
    if i >= t.len() {
        match spec_segment_value(seg) {
            Some(v) => Some(seq![v]),
            None => None,
        }
    } else {
        match spec_segment_value(seg) {
            Some(v) => match spec_parse_csv(t.subrange(i + 1, t.len() as int)) {
                Some(r) => Some(seq![v] + r),
                None => None,
            },
            None => None,
        }
    }
}

/// Render bytes as comma-joined decimals.
pub fn csv_of_bytes(b: &[u8]) -> (r: String)
    ensures
        r@ == spec_csv(b@),
{
    let mut out = String::new();
    let n = b.len();
    let mut i: usize = 0;
    while i < n
        invariant
            n == b@.len(),
            0 <= i <= n,
            out@ == spec_csv(b@.subrange(0, i as int)),
        decreases n - i,
    {
        if i > 0 {
            string_push_char(&mut out, ',');
        }
        let dec = u64_to_decimal(b[i] as u64);
        string_push_str(&mut out, dec.as_str());
        i += 1;
        proof {
            let pre = b@.subrange(0, i - 1);
            let cur = b@.subrange(0, i as int);
            assert(cur.drop_last() =~= pre);
            assert(cur.last() == b@[i - 1]);
            if i == 1 {
                assert(out@ =~= spec_csv(cur));
            } else {
                assert(out@ =~= spec_csv(pre) + seq![','] + spec_decimal(b@[i - 1] as nat));
            }
        }
    }
    proof {
        assert(b@.subrange(0, n as int) =~= b@);
    }
    out
}

/// Parse comma-joined decimals from `start` on.
fn parse_csv_from(t: &Vec<char>, start: usize) -> (r: Option<Vec<u8>>)
    requires
        start <= t@.len(),
    ensures
        match spec_parse_csv(t@.skip(start as int)) {
            Some(b) => r matches Some(v) && v@ == b,
            None => r is None,
        },
    decreases t@.len() - start,
{
    let ghost suffix = t@.skip(start as int);
    let n = t.len();
    let mut i: usize = start;
    let mut val: u32 = 0;
    let mut valid: bool = true;
    while i < n && t[i] != ','
        invariant
            start <= i <= n,
            n == t@.len(),
            forall|j: int| start <= j < i ==> t@[j] != ',',
            suffix == t@.skip(start as int),
            ({
                let seg = t@.subrange(start as int, i as int);
                if valid {
                    spec_digits_value(seg) == Some(val as nat) && val <= 256
                } else {
                    spec_digits_value(seg) is None
                }
            }),
        decreases n - i,
    {
        let c = t[i];
        proof {
            let segp = t@.subrange(start as int, i as int);
            let segc = t@.subrange(start as int, i + 1 as int);
            assert(segc.drop_last() =~= segp);
            assert(segc.last() == t@[i as int]);
        }
        let cu: u32 = c as u32;
        if valid && 0x30 <= cu && cu <= 0x39 {
            let d: u32 = cu - 0x30;
            let next: u32 = val * 10 + d;
            if next > 255 {
                val = 256;
            } else {
                val = next;
            }
        } else {
            valid = false;
        }
        i += 1;
    }
    proof {
        lemma_find_comma(suffix, i - start);
        assert(suffix.subrange(0, i - start) =~= t@.subrange(start as int, i as int));
    }
    let seg_ok: bool = valid && i > start && val <= 255;
    if !seg_ok {
        proof {
            assert(spec_segment_value(suffix.subrange(0, i - start)) is None);
        }
        return None;
    }
    let v: u8 = val as u8;
    if i == n {
        let mut out: Vec<u8> = Vec::new();
        out.push(v);
        proof {
            assert(out@ =~= seq![v]);
        }
        Some(out)
    } else {
        proof {
            assert(suffix.subrange(i - start + 1, suffix.len() as int) =~= t@.skip(i as int + 1));
        }
        match parse_csv_from(t, i + 1) {
            Some(rest) => {
                let mut out: Vec<u8> = Vec::new();
                out.push(v);
                let mut tail = rest;
                out.append(&mut tail);
                proof {
                    assert(out@ =~= seq![v] + spec_parse_csv(t@.skip(i as int + 1))->Some_0);
                }
                Some(out)
            },
            None => None,
        }
    }
}

/// Parse a whole comma-joined decimal text.
pub fn parse_csv_text(t: &str) -> (r: Option<Vec<u8>>)
    ensures
        match spec_parse_csv(t@) {
            Some(b) => r matches Some(v) && v@ == b,
            None => r is None,
        },
{
    let chars = crate::strutil::string_to_chars(t);
    proof {
        assert(chars@.skip(0) =~= t@);
    }
    parse_csv_from(&chars, 0)
}

/// The byte-sequence converter.
pub struct ByteSequenceFormat;

impl GalaxyFormat for ByteSequenceFormat {
    open spec fn spec_present(bytes: Seq<u8>) -> Result<Seq<char>, Seq<char>> {
        Ok(spec_csv(bytes))
    }

    open spec fn spec_store(text: Seq<char>) -> Result<Seq<u8>, Seq<char>> {
        match spec_parse_csv(text) {
            Some(b) => Ok(b),
            None => Err("Could not convert text to byte sequence."@),
        }
    }

    fn present(bytes: &[u8]) -> (r: Result<String, String>) {
        Ok(csv_of_bytes(bytes))
    }

    fn store(s: &str) -> (r: Result<Vec<u8>, String>) {
        match parse_csv_text(s) {
            Some(v) => Ok(v),
            None => Err("Could not convert text to byte sequence.".to_owned()),
        }
    }
}


/// Every character of a decimal rendering is a digit.
pub proof fn lemma_decimal_digits(n: nat)
    ensures
        spec_decimal(n).len() >= 1,
        forall|i: int| 0 <= i < spec_decimal(n).len() ==> is_digit(#[trigger] spec_decimal(n)[i]),
    decreases n,
{
    if n < 10 {
        assert(is_digit(spec_decimal(n)[0]));
    } else {
        lemma_decimal_digits(n / 10);
        assert forall|i: int| 0 <= i < spec_decimal(n).len() implies is_digit(
            #[trigger] spec_decimal(n)[i],
        ) by {
            if i < spec_decimal(n / 10).len() {
                assert(spec_decimal(n)[i] == spec_decimal(n / 10)[i]);
            } else {
                assert(spec_decimal(n)[i] == crate::strutil::spec_digit_char(n % 10));
            }
        }
    }
}

/// Parsing a decimal rendering gives the number back, for numbers that
/// fit a byte.
pub proof fn lemma_digits_value_of_decimal(n: nat)
    requires
        n <= 255,
    ensures
        spec_digits_value(spec_decimal(n)) == Some(n),
    decreases n,
{
    lemma_decimal_digits(n);
    assert(crate::strutil::spec_digit_char(n % 10) as u32 == 0x30 + n % 10);
    assert(digit_val(crate::strutil::spec_digit_char(n % 10)) == n % 10);
    if n < 10 {
        assert(spec_decimal(n).drop_last() =~= Seq::<char>::empty());
        assert(spec_decimal(n).last() == crate::strutil::spec_digit_char(n % 10));
        assert(spec_digits_value(Seq::<char>::empty()) == Some(0nat));
        assert(0nat * 10 + digit_val(spec_decimal(n).last()) == n);
    } else {
        lemma_digits_value_of_decimal(n / 10);
        assert(spec_decimal(n).drop_last() =~= spec_decimal(n / 10));
        assert(spec_decimal(n).last() == crate::strutil::spec_digit_char(n % 10));
        assert((n / 10) * 10 + digit_val(spec_decimal(n).last()) == n);
    }
}

/// The decimal rendering seen from the front: the first byte's digits,
/// then a comma and the rest when there is any.
pub proof fn lemma_csv_cons(b: Seq<u8>)
    requires
        b.len() >= 1,
    ensures
        b.len() == 1 ==> spec_csv(b) == spec_decimal(b[0] as nat),
        b.len() >= 2 ==> spec_csv(b) == spec_decimal(b[0] as nat) + seq![','] + spec_csv(
            b.drop_first(),
        ),
    decreases b.len(),
{
    if b.len() >= 2 {
        lemma_csv_cons(b.drop_last());
        assert(b.drop_last()[0] == b[0]);
        if b.len() == 2 {
            assert(b.drop_last() =~= seq![b[0]]);
            assert(b.drop_first() =~= seq![b[1]]);
            assert(spec_csv(b.drop_first()) == spec_decimal(b[1] as nat));
            assert(spec_csv(b) =~= spec_decimal(b[0] as nat) + seq![','] + spec_csv(
                b.drop_first(),
            ));
        } else {
            assert(b.drop_last().drop_first() =~= b.drop_first().drop_last());
            assert(b.drop_first().len() >= 2);
            assert(b.drop_first()[0] == b[1]);
            assert(b.drop_first().last() == b.last());
            assert(spec_csv(b.drop_first()) == spec_csv(b.drop_first().drop_last()) + seq![
                ',',
            ] + spec_decimal(b.last() as nat));
            assert(spec_csv(b) =~= spec_decimal(b[0] as nat) + seq![','] + spec_csv(
                b.drop_first(),
            ));
        }
    }
}

/// Parsing inverts rendering: the comma-joined decimals of a non-empty
/// byte sequence parse back to exactly that sequence.  The empty sequence
/// renders as empty text, which has one empty segment and does not parse.
pub proof fn lemma_csv_round_trip(b: Seq<u8>)
    requires
        b.len() >= 1,
    ensures
        spec_parse_csv(spec_csv(b)) == Some(b),
    decreases b.len(),
{
    lemma_csv_cons(b);
    lemma_decimal_digits(b[0] as nat);
    lemma_digits_value_of_decimal(b[0] as nat);
    let dec = spec_decimal(b[0] as nat);
    let t = spec_csv(b);
    assert forall|j: int| 0 <= j < dec.len() implies t[j] != ',' by {
        assert(t[j] == dec[j]);
        assert(is_digit(dec[j]));
    }
    if b.len() == 1 {
        lemma_find_comma(t, t.len() as int);
        assert(t.subrange(0, t.len() as int) =~= dec);
        assert(seq![b[0]] =~= b);
    } else {
        assert(t[dec.len() as int] == ',');
        lemma_find_comma(t, dec.len() as int);
        assert(t.subrange(0, dec.len() as int) =~= dec);
        assert(t.subrange(dec.len() as int + 1, t.len() as int) =~= spec_csv(b.drop_first()));
        lemma_csv_round_trip(b.drop_first());
        assert(seq![b[0]] + b.drop_first() =~= b);
    }
}

/// The byte-sequence converter's own round trip: storing what it presents
/// gives the bytes back, for every non-empty input.
pub proof fn lemma_byte_sequence_round_trip(b: Seq<u8>)
    requires
        b.len() >= 1,
    ensures
        ByteSequenceFormat::spec_present(b) matches Ok(t)
            && ByteSequenceFormat::spec_store(t) == Ok::<Seq<u8>, Seq<char>>(b),
{
    lemma_csv_round_trip(b);
}


/// The model guest built over this converter answers the driver's two
/// operations as an exact inverse pair on every non-empty input: its
/// `present` yields the rendering's UTF-8 text, and its `store` on exactly
/// that text yields the original bytes.  These are the hypotheses of the
/// driver round-trip law, discharged for a concrete plugin.
pub proof fn lemma_byte_sequence_guest_round_trip(p: GuestCore<ByteSequenceFormat>, b: Seq<u8>)
    requires
        b.len() >= 1,
    ensures
        p.guest_op(PluginOp::Present, b) == (true, encode_utf8(spec_csv(b))),
        p.guest_op(PluginOp::Store, encode_utf8(spec_csv(b))) == (true, b),
{
    lemma_csv_round_trip(b);
    vstd::utf8::encode_utf8_valid_utf8(spec_csv(b));
    vstd::utf8::encode_utf8_decode_utf8(spec_csv(b));
}

} // verus!
