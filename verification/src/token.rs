//! Byte-level token validation: decimal face indices and floating-point
//! attribute literals.
//!
//! Attribute components are never converted to machine floats here; a token
//! is only checked against the literal grammar, and carried through the
//! pipeline as the bytes it was read from.  Face sub-fields, on the other
//! hand, are decimal integers and are parsed exactly.

use vstd::prelude::*;

verus! {

/// ASCII whitespace, as the format's line records treat it: space, tab, and
/// the line-control characters.
pub open spec fn is_ws(c: u8) -> bool {
    c == 32 || c == 9 || c == 10 || c == 11 || c == 12 || c == 13
}

pub open spec fn is_digit(c: u8) -> bool {
    48 <= c && c <= 57
}

pub open spec fn is_sign(c: u8) -> bool {
    c == 43 || c == 45
}

pub open spec fn is_dot(c: u8) -> bool {
    c == 46
}

/// An exponent marker: `e` or `E`.
pub open spec fn is_exp_mark(c: u8) -> bool {
    c == 101 || c == 69
}

/// The value of a digit string read as a decimal numeral.
pub open spec fn digits_val(s: Seq<u8>) -> int
    decreases s.len(),
{
    if s.len() == 0 {
        0
    } else {
        digits_val(s.drop_last()) * 10 + (s.last() - 48)
    }
}

pub open spec fn all_digits(s: Seq<u8>) -> bool {
    forall|i: int| 0 <= i < s.len() ==> is_digit(#[trigger] s[i])
}

/// What parsing a token as an unsigned 32-bit decimal integer yields: the
/// token must be one or more digits and the value must fit.
pub open spec fn spec_parse_u32(s: Seq<u8>) -> Option<u32> {
    if s.len() > 0 && all_digits(s) && digits_val(s) <= u32::MAX {
        Some(digits_val(s) as u32)
    } else {
        None
    }
}

proof fn lemma_digits_val_nonneg(s: Seq<u8>)
    requires
        all_digits(s),
    ensures
        digits_val(s) >= 0,
    decreases s.len(),
{
    if s.len() > 0 {
        assert(all_digits(s.drop_last()));
        lemma_digits_val_nonneg(s.drop_last());
        assert(is_digit(s[s.len() - 1]));
    }
}

/// A numeral only grows as digits are appended: any prefix reads as a value
/// no larger than the whole.
proof fn lemma_digits_val_prefix(s: Seq<u8>, i: int)
    requires
        all_digits(s),
        0 <= i <= s.len(),
    ensures
        digits_val(s.take(i)) <= digits_val(s),
    decreases s.len() - i,
{
    if i == s.len() {
        assert(s.take(i) =~= s);
    } else {
        assert(s.take(i + 1).drop_last() =~= s.take(i));
        assert(s.take(i + 1).last() == s[i]);
        assert(all_digits(s.take(i)));
        lemma_digits_val_nonneg(s.take(i));
        assert(is_digit(s[i]));
        assert(digits_val(s.take(i)) <= digits_val(s.take(i + 1)));
        lemma_digits_val_prefix(s, i + 1);
    }
}

/// Parses a token as an unsigned 32-bit decimal integer.
pub fn parse_u32_token(s: &Vec<u8>) -> (r: Option<u32>)
    ensures
        r == spec_parse_u32(s@),
{
    if s.len() == 0 {
        return None;
    }
    let mut acc: u64 = 0;
    let mut i: usize = 0;
    while i < s.len()
        invariant
            0 <= i <= s@.len(),
            s@.len() > 0,
            all_digits(s@.take(i as int)),
            acc == digits_val(s@.take(i as int)),
            acc <= u32::MAX,
        decreases s@.len() - i,
    {
        let c = s[i];
        if c < 48 || c > 57 {
            assert(!is_digit(s@[i as int]));
            return None;
        }
        proof {
            assert(s@.take(i + 1).drop_last() =~= s@.take(i as int));
            assert(s@.take(i + 1).last() == s@[i as int]);
        }
        let d: u64 = (c - 48) as u64;
        let next: u64 = acc * 10 + d;
        assert(next == digits_val(s@.take(i + 1)));
        if next > 0xffff_ffff {
            proof {
                if all_digits(s@) {
                    lemma_digits_val_prefix(s@, i + 1);
                }
            }
            return None;
        }
        acc = next;
        i = i + 1;
    }
    proof {
        assert(s@.take(s@.len() as int) =~= s@);
    }
    Some(acc as u32)
}

/// The zero-based index a face sub-field resolves to: a positive decimal
/// integer is decremented by one to undo the format's one-based counting;
/// anything else (absent, empty, non-numeric, zero, or out of the 32-bit
/// range) falls back to the first entry, index zero.
pub open spec fn spec_face_component(s: Seq<u8>) -> u32 {
    match spec_parse_u32(s) {
        Some(n) => if n >= 1 {
            (n - 1) as u32
        } else {
            0u32
        },
        None => 0u32,
    }
}

/// Resolves one face sub-field to a zero-based attribute index.
pub fn face_component(s: &Vec<u8>) -> (r: u32)
    ensures
        r == spec_face_component(s@),
{
    match parse_u32_token(s) {
        Some(n) => if n >= 1 {
            n - 1
        } else {
            0
        },
        None => 0,
    }
}

/// Lower-cases one ASCII letter; any other byte is left alone.
pub open spec fn lower(c: u8) -> u8 {
    if 65 <= c && c <= 90 {
        (c + 32) as u8
    } else {
        c
    }
}

/// Whether a byte string spells a keyword, ignoring letter case.
pub open spec fn matches_keyword(s: Seq<u8>, kw: Seq<u8>) -> bool {
    s.len() == kw.len() && forall|i: int| 0 <= i < s.len() ==> lower(#[trigger] s[i]) == kw[i]
}

pub open spec fn kw_inf() -> Seq<u8> {
    seq![105u8, 110u8, 102u8]
}

pub open spec fn kw_infinity() -> Seq<u8> {
    seq![105u8, 110u8, 102u8, 105u8, 110u8, 105u8, 116u8, 121u8]
}

pub open spec fn kw_nan() -> Seq<u8> {
    seq![110u8, 97u8, 110u8]
}

/// A mantissa: one or more digits with at most one decimal point somewhere
/// among them (the point may lead or trail).
pub open spec fn spec_mantissa(s: Seq<u8>) -> bool {
    &&& forall|i: int| 0 <= i < s.len() ==> is_digit(#[trigger] s[i]) || is_dot(s[i])
    &&& exists|i: int| 0 <= i < s.len() && is_digit(#[trigger] s[i])
    &&& forall|i: int, j: int|
        0 <= i < s.len() && 0 <= j < s.len() && is_dot(#[trigger] s[i]) && is_dot(#[trigger] s[j])
            ==> i == j
}

/// An exponent after its marker: an optional sign, then one or more digits.
pub open spec fn spec_exp_tail(s: Seq<u8>) -> bool {
    let body = if s.len() > 0 && is_sign(s[0]) {
        s.drop_first()
    } else {
        s
    };
    body.len() > 0 && all_digits(body)
}

/// How many bytes precede the first exponent marker (the whole length when
/// there is none).  A mantissa holds no marker, so this is where a number
/// splits into mantissa and exponent.
pub open spec fn prefix_to_exp(s: Seq<u8>) -> nat
    decreases s.len(),
{
    if s.len() == 0 || is_exp_mark(s[0]) {
        0
    } else {
        (1 + prefix_to_exp(s.drop_first())) as nat
    }
}

proof fn lemma_prefix_to_exp(s: Seq<u8>, k: int)
    requires
        0 <= k <= s.len(),
        forall|j: int| 0 <= j < k ==> !is_exp_mark(#[trigger] s[j]),
        k == s.len() || is_exp_mark(s[k]),
    ensures
        prefix_to_exp(s) == k,
    decreases k,
{
    if k == 0 {
    } else {
        assert(!is_exp_mark(s[0]));
        assert(forall|j: int| 0 <= j < k - 1 ==> !is_exp_mark(#[trigger] s.drop_first()[j]));
        lemma_prefix_to_exp(s.drop_first(), k - 1);
    }
}

/// A decimal number: a mantissa, optionally followed by an exponent marker
/// and an exponent.
pub open spec fn spec_number(s: Seq<u8>) -> bool {
    let k = prefix_to_exp(s) as int;
    if k == s.len() {
        spec_mantissa(s)
    } else {
        spec_mantissa(s.take(k)) && spec_exp_tail(s.skip(k + 1))
    }
}

/// Whether a token is a well-formed floating-point literal: an optional
/// leading sign, then `inf`, `infinity` or `nan` in any letter case, or a
/// decimal number with an optional exponent.
pub open spec fn spec_float_token(s: Seq<u8>) -> bool {
    let body = if s.len() > 0 && is_sign(s[0]) {
        s.drop_first()
    } else {
        s
    };
    ||| matches_keyword(body, kw_inf())
    ||| matches_keyword(body, kw_infinity())
    ||| matches_keyword(body, kw_nan())
    ||| spec_number(body)
}

/// Lower-cases one ASCII letter.
fn lower_byte(c: u8) -> (r: u8)
    ensures
        r == lower(c),
{
    if 65 <= c && c <= 90 {
        c + 32
    } else {
        c
    }
}

/// Whether the token's tail from `from` on spells `kw`, ignoring case.
#[verifier::loop_isolation(false)]
fn keyword_match(s: &Vec<u8>, from: usize, kw: &Vec<u8>) -> (r: bool)
    requires
        from <= s@.len(),
    ensures
        r == matches_keyword(s@.skip(from as int), kw@),
{
    if s.len() - from != kw.len() {
        return false;
    }
    let mut i: usize = from;
    while i < s.len()
        invariant
            from <= i <= s@.len(),
            forall|j: int| 0 <= j < i - from ==> lower(#[trigger] s@.skip(from as int)[j]) == kw@[j],
        decreases s@.len() - i,
    {
        if lower_byte(s[i]) != kw[i - from] {
            assert(lower(s@.skip(from as int)[i - from]) != kw@[i - from]);
            return false;
        }
        assert(lower(s@.skip(from as int)[i - from]) == kw@[i - from]);
        i = i + 1;
    }
    true
}

/// Whether the bytes in `[from, to)` form a mantissa.
fn check_mantissa(s: &Vec<u8>, from: usize, to: usize) -> (r: bool)
    requires
        from <= to <= s@.len(),
    ensures
        r == spec_mantissa(s@.subrange(from as int, to as int)),
{
    let ghost m = s@.subrange(from as int, to as int);
    let mut saw_digit: bool = false;
    let ghost mut digit_at: int = 0;
    let mut saw_dot: bool = false;
    let ghost mut dot_at: int = 0;
    let mut i: usize = from;
    while i < to
        invariant
            from <= i <= to <= s@.len(),
            m == s@.subrange(from as int, to as int),
            forall|j: int| 0 <= j < i - from ==> is_digit(#[trigger] m[j]) || is_dot(m[j]),
            saw_digit ==> 0 <= digit_at < i - from && is_digit(m[digit_at]),
            !saw_digit ==> forall|j: int| 0 <= j < i - from ==> !is_digit(#[trigger] m[j]),
            saw_dot ==> 0 <= dot_at < i - from && is_dot(m[dot_at]),
            !saw_dot ==> forall|j: int| 0 <= j < i - from ==> !is_dot(#[trigger] m[j]),
            saw_dot ==> forall|j: int| 0 <= j < i - from && is_dot(#[trigger] m[j]) ==> j == dot_at,
        decreases to - i,
    {
        let c = s[i];
        proof {
            assert(m[i - from] == s@[i as int]);
        }
        if 48 <= c && c <= 57 {
            if !saw_digit {
                saw_digit = true;
                proof {
                    digit_at = i - from;
                }
            }
        } else if c == 46 {
            if saw_dot {
                assert(is_dot(m[dot_at]) && is_dot(m[i - from]) && dot_at != i - from);
                return false;
            }
            saw_dot = true;
            proof {
                dot_at = i - from;
            }
        } else {
            assert(!(is_digit(m[i - from]) || is_dot(m[i - from])));
            return false;
        }
        i = i + 1;
    }
    if saw_digit {
        assert(spec_mantissa(m));
        true
    } else {
        assert(!spec_mantissa(m));
        false
    }
}

/// Whether the bytes from `from` on form an exponent (optional sign, then
/// one or more digits).
#[verifier::loop_isolation(false)]
fn check_exp_tail(s: &Vec<u8>, from: usize) -> (r: bool)
    requires
        from <= s@.len(),
    ensures
        r == spec_exp_tail(s@.skip(from as int)),
{
    let ghost t = s@.skip(from as int);
    let off: usize = if from < s.len() && (s[from] == 43 || s[from] == 45) {
        from + 1
    } else {
        from
    };
    let ghost body = if t.len() > 0 && is_sign(t[0]) {
        t.drop_first()
    } else {
        t
    };
    proof {
        assert(body =~= s@.skip(off as int));
    }
    if off == s.len() {
        return false;
    }
    let mut i: usize = off;
    while i < s.len()
        invariant
            off <= i <= s@.len(),
            body =~= s@.skip(off as int),
            forall|j: int| 0 <= j < i - off ==> is_digit(#[trigger] body[j]),
        decreases s@.len() - i,
    {
        let c = s[i];
        if c < 48 || c > 57 {
            assert(!is_digit(body[i - off]));
            return false;
        }
        assert(is_digit(body[i - off]));
        i = i + 1;
    }
    true
}

/// Validates a token against the floating-point literal grammar.
pub fn is_float_token(s: &Vec<u8>) -> (r: bool)
    ensures
        r == spec_float_token(s@),
{
    let off: usize = if s.len() > 0 && (s[0] == 43 || s[0] == 45) {
        1
    } else {
        0
    };
    let ghost body = if s@.len() > 0 && is_sign(s@[0]) {
        s@.drop_first()
    } else {
        s@
    };
    proof {
        assert(body =~= s@.skip(off as int));
    }
    let mut kw: Vec<u8> = Vec::new();
    kw.push(105);
    kw.push(110);
    kw.push(102);
    proof {
        assert(kw@ =~= kw_inf());
    }
    if keyword_match(s, off, &kw) {
        return true;
    }
    kw.push(105);
    kw.push(110);
    kw.push(105);
    kw.push(116);
    kw.push(121);
    proof {
        assert(kw@ =~= kw_infinity());
    }
    if keyword_match(s, off, &kw) {
        return true;
    }
    let mut kw2: Vec<u8> = Vec::new();
    kw2.push(110);
    kw2.push(97);
    kw2.push(110);
    proof {
        assert(kw2@ =~= kw_nan());
    }
    if keyword_match(s, off, &kw2) {
        return true;
    }
    let n = s.len();
    let mut k: usize = off;
    while k < n && s[k] != 101 && s[k] != 69
        invariant
            off <= k <= n == s@.len(),
            forall|j: int| off <= j < k ==> !is_exp_mark(#[trigger] s@[j]),
        decreases n - k,
    {
        k = k + 1;
    }
    proof {
        assert(forall|j: int| 0 <= j < k - off ==> !is_exp_mark(#[trigger] body[j]));
        lemma_prefix_to_exp(body, k - off);
    }
    if k == n {
        proof {
            assert(body =~= s@.subrange(off as int, n as int));
        }
        let r = check_mantissa(s, off, n);
        assert(r == spec_number(body));
        r
    } else {
        proof {
            assert(body.take(k - off) =~= s@.subrange(off as int, k as int));
        }
        let m = check_mantissa(s, off, k);
        if !m {
            assert(!spec_number(body));
            return false;
        }
        proof {
            assert(body.skip(k - off + 1) =~= s@.skip(k + 1));
        }
        let e = check_exp_tail(s, k + 1);
        assert((m && e) == spec_number(body));
        e
    }
}

/// Copies a token's bytes into an owned buffer.
pub fn copy_bytes(s: &Vec<u8>) -> (r: Vec<u8>)
    ensures
        r@ == s@,
{
    let mut r: Vec<u8> = Vec::new();
    let mut i: usize = 0;
    while i < s.len()
        invariant
            0 <= i <= s@.len(),
            r@ == s@.take(i as int),
        decreases s@.len() - i,
    {
        proof {
            assert(s@.take(i + 1).drop_last() =~= s@.take(i as int));
        }
        r.push(s[i]);
        i = i + 1;
    }
    proof {
        assert(s@.take(s@.len() as int) =~= s@);
    }
    r
}


} // verus!
