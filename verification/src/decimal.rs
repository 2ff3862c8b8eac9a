//! Coordinates as decimal text.
//!
//! On the wire a coordinate is a number in decimal notation: an optional
//! sign, digits with an optional point among them, and optionally an
//! exponent (`12`, `-3.75`, `+.5`, `7.`, `1.5e3`, `25E-1`). At least one digit
//! is required before the exponent and one in it. The words `inf`,
//! `infinity` and `nan`, in any case and with an optional sign, are numbers
//! too. Nothing else is: no blanks, no digit separators.
//!
//! Reading a number rounds it to the nearest whole number, halves away from
//! zero, and keeps the result inside the `i32` range; the infinities read as
//! the two ends of that range and `nan` as zero. The rounding is that of the
//! decimal number as written, to any number of digits.
//!
//! A `Coordinate` keeps a number as it was written, so that nothing of it is
//! lost before it has to be rounded.

use vstd::prelude::*;
use crate::text::{copy_range, from_chars, lemma_split_single, pieces_view, split, split_on, to_chars};

verus! {

/// One more than the largest `i32`: magnitudes are counted up to here and no
/// further.
pub const MAGNITUDE_CAP: u128 = 2147483648;

/// Exponents are counted up to here and no further: more than any text has
/// digits.
pub const EXPONENT_CAP: u128 = 0x2_0000_0000_0000_0000;

/// Whether `c` is one of `0` to `9`.
pub open spec fn is_digit(c: char) -> bool {
    '0' <= c <= '9'
}

/// The number that a digit stands for.
pub open spec fn digit_value(c: char) -> int {
    c as u32 - '0' as u32
}

/// Whether `s` holds nothing but digits.
pub open spec fn all_digits(s: Seq<char>) -> bool {
    forall|i: int| 0 <= i < s.len() ==> is_digit(#[trigger] s[i])
}

/// The number that a run of digits writes in base ten; the empty run is zero.
pub open spec fn digits_value(s: Seq<char>) -> nat
    decreases s.len(),
{
    if s.len() == 0 {
        0
    } else {
        (digits_value(s.drop_last()) * 10 + digit_value(s.last())) as nat
    }
}

/// A run of `k` zeros.
pub open spec fn zeros(k: nat) -> Seq<char> {
    Seq::new(k, |i: int| '0')
}

/// The letter in lower case if it is one of `A` to `Z`, else the character
/// itself.
pub open spec fn lower(c: char) -> char {
    if 'A' <= c <= 'Z' {
        ((c as u32 + 32) as u8) as char
    } else {
        c
    }
}

/// The text with `A` to `Z` in lower case.
pub open spec fn lowered(s: Seq<char>) -> Seq<char> {
    Seq::new(s.len(), |i: int| lower(s[i]))
}

/// Whether the text starts with `+` or `-`.
pub open spec fn has_sign(s: Seq<char>) -> bool {
    s.len() > 0 && (s[0] == '-' || s[0] == '+')
}

/// Whether the text starts with `-`.
pub open spec fn is_negative(s: Seq<char>) -> bool {
    s.len() > 0 && s[0] == '-'
}

/// The text after its sign, if it has one.
pub open spec fn unsigned_part(s: Seq<char>) -> Seq<char> {
    if has_sign(s) {
        s.skip(1)
    } else {
        s
    }
}

/// The text after its sign, in lower case.
pub open spec fn body(s: Seq<char>) -> Seq<char> {
    lowered(unsigned_part(s))
}

/// Whether the text, sign aside, is one of the two words for infinity.
pub open spec fn is_infinity(s: Seq<char>) -> bool {
    body(s) == seq!['i', 'n', 'f'] || body(s) == seq!['i', 'n', 'f', 'i', 'n', 'i', 't', 'y']
}

/// Whether the text, sign aside, is the word for not-a-number.
pub open spec fn is_nan(s: Seq<char>) -> bool {
    body(s) == seq!['n', 'a', 'n']
}

/// What stands before the exponent: digits and perhaps a point.
pub open spec fn mantissa_text(s: Seq<char>) -> Seq<char> {
    split_on(body(s), 'e')[0]
}

/// Whether the text has an exponent.
pub open spec fn has_exponent(s: Seq<char>) -> bool {
    split_on(body(s), 'e').len() >= 2
}

/// What stands after the `e`: a sign perhaps, and digits.
pub open spec fn exponent_text(s: Seq<char>) -> Seq<char> {
    if has_exponent(s) {
        split_on(body(s), 'e')[1]
    } else {
        Seq::empty()
    }
}

/// The digits before the point.
pub open spec fn whole_part(s: Seq<char>) -> Seq<char> {
    split_on(mantissa_text(s), '.')[0]
}

/// The digits after the point; empty when there is no point.
pub open spec fn fraction_part(s: Seq<char>) -> Seq<char> {
    let parts = split_on(mantissa_text(s), '.');
    if parts.len() >= 2 {
        parts[1]
    } else {
        Seq::empty()
    }
}

/// Whether `s` is written in digits: a mantissa of digits around at most one
/// point, at least one digit in it, and perhaps an exponent of at least one
/// digit.
pub open spec fn is_decimal(s: Seq<char>) -> bool {
    &&& split_on(body(s), 'e').len() <= 2
    &&& split_on(mantissa_text(s), '.').len() <= 2
    &&& all_digits(whole_part(s))
    &&& all_digits(fraction_part(s))
    &&& whole_part(s).len() + fraction_part(s).len() > 0
    &&& has_exponent(s) ==> {
        &&& all_digits(unsigned_part(exponent_text(s)))
        &&& unsigned_part(exponent_text(s)).len() > 0
    }
}

/// Whether `s` is a number in the notation of this module.
pub open spec fn is_number(s: Seq<char>) -> bool {
    is_infinity(s) || is_nan(s) || is_decimal(s)
}

/// An exponent from its sign and its size.
pub open spec fn signed_exponent(negative: bool, size: nat) -> int {
    if negative {
        -size
    } else {
        size as int
    }
}

/// The exponent: by how many places the point is to be moved to the right;
/// zero when none is written.
pub open spec fn exponent(s: Seq<char>) -> int {
    signed_exponent(is_negative(exponent_text(s)), digits_value(unsigned_part(exponent_text(s))))
}

/// All digits of the mantissa, the point left out.
pub open spec fn mantissa(s: Seq<char>) -> Seq<char> {
    whole_part(s) + fraction_part(s)
}

/// Where the point stands among the digits of the mantissa once the exponent
/// has moved it: so many digits are before it. Zero or less puts it before
/// the first digit, more than there are digits puts it behind the last.
pub open spec fn point(s: Seq<char>) -> int {
    whole_part(s).len() + exponent(s)
}

/// The digits of `m` before a point that stands behind its first `p` digits,
/// with zeros added where the point stands behind the last digit.
pub open spec fn digits_before(m: Seq<char>, p: int) -> Seq<char> {
    if p <= 0 {
        Seq::empty()
    } else if p <= m.len() {
        m.take(p)
    } else {
        m + zeros((p - m.len()) as nat)
    }
}

/// Whether what stands after the point is a half or more: its first digit is
/// 5 or more.
pub open spec fn half_or_more(m: Seq<char>, p: int) -> bool {
    0 <= p < m.len() && m[p] >= '5'
}

/// The digits `m` with the point behind the first `p` of them, rounded to a
/// whole number, halves upwards.
pub open spec fn rounded_magnitude(m: Seq<char>, p: int) -> nat {
    digits_value(digits_before(m, p)) + if half_or_more(m, p) { 1nat } else { 0nat }
}

/// The nearest whole number to the number that `s` writes in digits, halves
/// away from zero.
pub open spec fn nearest_whole(s: Seq<char>) -> int {
    let magnitude = rounded_magnitude(mantissa(s), point(s));
    if is_negative(s) {
        -magnitude
    } else {
        magnitude as int
    }
}

/// `v` if it is inside the `i32` range, else the end of the range on its
/// side.
pub open spec fn clamp_i32(v: int) -> int {
    if v < i32::MIN {
        i32::MIN as int
    } else if v > i32::MAX {
        i32::MAX as int
    } else {
        v
    }
}

/// What a coordinate text reads as: nothing if it is not a number; an end of
/// the `i32` range for an infinity; zero for not-a-number; else the nearest
/// whole number kept inside the `i32` range.
pub open spec fn rounded_value(s: Seq<char>) -> Option<int> {
    if is_infinity(s) {
        Some(if is_negative(s) { i32::MIN as int } else { i32::MAX as int })
    } else if is_nan(s) {
        Some(0)
    } else if is_decimal(s) {
        Some(clamp_i32(nearest_whole(s)))
    } else {
        None
    }
}

/// Whether every character of `s` is a decimal digit.
pub fn check_digits(s: &Vec<char>) -> (r: bool)
    ensures
        r == all_digits(s@),
{
    let mut i: usize = 0;
    while i < s.len()
        invariant
            i <= s.len(),
            forall|k: int| 0 <= k < i ==> is_digit(#[trigger] s@[k]),
        decreases s.len() - i,
    {
        let c = s[i];
        if !('0' <= c && c <= '9') {
            return false;
        }
        i += 1;
    }
    true
}

/// The value of the first `count` digits of a run, counted no further than
/// `cap`.
pub fn read_digits(s: &Vec<char>, count: usize, cap: u128) -> (r: u128)
    requires
        all_digits(s@),
        count <= s.len(),
        cap <= EXPONENT_CAP,
    ensures
        r == if digits_value(s@.take(count as int)) < cap {
            digits_value(s@.take(count as int)) as int
        } else {
            cap as int
        },
{
    let mut acc: u128 = 0;
    let mut i: usize = 0;
    assert(s@.take(0) == Seq::<char>::empty());
    while i < count
        invariant
            i <= count <= s.len(),
            all_digits(s@),
            cap <= EXPONENT_CAP,
            acc <= cap,
            acc == if digits_value(s@.take(i as int)) < cap {
                digits_value(s@.take(i as int)) as int
            } else {
                cap as int
            },
        decreases count - i,
    {
        let c = s[i];
        assert(is_digit(s@[i as int]));
        assert(s@.take(i + 1).drop_last() == s@.take(i as int));
        assert(s@.take(i + 1).last() == c);
        let d: u128 = (c as u32 - '0' as u32) as u128;
        let next: u128 = acc * 10 + d;
        acc = if next > cap { cap } else { next };
        i += 1;
    }
    acc
}

/// The text with `A` to `Z` in lower case.
pub fn to_lower(s: &Vec<char>) -> (r: Vec<char>)
    ensures
        r@ == lowered(s@),
{
    let mut out: Vec<char> = Vec::new();
    let mut i: usize = 0;
    while i < s.len()
        invariant
            i <= s.len(),
            out@.len() == i,
            forall|k: int| 0 <= k < i ==> out@[k] == lower(s@[k]),
        decreases s.len() - i,
    {
        let c = s[i];
        if 'A' <= c && c <= 'Z' {
            out.push(((c as u32 + 32) as u8) as char);
        } else {
            out.push(c);
        }
        i += 1;
    }
    assert(out@ =~= lowered(s@));
    out
}

/// Whether `s` is `inf` or `infinity`.
fn is_infinity_word(s: &Vec<char>) -> (r: bool)
    ensures
        r == (s@ == seq!['i', 'n', 'f'] || s@ == seq!['i', 'n', 'f', 'i', 'n', 'i', 't', 'y']),
{
    if s.len() == 3 {
        let r = s[0] == 'i' && s[1] == 'n' && s[2] == 'f';
        assert(r == (s@ =~= seq!['i', 'n', 'f']));
        r
    } else if s.len() == 8 {
        let r = s[0] == 'i' && s[1] == 'n' && s[2] == 'f' && s[3] == 'i' && s[4] == 'n' && s[5] == 'i' && s[6]
            == 't' && s[7] == 'y';
        assert(r == (s@ =~= seq!['i', 'n', 'f', 'i', 'n', 'i', 't', 'y']));
        r
    } else {
        false
    }
}

/// Whether `s` is `nan`.
fn is_nan_word(s: &Vec<char>) -> (r: bool)
    ensures
        r == (s@ == seq!['n', 'a', 'n']),
{
    if s.len() == 3 {
        let r = s[0] == 'n' && s[1] == 'a' && s[2] == 'n';
        assert(r == (s@ =~= seq!['n', 'a', 'n']));
        r
    } else {
        false
    }
}

/// Adding one zero to a run multiplies what it writes by ten.
proof fn lemma_one_more_zero(m: Seq<char>, k: nat)
    ensures
        digits_value(m + zeros(k + 1)) == 10 * digits_value(m + zeros(k)),
{
    let longer = m + zeros(k + 1);
    assert(longer.drop_last() =~= m + zeros(k));
    assert(longer.last() == '0');
}

/// Adding zeros to a run never makes what it writes smaller, and leaves zero
/// at zero.
proof fn lemma_more_zeros(m: Seq<char>, k: nat, more: nat)
    ensures
        digits_value(m + zeros(k + more)) >= digits_value(m + zeros(k)),
        digits_value(m + zeros(k)) == 0 ==> digits_value(m + zeros(k + more)) == 0,
    decreases more,
{
    if more > 0 {
        lemma_more_zeros(m, k, (more - 1) as nat);
        lemma_one_more_zero(m, (k + more - 1) as nat);
    }
}

/// Ten zeros or more behind a run that does not write zero take it past
/// every magnitude that is counted.
proof fn lemma_ten_zeros(m: Seq<char>, k: nat)
    requires
        k >= 10,
    ensures
        digits_value(m) == 0 ==> digits_value(m + zeros(k)) == 0,
        digits_value(m) >= 1 ==> digits_value(m + zeros(k)) >= 10_000_000_000,
{
    assert(m + zeros(0) =~= m);
    lemma_one_more_zero(m, 0);
    lemma_one_more_zero(m, 1);
    lemma_one_more_zero(m, 2);
    lemma_one_more_zero(m, 3);
    lemma_one_more_zero(m, 4);
    lemma_one_more_zero(m, 5);
    lemma_one_more_zero(m, 6);
    lemma_one_more_zero(m, 7);
    lemma_one_more_zero(m, 8);
    lemma_one_more_zero(m, 9);
    lemma_more_zeros(m, 10, (k - 10) as nat);
}

/// What a run of digits writes with `extra` zeros behind it, counted no
/// further than `MAGNITUDE_CAP`.
fn read_with_zeros(digits: &Vec<char>, extra: u128) -> (r: u128)
    requires
        all_digits(digits@),
    ensures
        r == if digits_value(digits@ + zeros(extra as nat)) < MAGNITUDE_CAP {
            digits_value(digits@ + zeros(extra as nat)) as int
        } else {
            MAGNITUDE_CAP as int
        },
{
    let mut acc = read_digits(digits, digits.len(), MAGNITUDE_CAP);
    let mut k: u128 = 0;
    assert(digits@.take(digits.len() as int) == digits@);
    assert(digits@ + zeros(0) =~= digits@);
    while k < extra && acc != 0 && acc < MAGNITUDE_CAP
        invariant
            k <= extra,
            acc <= MAGNITUDE_CAP,
            acc == if digits_value(digits@ + zeros(k as nat)) < MAGNITUDE_CAP {
                digits_value(digits@ + zeros(k as nat)) as int
            } else {
                MAGNITUDE_CAP as int
            },
        decreases extra - k,
    {
        proof {
            lemma_one_more_zero(digits@, k as nat);
        }
        let next: u128 = acc * 10;
        acc = if next > MAGNITUDE_CAP { MAGNITUDE_CAP } else { next };
        k += 1;
    }
    proof {
        lemma_more_zeros(digits@, k as nat, (extra - k) as nat);
    }
    acc
}

/// Reads what stands before the exponent: the digits around at most one
/// point, and how many of them stand before it. `None` unless there is at
/// least one digit and nothing but digits and that one point.
fn scan_mantissa(written: &Vec<char>) -> (r: Option<(Vec<char>, usize)>)
    ensures
        ({
            let parts = split_on(written@, '.');
            let fraction = if parts.len() >= 2 { parts[1] } else { Seq::<char>::empty() };
            let well_formed = parts.len() <= 2 && all_digits(parts[0]) && all_digits(fraction) && parts[0].len()
                + fraction.len() > 0;
            match r {
                Some((digits, whole_len)) => {
                    &&& well_formed
                    &&& digits@ == parts[0] + fraction
                    &&& whole_len == parts[0].len()
                },
                None => !well_formed,
            }
        }),
{
    let around_point = split(written, '.');
    assert(pieces_view(around_point@).len() == around_point@.len());
    assert(pieces_view(around_point@)[0] == around_point@[0]@);
    if around_point.len() > 2 {
        return None;
    }
    let whole = &around_point[0];
    let whole_len = whole.len();
    if !check_digits(whole) {
        return None;
    }
    let mut digits = copy_range(whole, 0, whole_len);
    assert(digits@ == whole@);
    if around_point.len() == 2 {
        let fraction = &around_point[1];
        assert(fraction@ == pieces_view(around_point@)[1]);
        if !check_digits(fraction) {
            return None;
        }
        let mut i: usize = 0;
        while i < fraction.len()
            invariant
                i <= fraction.len(),
                digits@ == whole@ + fraction@.take(i as int),
            decreases fraction.len() - i,
        {
            digits.push(fraction[i]);
            assert(fraction@.take(i + 1) == fraction@.take(i as int).push(fraction@[i as int]));
            i += 1;
        }
        assert(fraction@.take(fraction.len() as int) == fraction@);
    } else {
        assert(digits@ + Seq::<char>::empty() == digits@);
    }
    if digits.len() == 0 {
        return None;
    }
    Some((digits, whole_len))
}

/// Reads what stands after the `e`: whether it is negative, and its size
/// counted no further than `EXPONENT_CAP`. `None` unless it is digits, at
/// least one, behind at most one sign.
fn scan_exponent(written: &Vec<char>) -> (r: Option<(bool, u128)>)
    ensures
        ({
            let digits = unsigned_part(written@);
            let well_formed = all_digits(digits) && digits.len() > 0;
            match r {
                Some((negative, size)) => {
                    &&& well_formed
                    &&& negative == is_negative(written@)
                    &&& size == if digits_value(digits) < EXPONENT_CAP {
                        digits_value(digits) as int
                    } else {
                        EXPONENT_CAP as int
                    }
                },
                None => !well_formed,
            }
        }),
{
    let len = written.len();
    let signed = len > 0 && (written[0] == '-' || written[0] == '+');
    let negative = len > 0 && written[0] == '-';
    let from: usize = if signed { 1 } else { 0 };
    let digits = copy_range(written, from, len);
    assert(digits@ == unsigned_part(written@));
    if digits.len() == 0 || !check_digits(&digits) {
        return None;
    }
    let size = read_digits(&digits, digits.len(), EXPONENT_CAP);
    assert(digits@.take(digits.len() as int) == digits@);
    Some((negative, size))
}

/// Rounds the digits with the point moved by the exponent, counted no
/// further than one past `MAGNITUDE_CAP`. The exponent comes as its sign and
/// its size counted up to `EXPONENT_CAP`; `written_size` is the size as it
/// was written.
fn round_at(
    digits: &Vec<char>,
    whole_len: usize,
    exponent_negative: bool,
    exponent_size: u128,
    Ghost(written_size): Ghost<nat>,
) -> (r: u128)
    requires
        all_digits(digits@),
        digits.len() > 0,
        whole_len <= digits.len(),
        exponent_size == if written_size < EXPONENT_CAP { written_size as int } else { EXPONENT_CAP as int },
    ensures
        ({
            let exact = rounded_magnitude(digits@, whole_len + signed_exponent(exponent_negative, written_size));
            &&& r <= MAGNITUDE_CAP + 1
            &&& exact < MAGNITUDE_CAP ==> r == exact
            &&& exact >= MAGNITUDE_CAP ==> r >= MAGNITUDE_CAP
        }),
{
    let total = digits.len();
    let ghost p = whole_len + signed_exponent(exponent_negative, written_size);
    if exponent_negative {
        if exponent_size >= whole_len as u128 {
            assert(p <= 0);
            if exponent_size == whole_len as u128 && digits[0] >= '5' {
                1
            } else {
                0
            }
        } else {
            let before: usize = whole_len - exponent_size as usize;
            assert(before == p);
            let counted = read_digits(digits, before, MAGNITUDE_CAP);
            if before < total && digits[before] >= '5' {
                counted + 1
            } else {
                counted
            }
        }
    } else {
        let fraction_len = total - whole_len;
        if exponent_size < fraction_len as u128 {
            let before: usize = whole_len + exponent_size as usize;
            assert(before == p);
            let counted = read_digits(digits, before, MAGNITUDE_CAP);
            if digits[before] >= '5' {
                counted + 1
            } else {
                counted
            }
        } else {
            let extra: u128 = exponent_size - fraction_len as u128;
            let counted = read_with_zeros(digits, extra);
            proof {
                let true_extra = (p - total) as nat;
                if written_size >= EXPONENT_CAP {
                    lemma_ten_zeros(digits@, true_extra);
                    lemma_ten_zeros(digits@, extra as nat);
                } else {
                    assert(true_extra == extra);
                }
                if true_extra == 0 {
                    assert(digits@ + zeros(0) =~= digits@);
                    assert(digits@.take(total as int) == digits@);
                }
            }
            counted
        }
    }
}

/// Gives a rounded magnitude its sign and keeps it inside the `i32` range.
fn with_sign(negative: bool, magnitude: u128, Ghost(exact): Ghost<nat>) -> (r: i32)
    requires
        magnitude <= MAGNITUDE_CAP + 1,
        exact < MAGNITUDE_CAP ==> magnitude == exact,
        exact >= MAGNITUDE_CAP ==> magnitude >= MAGNITUDE_CAP,
    ensures
        r == clamp_i32(if negative { -exact } else { exact as int }),
{
    if negative {
        if magnitude >= MAGNITUDE_CAP {
            i32::MIN
        } else {
            -(magnitude as i64) as i32
        }
    } else {
        if magnitude >= MAGNITUDE_CAP {
            i32::MAX
        } else {
            magnitude as i32
        }
    }
}

/// Reads a number written in digits, given its sign and the rest of it in
/// lower case.
fn parse_decimal(negative: bool, text: &Vec<char>, Ghost(s): Ghost<Seq<char>>) -> (r: Option<i32>)
    requires
        text@ == body(s),
        negative == is_negative(s),
    ensures
        match r {
            Some(v) => is_decimal(s) && v == clamp_i32(nearest_whole(s)),
            None => !is_decimal(s),
        },
{
    let parts = split(text, 'e');
    assert(pieces_view(parts@).len() == parts@.len());
    assert(pieces_view(parts@)[0] == parts@[0]@);
    if parts.len() > 2 {
        return None;
    }
    let (digits, whole_len) = match scan_mantissa(&parts[0]) {
        Some(found) => found,
        None => {
            return None;
        },
    };
    assert(digits@ == mantissa(s));
    let mut exponent_negative = false;
    let mut exponent_size: u128 = 0;
    if parts.len() == 2 {
        assert(parts@[1]@ == exponent_text(s));
        match scan_exponent(&parts[1]) {
            Some((negative, size)) => {
                exponent_negative = negative;
                exponent_size = size;
            },
            None => {
                return None;
            },
        }
    } else {
        assert(exponent_text(s) == Seq::<char>::empty());
    }
    let ghost written_size = digits_value(unsigned_part(exponent_text(s)));
    assert(signed_exponent(exponent_negative, written_size) == exponent(s));
    let magnitude = round_at(&digits, whole_len, exponent_negative, exponent_size, Ghost(written_size));
    Some(with_sign(negative, magnitude, Ghost(rounded_magnitude(mantissa(s), point(s)))))
}

/// Reads a coordinate text: `None` unless it is a number; an end of the
/// `i32` range for an infinity, zero for not-a-number; else the nearest whole
/// number, halves away from zero, kept inside the `i32` range.
pub fn parse_rounded(s: &Vec<char>) -> (r: Option<i32>)
    ensures
        r is Some <==> is_number(s@),
        match r {
            Some(v) => rounded_value(s@) == Some(v as int),
            None => rounded_value(s@) is None,
        },
{
    let n = s.len();
    let signed = n > 0 && (s[0] == '-' || s[0] == '+');
    let negative = n > 0 && s[0] == '-';
    let start: usize = if signed { 1 } else { 0 };
    let unsigned = copy_range(s, start, n);
    assert(unsigned@ == unsigned_part(s@));
    let text = to_lower(&unsigned);
    if is_infinity_word(&text) {
        return Some(if negative { i32::MIN } else { i32::MAX });
    }
    if is_nan_word(&text) {
        return Some(0);
    }
    parse_decimal(negative, &text, Ghost(s@))
}

/// The digit that stands for `d`, for `d` from 0 to 9.
pub open spec fn digit_char(d: int) -> char {
    (48 + d) as u8 as char
}

/// The digits of `n` in base ten, most significant first, no leading zeros.
pub open spec fn decimal_digits(n: nat) -> Seq<char>
    decreases n,
{
    if n < 10 {
        seq![digit_char(n as int)]
    } else {
        decimal_digits(n / 10).push(digit_char((n % 10) as int))
    }
}

/// A whole number in decimal notation, with `-` in front when negative.
pub open spec fn decimal_text(v: int) -> Seq<char> {
    if v < 0 {
        seq!['-'] + decimal_digits((-v) as nat)
    } else {
        decimal_digits(v as nat)
    }
}

/// Appends the decimal digits of `n`.
pub fn push_digits(out: &mut Vec<char>, n: u64)
    ensures
        final(out)@ == old(out)@ + decimal_digits(n as nat),
    decreases n,
{
    if n < 10 {
        out.push((48 + n as u8) as char);
    } else {
        push_digits(out, n / 10);
        out.push((48 + (n % 10) as u8) as char);
    }
}

/// Writes a whole number in decimal notation.
pub fn format_whole(v: i32) -> (r: Vec<char>)
    ensures
        r@ == decimal_text(v as int),
{
    let mut out: Vec<char> = Vec::new();
    if v < 0 {
        out.push('-');
        push_digits(&mut out, (-(v as i64)) as u64);
    } else {
        push_digits(&mut out, v as u64);
        assert(out@ == decimal_digits(v as nat));
    }
    out
}

/// The digits written for `n` are digits, at least one of them, and they
/// write `n`.
pub proof fn lemma_decimal_digits(n: nat)
    ensures
        decimal_digits(n).len() >= 1,
        all_digits(decimal_digits(n)),
        digits_value(decimal_digits(n)) == n,
    decreases n,
{
    if n < 10 {
        let d = decimal_digits(n);
        assert(d.drop_last() == Seq::<char>::empty());
        assert(digits_value(d.drop_last()) == 0);
    } else {
        lemma_decimal_digits(n / 10);
        let front = decimal_digits(n / 10);
        let d = decimal_digits(n);
        assert(d.drop_last() == front);
        assert(digit_value(d.last()) == n % 10);
    }
}

/// A run of digits holds no character that is not a digit.
pub proof fn lemma_digits_exclude(s: Seq<char>, c: char)
    requires
        all_digits(s),
        !is_digit(c),
    ensures
        !s.contains(c),
{
}

/// Every character of a written whole number is a digit or the minus sign,
/// and the last one is a digit.
pub proof fn lemma_decimal_text_chars(v: int)
    ensures
        decimal_text(v).len() >= 1,
        is_digit(decimal_text(v).last()),
        forall|i: int| 0 <= i < decimal_text(v).len() ==> is_digit(#[trigger] decimal_text(v)[i])
            || decimal_text(v)[i] == '-',
{
    if v < 0 {
        lemma_decimal_digits((-v) as nat);
    } else {
        lemma_decimal_digits(v as nat);
    }
}

/// Lower case leaves a run of digits as it is.
proof fn lemma_digits_lowered(s: Seq<char>)
    requires
        all_digits(s),
    ensures
        lowered(s) == s,
{
    assert(lowered(s) =~= s);
}

/// A text that is a run of digits behind at most one sign is a number
/// written in digits, without a fraction and without an exponent.
proof fn lemma_whole_number_parts(text: Seq<char>, digits: Seq<char>)
    requires
        all_digits(digits),
        digits.len() > 0,
        unsigned_part(text) == digits,
    ensures
        !is_infinity(text),
        !is_nan(text),
        is_decimal(text),
        mantissa(text) == digits,
        point(text) == digits.len(),
{
    lemma_digits_lowered(digits);
    assert(body(text) == digits);
    assert(is_digit(digits[0]));
    assert(!is_infinity(text)) by {
        assert(seq!['i', 'n', 'f'][0] == 'i');
        assert(seq!['i', 'n', 'f', 'i', 'n', 'i', 't', 'y'][0] == 'i');
    }
    assert(!is_nan(text)) by {
        assert(seq!['n', 'a', 'n'][0] == 'n');
    }
    assert(split_on(digits, 'e') == seq![digits]) by {
        lemma_digits_exclude(digits, 'e');
        lemma_split_single(digits, 'e');
    }
    assert(split_on(digits, '.') == seq![digits]) by {
        lemma_digits_exclude(digits, '.');
        lemma_split_single(digits, '.');
    }
    assert(mantissa_text(text) == digits);
    assert(!has_exponent(text));
    assert(whole_part(text) == digits);
    assert(fraction_part(text) == Seq::<char>::empty());
    assert(digits + Seq::<char>::empty() =~= digits);
    assert(exponent_text(text) == Seq::<char>::empty());
    assert(unsigned_part(Seq::<char>::empty()) == Seq::<char>::empty());
    assert(exponent(text) == 0);
}

/// Writing a whole number and reading it back gives the number.
pub proof fn lemma_decimal_text_reads_back(v: int)
    requires
        i32::MIN <= v <= i32::MAX,
    ensures
        rounded_value(decimal_text(v)) == Some(v),
{
    let text = decimal_text(v);
    let digits = if v < 0 { decimal_digits((-v) as nat) } else { decimal_digits(v as nat) };
    if v < 0 {
        lemma_decimal_digits((-v) as nat);
        assert(text.skip(1) == digits);
    } else {
        lemma_decimal_digits(v as nat);
    }
    assert(is_digit(digits[0]));
    assert(unsigned_part(text) == digits);
    lemma_whole_number_parts(text, digits);
    assert(digits_before(digits, digits.len() as int) =~= digits);
}

/// A written whole number holds nothing but digits and the minus sign.
pub proof fn lemma_decimal_text_excludes(v: int, c: char)
    requires
        !is_digit(c),
        c != '-',
    ensures
        !decimal_text(v).contains(c),
{
    lemma_decimal_text_chars(v);
}

/// The whole number that a coordinate text stands for once it is rounded.
/// A text that is no number stands for zero; a `Coordinate` never holds one.
pub open spec fn whole_of(s: Seq<char>) -> int {
    match rounded_value(s) {
        Some(v) => v,
        None => 0,
    }
}

/// A number is rounded to something inside the `i32` range.
pub proof fn lemma_whole_in_range(s: Seq<char>)
    ensures
        i32::MIN <= whole_of(s) <= i32::MAX,
        is_number(s) <==> rounded_value(s) is Some,
{
}

/// A coordinate as it was reported: a number in the notation of this module,
/// kept as its text, with every digit it came with.
pub struct Coordinate {
    text: String,
}

impl View for Coordinate {
    type V = Seq<char>;

    closed spec fn view(&self) -> Seq<char> {
        self.text@
    }
}

impl Coordinate {
    #[verifier::type_invariant]
    spec fn well_formed(self) -> bool {
        is_number(self@)
    }

    /// The coordinate that the characters write, if they write a number.
    pub fn from_chars(chars: &Vec<char>) -> (r: Option<Coordinate>)
        ensures
            r is Some <==> is_number(chars@),
            r matches Some(c) ==> c@ == chars@,
    {
        match parse_rounded(chars) {
            Some(_) => Some(Coordinate { text: from_chars(chars) }),
            None => None,
        }
    }

    /// The coordinate that the text writes, if it writes a number.
    pub fn parse(text: &str) -> (r: Option<Coordinate>)
        ensures
            r is Some <==> is_number(text@),
            r matches Some(c) ==> c@ == text@,
    {
        let chars = to_chars(text);
        Coordinate::from_chars(&chars)
    }

    /// The coordinate of a whole number.
    pub fn from_whole(v: i32) -> (c: Coordinate)
        ensures
            c@ == decimal_text(v as int),
    {
        let chars = format_whole(v);
        proof {
            lemma_decimal_text_reads_back(v as int);
        }
        Coordinate { text: from_chars(&chars) }
    }

    /// The coordinate as it was written.
    pub fn as_str(&self) -> (r: &str)
        ensures
            r@ == self@,
            is_number(self@),
    {
        proof {
            use_type_invariant(self);
        }
        self.text.as_str()
    }

    /// The coordinate rounded to the nearest whole number, halves away from
    /// zero, inside the `i32` range.
    pub fn rounded(&self) -> (r: i32)
        ensures
            r == whole_of(self@),
            is_number(self@),
    {
        proof {
            use_type_invariant(self);
        }
        let chars = to_chars(self.text.as_str());
        match parse_rounded(&chars) {
            Some(v) => v,
            None => 0,
        }
    }
}

} // verus!
