//! What the methods of the built-in types compute, over plain values:
//! integers, and strings as their UTF-8 bytes.
use vstd::prelude::*;
use vstd::utf8::*;
use crate::lexer::string_from_chars;
use crate::utils::{digit_char, rev_digits};

verus! {

/// Absolute value of an integer; none for the one integer whose absolute
/// value does not fit
pub fn int64_abs(v: i64) -> (r: Option<i64>)
    ensures
        r == (if v == i64::MIN { None } else { Some((if v > 0 { v as int } else { -v }) as i64) }),
{
    if v == i64::MIN {
        return None;
    }
    Some(if v > 0 { v } else { -v })
}

/// The smaller of two integers
pub fn int64_min(v: i64, other: i64) -> (r: i64)
    ensures
        r == (if v <= other { v } else { other }),
{
    if v <= other { v } else { other }
}

/// The larger of two integers
pub fn int64_max(v: i64, other: i64) -> (r: i64)
    ensures
        r == (if v >= other { v } else { other }),
{
    if v >= other { v } else { other }
}

/// Quotient of a division rounded toward zero
pub open spec fn spec_idiv(a: int, b: int) -> int {
    let q = (if a < 0 { -a } else { a }) / (if b < 0 { -b } else { b });
    if (a < 0) != (b < 0) { -q } else { q }
}

/// Truncated integer division, the integer counterpart of `/`
pub fn int64_idiv(v: i64, other: i64) -> (r: Result<i64, String>)
    ensures
        other == 0 ==> (r matches Err(e) && e@ == "division by zero in idiv()"@),
        other != 0 && v == i64::MIN && other == -1 ==> (r matches Err(e) && e@ == "integer overflow in idiv()"@),
        other != 0 && !(v == i64::MIN && other == -1) ==> r == Ok::<i64, String>(spec_idiv(v as int, other as int) as i64),
        r matches Ok(q) ==> q as int == spec_idiv(v as int, other as int),
{
    if other == 0 {
        return Err("division by zero in idiv()".to_owned());
    }
    if v == i64::MIN && other == -1 {
        return Err("integer overflow in idiv()".to_owned());
    }
    let a: i128 = v as i128;
    let b: i128 = other as i128;
    let ma: i128 = if a < 0 { -a } else { a };
    let mb: i128 = if b < 0 { -b } else { b };
    let q: i128 = ma / mb;
    proof {
        assert(0 <= q <= ma) by (nonlinear_arith) requires ma >= 0, mb >= 1, q == ma / mb;
    }
    proof {
        assert(q * mb <= ma) by (nonlinear_arith) requires ma >= 0, mb >= 1, q == ma / mb;
        if q > 0x7fff_ffff_ffff_ffff {
            assert(q * mb >= q) by (nonlinear_arith) requires q >= 0, mb >= 1;
            assert(mb <= 1) by (nonlinear_arith) requires q * mb <= ma, ma <= 0x8000_0000_0000_0000, q >= 0x8000_0000_0000_0000, mb >= 1;
        }
    }
    let r: i128 = if (a < 0) != (b < 0) { -q } else { q };
    assert(r as int == spec_idiv(v as int, other as int));
    Ok(r as i64)
}

/// An integer clamped to a range; an error when the range is empty
pub fn int64_clip(v: i64, min: i64, max: i64) -> (r: Result<i64, String>)
    ensures
        min > max ==> (r matches Err(e) && e@ == "min must be less than or equal to max in clip()"@),
        min <= max ==> r == Ok::<i64, String>(if v < min { min } else if v > max { max } else { v }),
{
    if min > max {
        return Err("min must be less than or equal to max in clip()".to_owned());
    }
    Ok(if v < min { min } else if v > max { max } else { v })
}

/// An integer written in decimal, with a minus sign when negative
pub open spec fn spec_decimal(n: int) -> Seq<char> {
    let mag: nat = if n < 0 { (-n) as nat } else { n as nat };
    (if n < 0 { seq!['-'] } else { Seq::<char>::empty() }) + rev_digits(mag).reverse()
}

/// The character of a hexadecimal digit, in upper case
pub open spec fn hex_char(d: nat) -> char {
    if d < 10 { digit_char(d) } else { (('A' as nat) + (d - 10)) as char }
}

/// Hexadecimal digits of a number, least significant first
pub open spec fn rev_hex(m: nat) -> Seq<char>
    decreases m,
{
    if m < 16 {
        seq![hex_char(m)]
    } else {
        seq![hex_char(m % 16)] + rev_hex(m / 16)
    }
}

/// The bits of an integer written in upper-case hexadecimal, padded with
/// zeros on the left to a given width
pub open spec fn spec_hex(n: i64, width: nat) -> Seq<char> {
    let digits = rev_hex(n as u64 as nat).reverse();
    let pad: nat = if digits.len() < width { (width - digits.len()) as nat } else { 0 };
    Seq::new(pad, |i: int| '0') + digits
}

// Characters least significant first, reversed into a string, after an
// optional sign
fn reversed_string(sign: bool, rev: &Vec<char>) -> (r: String)
    ensures
        r@ == (if sign { seq!['-'] } else { Seq::<char>::empty() }) + rev@.reverse(),
{
    let mut out: Vec<char> = Vec::new();
    if sign {
        out.push('-');
    }
    let ghost start = out@.len();
    let mut i: usize = rev.len();
    while i > 0
        invariant
            i <= rev@.len(),
            out@.len() == start + (rev@.len() - i),
            start == (if sign { 1int } else { 0int }),
            sign ==> out@[0] == '-',
            forall|j: int| 0 <= j < rev@.len() - i ==> #[trigger] out@[start + j] == rev@[rev@.len() - 1 - j],
        decreases i,
    {
        i = i - 1;
        out.push(rev[i]);
    }
    proof {
        let pre = if sign { seq!['-'] } else { Seq::<char>::empty() };
        assert(out@ =~= pre + rev@.reverse()) by {
            assert forall|j: int| 0 <= j < out@.len() implies out@[j] == (pre + rev@.reverse())[j] by {
                if j >= start {
                    assert(out@[start + (j - start)] == rev@[rev@.len() - 1 - (j - start)]);
                }
            }
        }
    }
    string_from_chars(out.as_slice())
}

/// An integer written in decimal
pub fn int64_to_s(v: i64) -> (r: String)
    ensures
        r@ == spec_decimal(v as int),
{
    let mag: u64 = if v < 0 { (0 - (v as i128)) as u64 } else { v as u64 };
    let mut digits: Vec<char> = Vec::new();
    let mut m: u64 = mag;
    loop
        invariant_except_break
            digits@ + rev_digits(m as nat) == rev_digits(mag as nat),
        ensures
            digits@ == rev_digits(mag as nat),
        decreases m,
    {
        let d = m % 10;
        let c = ((48u64 + d) as u8) as char;
        proof {
            if m < 10 {
                assert(digits@.push(c) == digits@ + rev_digits(m as nat));
            } else {
                assert(digits@.push(c) + rev_digits((m / 10) as nat) =~= digits@ + rev_digits(m as nat));
            }
        }
        digits.push(c);
        m = m / 10;
        if m == 0 {
            break;
        }
    }
    reversed_string(v < 0, &digits)
}

/// The bits of an integer in upper-case hexadecimal, padded with zeros
/// to a given width
pub fn int64_to_hex(v: i64, width: usize) -> (r: String)
    ensures
        r@ == spec_hex(v, width as nat),
{
    let mag: u64 = v as u64;
    let mut digits: Vec<char> = Vec::new();
    let mut m: u64 = mag;
    loop
        invariant_except_break
            digits@ + rev_hex(m as nat) == rev_hex(mag as nat),
        ensures
            digits@ == rev_hex(mag as nat),
        decreases m,
    {
        let d = m % 16;
        let c = if d < 10 { ((48u64 + d) as u8) as char } else { ((55u64 + d) as u8) as char };
        proof {
            if m < 16 {
                assert(digits@.push(c) == digits@ + rev_hex(m as nat));
            } else {
                assert(digits@.push(c) + rev_hex((m / 16) as nat) =~= digits@ + rev_hex(m as nat));
            }
        }
        digits.push(c);
        m = m / 16;
        if m == 0 {
            break;
        }
    }
    // Zeros up to the width, which come out first once reversed
    let ghost ndig = digits@.len();
    while digits.len() < width
        invariant
            digits@.len() >= ndig,
            digits@.len() == ndig || digits@.len() <= width,
            digits@.subrange(0, ndig as int) == rev_hex(mag as nat),
            forall|j: int| ndig <= j < digits@.len() ==> #[trigger] digits@[j] == '0',
        decreases width - digits@.len(),
    {
        digits.push('0');
    }
    let s = reversed_string(false, &digits);
    proof {
        let d = rev_hex(mag as nat).reverse();
        let pad: nat = if d.len() < width { (width - d.len()) as nat } else { 0 };
        assert(d.len() == ndig);
        assert(digits@.len() == ndig + pad);
        assert(s@ =~= Seq::new(pad, |i: int| '0') + d) by {
            assert forall|j: int| 0 <= j < s@.len() implies s@[j] == (Seq::new(pad, |i: int| '0') + d)[j] by {
                let k = digits@.len() - 1 - j;
                if j >= pad {
                    assert(digits@[k] == digits@.subrange(0, ndig as int)[k]);
                }
            }
        }
    }
    s
}

/// The UTF-8 bytes of the character with a given code point, if it is a
/// Unicode scalar value
pub fn codepoint_bytes(cp: u32) -> (r: Option<Vec<u8>>)
    ensures
        r is Some <==> is_scalar(cp),
        r matches Some(b) ==> b@ == encode_scalar(cp),
{
    let mut out: Vec<u8> = Vec::new();
    if cp <= 0x7F {
        out.push((cp & 0x7F) as u8);
    } else if cp <= 0x7FF {
        out.push(0xC0 | ((cp >> 6) & 0x1F) as u8);
        out.push(0x80 | (cp & 0x3F) as u8);
    } else if cp <= 0xFFFF {
        if 0xD800 <= cp && cp <= 0xDFFF {
            return None;
        }
        out.push(0xE0 | ((cp >> 12) & 0x0F) as u8);
        out.push(0x80 | ((cp >> 6) & 0x3F) as u8);
        out.push(0x80 | (cp & 0x3F) as u8);
    } else if cp <= 0x10FFFF {
        out.push(0xF0 | ((cp >> 18) & 0x7) as u8);
        out.push(0x80 | ((cp >> 12) & 0x3F) as u8);
        out.push(0x80 | ((cp >> 6) & 0x3F) as u8);
        out.push(0x80 | (cp & 0x3F) as u8);
    } else {
        return None;
    }
    assert(out@ =~= encode_scalar(cp));
    Some(out)
}

/// The byte at an index of a string, if there is one
pub fn byte_at(s: &[u8], idx: usize) -> (r: Option<u8>)
    ensures
        r == (if idx < s@.len() { Some(s@[idx as int]) } else { None }),
{
    if idx < s.len() { Some(s[idx]) } else { None }
}

/// Length of the well-formed character encoding that starts a string at
/// an index, with the character's code point; a zero length if none
/// starts there
pub fn scalar_at(s: &[u8], i: usize) -> (r: (usize, u32))
    requires
        i <= s@.len(),
    ensures
        r.0 == 0 <==> !valid_first_scalar(s@.skip(i as int)),
        r.0 > 0 ==> {
            &&& r.0 == length_of_first_scalar(s@.skip(i as int))
            &&& r.1 == decode_first_scalar(s@.skip(i as int))
            &&& i + r.0 <= s@.len()
        },
{
    let ghost t = s@.skip(i as int);
    let n = s.len() - i;
    if n == 0 {
        return (0, 0);
    }
    let b0 = s[i];
    assert(b0 == t[0]);
    if b0 <= 0x7f {
        let cp: u32 = (b0 & 0x7F) as u32;
        if 0xD800 <= cp && cp <= 0xDFFF {
            return (0, 0);
        }
        return (1, cp);
    }
    if 0xc0 <= b0 && b0 <= 0xdf {
        if n < 2 || !(0x80 <= s[i + 1] && s[i + 1] <= 0xbf) {
            return (0, 0);
        }
        let b1 = s[i + 1];
        assert(b1 == t[1]);
        let cp: u32 = (((b0 & 0x1F) as u32) << 6) | ((b1 & 0x3f) as u32);
        if cp < 0x80 || (0xD800 <= cp && cp <= 0xDFFF) {
            return (0, 0);
        }
        return (2, cp);
    }
    if 0xe0 <= b0 && b0 <= 0xef {
        if n < 3 || !(0x80 <= s[i + 1] && s[i + 1] <= 0xbf) || !(0x80 <= s[i + 2] && s[i + 2] <= 0xbf) {
            return (0, 0);
        }
        let b1 = s[i + 1];
        let b2 = s[i + 2];
        assert(b1 == t[1] && b2 == t[2]);
        let cp: u32 = (((b0 & 0x0F) as u32) << 12) | (((b1 & 0x3f) as u32) << 6) | ((b2 & 0x3f) as u32);
        if cp < 0x800 || (0xD800 <= cp && cp <= 0xDFFF) {
            return (0, 0);
        }
        return (3, cp);
    }
    if 0xf0 <= b0 && b0 <= 0xf7 {
        if n < 4 || !(0x80 <= s[i + 1] && s[i + 1] <= 0xbf) || !(0x80 <= s[i + 2] && s[i + 2] <= 0xbf)
            || !(0x80 <= s[i + 3] && s[i + 3] <= 0xbf) {
            return (0, 0);
        }
        let b1 = s[i + 1];
        let b2 = s[i + 2];
        let b3 = s[i + 3];
        assert(b1 == t[1] && b2 == t[2] && b3 == t[3]);
        let cp: u32 = (((b0 & 0x07) as u32) << 18) | (((b1 & 0x3f) as u32) << 12)
            | (((b2 & 0x3f) as u32) << 6) | ((b3 & 0x3f) as u32);
        if cp < 0x10000 || cp > 0x10ffff || (0xD800 <= cp && cp <= 0xDFFF) {
            return (0, 0);
        }
        return (4, cp);
    }
    (0, 0)
}

/// What `char_at` gives for a string and a byte index within it: nothing
/// when the index falls inside a character, else that character's bytes
pub open spec fn spec_char_at(s: Seq<u8>, idx: int) -> Option<Seq<u8>> {
    if is_continuation_byte(s[idx]) || !valid_first_scalar(s.skip(idx)) {
        None
    } else {
        Some(take_first_scalar(s.skip(idx)))
    }
}

/// The character that starts at a byte index of a string, as its bytes;
/// nothing when the index falls inside a character; an error when the
/// index is past the end
pub fn char_at(s: &[u8], idx: usize) -> (r: Result<Option<Vec<u8>>, String>)
    ensures
        idx >= s@.len() ==> (r matches Err(e) && e@ == "string byte index out of bounds"@),
        idx < s@.len() ==> (r matches Ok(c) && match c {
            Some(b) => spec_char_at(s@, idx as int) == Some(b@),
            None => spec_char_at(s@, idx as int) is None,
        }),
{
    if idx >= s.len() {
        return Err("string byte index out of bounds".to_owned());
    }
    if 0x80 <= s[idx] && s[idx] <= 0xbf {
        return Ok(None);
    }
    let (n, _cp) = scalar_at(s, idx);
    if n == 0 {
        return Ok(None);
    }
    let mut out: Vec<u8> = Vec::new();
    let mut k: usize = 0;
    while k < n
        invariant
            idx + n <= s@.len(),
            s@.len() <= usize::MAX,
            k <= n,
            out@ == s@.subrange(idx as int, idx + k),
        decreases n - k,
    {
        out.push(s[idx + k]);
        k = k + 1;
        assert(out@ =~= s@.subrange(idx as int, idx + k));
    }
    assert(out@ =~= take_first_scalar(s@.skip(idx as int)));
    Ok(Some(out))
}

/// Value of a byte as a digit: decimal digits, then letters in either
/// case from ten on; 99 for any other byte
pub open spec fn digit_val(b: u8) -> nat {
    if 48 <= b <= 57 {
        (b - 48) as nat
    } else if 97 <= b <= 122 {
        (b - 97 + 10) as nat
    } else if 65 <= b <= 90 {
        (b - 65 + 10) as nat
    } else {
        99
    }
}

/// Whether every byte is a digit of a radix
pub open spec fn digits_ok(d: Seq<u8>, radix: nat) -> bool {
    forall|i: int| 0 <= i < d.len() ==> #[trigger] digit_val(d[i]) < radix
}

/// The number digits stand for in a radix, most significant first
pub open spec fn digits_value(d: Seq<u8>, radix: nat) -> nat
    decreases d.len(),
{
    if d.len() == 0 {
        0
    } else {
        digits_value(d.drop_last(), radix) * radix + digit_val(d.last())
    }
}

/// The integer a string writes in a radix: an optional sign and at least
/// one digit, the value fitting in 64 bits
pub open spec fn spec_parse_int(s: Seq<u8>, radix: nat) -> Option<int> {
    if s.len() == 0 {
        None
    } else {
        let neg = s[0] == 45;
        let d = if s[0] == 43 || s[0] == 45 { s.skip(1) } else { s };
        if d.len() == 0 || !digits_ok(d, radix) {
            None
        } else {
            let v = if neg { -(digits_value(d, radix) as int) } else { digits_value(d, radix) as int };
            if i64::MIN <= v <= i64::MAX { Some(v) } else { None }
        }
    }
}

proof fn lemma_digits_monotone(d: Seq<u8>, radix: nat, a: int, b: int)
    requires
        radix >= 1,
        0 <= a <= b <= d.len(),
    ensures
        digits_value(d.take(a), radix) <= digits_value(d.take(b), radix),
    decreases b - a,
{
    if a < b {
        lemma_digits_monotone(d, radix, a, b - 1);
        assert(d.take(b).drop_last() =~= d.take(b - 1));
        let v = digits_value(d.take(b - 1), radix);
        assert(v * radix >= v) by (nonlinear_arith) requires radix >= 1;
    }
}

/// Parse a string as an integer written in a radix between two and
/// thirty-six: an optional sign, then digits
pub fn parse_int(s: &[u8], radix: u32) -> (r: Option<i64>)
    requires
        2 <= radix <= 36,
    ensures
        r == (match spec_parse_int(s@, radix as nat) { Some(v) => Some(v as i64), None => None }),
{
    if s.len() == 0 {
        return None;
    }
    let neg = s[0] == 45;
    let start: usize = if s[0] == 43 || s[0] == 45 { 1 } else { 0 };
    let ghost d = if s@[0] == 43 || s@[0] == 45 { s@.skip(1) } else { s@ };
    assert(d =~= s@.skip(start as int));
    if start == s.len() {
        assert(spec_parse_int(s@, radix as nat) is None);
        return None;
    }
    let mut acc: u128 = 0;
    let mut i: usize = start;
    while i < s.len()
        invariant
            start <= i <= s@.len(),
            d == s@.skip(start as int),
            s@.len() > 0,
            d == (if s@[0] == 43 || s@[0] == 45 { s@.skip(1) } else { s@ }),
            d.len() > 0,
            2 <= radix <= 36,
            acc == digits_value(d.take(i - start), radix as nat),
            acc <= 0x8000_0000_0000_0000,
            digits_ok(d.take(i - start), radix as nat),
        decreases s@.len() - i,
    {
        let b = s[i];
        let dv: u32 = if 48 <= b && b <= 57 {
            (b - 48) as u32
        } else if 97 <= b && b <= 122 {
            (b - 97 + 10) as u32
        } else if 65 <= b && b <= 90 {
            (b - 65 + 10) as u32
        } else {
            99
        };
        assert(b == d[i - start]);
        assert(digit_val(d[i - start]) == dv);
        if dv >= radix {
            proof {
                assert(!digits_ok(d, radix as nat));
                assert(spec_parse_int(s@, radix as nat) is None);
            }
            return None;
        }
        proof {
            assert(d.take(i - start + 1).drop_last() =~= d.take(i - start));
            assert(acc * (radix as u128) <= 0x8000_0000_0000_0000 * 36) by (nonlinear_arith)
                requires acc <= 0x8000_0000_0000_0000, radix <= 36;
        }
        let next: u128 = acc * (radix as u128) + (dv as u128);
        assert(digits_value(d.take(i - start + 1), radix as nat) == next);
        if next > 0x8000_0000_0000_0000 {
            proof {
                if digits_ok(d, radix as nat) {
                    lemma_digits_monotone(d, radix as nat, i - start + 1, d.len() as int);
                    assert(d.take(d.len() as int) =~= d);
                }
                assert(spec_parse_int(s@, radix as nat) is None);
            }
            return None;
        }
        acc = next;
        i = i + 1;
        proof {
            assert forall|j: int| 0 <= j < d.take(i - start).len() implies
                #[trigger] digit_val(d.take(i - start)[j]) < radix by {
                if j < i - 1 - start {
                    assert(d.take(i - start)[j] == d.take(i - 1 - start)[j]);
                }
            }
        }
    }
    assert(d.take(i - start) =~= d);
    assert(digits_ok(d, radix as nat));
    assert(acc == digits_value(d, radix as nat));
    assert(d.len() > 0);
    if neg {
        assert(spec_parse_int(s@, radix as nat) == Some(-(acc as int)));
        Some((0 - (acc as i128)) as i64)
    } else if acc <= 0x7FFF_FFFF_FFFF_FFFF {
        assert(spec_parse_int(s@, radix as nat) == Some(acc as int));
        Some(acc as i64)
    } else {
        None
    }
}

/// The parts of a string between the occurrences of a non-empty
/// separator, scanning from index `i` with the current part starting at
/// `start`
pub open spec fn split_scan(s: Seq<u8>, sep: Seq<u8>, start: int, i: int) -> Seq<Seq<u8>>
    decreases s.len() - i,
{
    if sep.len() == 0 || i < start || start < 0 || i + sep.len() > s.len() {
        seq![s.subrange(start, s.len() as int)]
    } else if s.subrange(i, i + sep.len()) == sep {
        seq![s.subrange(start, i)] + split_scan(s, sep, i + sep.len(), i + sep.len())
    } else {
        split_scan(s, sep, start, i + 1)
    }
}

/// Bytes of the character a string starts with: a well-formed encoding,
/// or else a single byte
pub open spec fn unit_len(s: Seq<u8>) -> int {
    if valid_first_scalar(s) { length_of_first_scalar(s) } else { 1 }
}

/// A string cut into its characters
pub open spec fn char_units(s: Seq<u8>) -> Seq<Seq<u8>>
    decreases s.len(),
{
    if s.len() == 0 {
        seq![]
    } else {
        let k = unit_len(s);
        if 1 <= k <= s.len() {
            seq![s.take(k)] + char_units(s.skip(k))
        } else {
            seq![s]
        }
    }
}

/// A string split at a separator: the parts between the occurrences of
/// a non-empty one, left to right; for the empty separator an empty
/// part, each character, and another empty part
pub open spec fn spec_split(s: Seq<u8>, sep: Seq<u8>) -> Seq<Seq<u8>> {
    if sep.len() == 0 {
        seq![Seq::<u8>::empty()] + char_units(s) + seq![Seq::<u8>::empty()]
    } else {
        split_scan(s, sep, 0, 0)
    }
}

/// The bytes of a string between two indices
pub fn copy_range(s: &[u8], a: usize, b: usize) -> (r: Vec<u8>)
    requires
        a <= b <= s@.len(),
    ensures
        r@ == s@.subrange(a as int, b as int),
{
    let mut out: Vec<u8> = Vec::new();
    let mut k: usize = a;
    while k < b
        invariant
            a <= k <= b,
            b <= s@.len(),
            out@ == s@.subrange(a as int, k as int),
        decreases b - k,
    {
        out.push(s[k]);
        k = k + 1;
        assert(out@ =~= s@.subrange(a as int, k as int));
    }
    out
}

/// Whether a separator occurs in a string at an index
fn matches_at(s: &[u8], sep: &[u8], i: usize) -> (r: bool)
    requires
        i + sep@.len() <= s@.len(),
    ensures
        r == (s@.subrange(i as int, i + sep@.len()) == sep@),
{
    let slen = s.len();
    let mut k: usize = 0;
    while k < sep.len()
        invariant
            i + sep@.len() <= s@.len(),
            slen == s@.len(),
            k <= sep@.len(),
            forall|j: int| 0 <= j < k ==> s@[i + j] == sep@[j],
        decreases sep@.len() - k,
    {
        if s[i + k] != sep[k] {
            assert(s@.subrange(i as int, i + sep@.len())[k as int] != sep@[k as int]);
            return false;
        }
        k = k + 1;
    }
    assert(s@.subrange(i as int, i + sep@.len()) =~= sep@);
    true
}

/// Split a string at a separator
pub fn split(s: &[u8], sep: &[u8]) -> (r: Vec<Vec<u8>>)
    ensures
        r@.map_values(|v: Vec<u8>| v@) == spec_split(s@, sep@),
{
    let mut parts: Vec<Vec<u8>> = Vec::new();
    let n = sep.len();
    if n == 0 {
        parts.push(Vec::new());
        assert(s@.skip(0) =~= s@);
        assert(parts@.map_values(|v: Vec<u8>| v@) =~= seq![Seq::<u8>::empty()]);
        let slen = s.len();
        let mut i: usize = 0;
        while i < s.len()
            invariant
                i <= s@.len(),
                slen == s@.len(),
                parts@.map_values(|v: Vec<u8>| v@) + char_units(s@.skip(i as int))
                    == seq![Seq::<u8>::empty()] + char_units(s@),
            decreases s@.len() - i,
        {
            let ghost t = s@.skip(i as int);
            let (k, _cp) = scalar_at(s, i);
            let k: usize = if k == 0 { 1 } else { k };
            assert(k == unit_len(t));
            assert(i + k <= s@.len());
            let part = copy_range(s, i, i + k);
            proof {
                assert(part@ =~= t.take(k as int));
                assert(t.skip(k as int) =~= s@.skip(i + k));
                assert(char_units(t) == seq![t.take(k as int)] + char_units(t.skip(k as int)));
            }
            let ghost before = parts@.map_values(|v: Vec<u8>| v@);
            parts.push(part);
            proof {
                assert(parts@.map_values(|v: Vec<u8>| v@) =~= before.push(part@));
                assert(before + char_units(t) =~= before.push(part@) + char_units(s@.skip(i + k)));
            }
            i = i + k;
        }
        proof {
            assert(s@.skip(i as int) =~= Seq::<u8>::empty());
            assert(char_units(s@.skip(i as int)) =~= Seq::<Seq<u8>>::empty());
            assert(parts@.map_values(|v: Vec<u8>| v@) =~= seq![Seq::<u8>::empty()] + char_units(s@));
        }
        let ghost before = parts@.map_values(|v: Vec<u8>| v@);
        parts.push(Vec::new());
        proof {
            assert(parts@.map_values(|v: Vec<u8>| v@) =~= before.push(Seq::<u8>::empty()));
        }
        return parts;
    }
    let mut start: usize = 0;
    let mut i: usize = 0;
    while n <= s.len() - i
        invariant
            n == sep@.len(),
            n > 0,
            start <= i <= s@.len(),
            parts@.map_values(|v: Vec<u8>| v@) + split_scan(s@, sep@, start as int, i as int)
                == split_scan(s@, sep@, 0, 0),
        decreases s@.len() - i,
    {
        if matches_at(s, sep, i) {
            let part = copy_range(s, start, i);
            let ghost before = parts@.map_values(|v: Vec<u8>| v@);
            parts.push(part);
            proof {
                assert(parts@.map_values(|v: Vec<u8>| v@) =~= before.push(part@));
                assert(before + split_scan(s@, sep@, start as int, i as int)
                    =~= before.push(part@) + split_scan(s@, sep@, i + n, i + n));
            }
            i = i + n;
            start = i;
        } else {
            i = i + 1;
        }
    }
    let last = copy_range(s, start, s.len());
    let ghost before = parts@.map_values(|v: Vec<u8>| v@);
    parts.push(last);
    proof {
        assert(parts@.map_values(|v: Vec<u8>| v@) =~= before.push(last@));
        assert(before + split_scan(s@, sep@, start as int, i as int) =~= before.push(last@));
    }
    parts
}

/// Whether a code point is white space, as `char::is_whitespace` has it:
/// the code points of the Unicode White_Space property
pub open spec fn is_ws_scalar(c: u32) -> bool {
    ||| 0x09 <= c <= 0x0D
    ||| c == 0x20 || c == 0x85 || c == 0xA0 || c == 0x1680
    ||| 0x2000 <= c <= 0x200A
    ||| c == 0x2028 || c == 0x2029 || c == 0x202F || c == 0x205F || c == 0x3000
}

/// Whether a string starts with a white-space character
pub open spec fn ws_front(s: Seq<u8>) -> bool {
    valid_first_scalar(s) && is_ws_scalar(decode_first_scalar(s))
}

/// A string without the white space it starts with
pub open spec fn trim_start(s: Seq<u8>) -> Seq<u8>
    decreases s.len(),
{
    if s.len() > 0 && ws_front(s) && 1 <= length_of_first_scalar(s) <= s.len() {
        trim_start(s.skip(length_of_first_scalar(s)))
    } else {
        s
    }
}

/// Whether a string ends with a white-space character encoded in `k`
/// bytes
pub open spec fn ws_tail(s: Seq<u8>, k: int) -> bool {
    let t = s.skip(s.len() - k);
    &&& s.len() >= k
    &&& valid_first_scalar(t)
    &&& length_of_first_scalar(t) == k
    &&& is_ws_scalar(decode_first_scalar(t))
}

/// Bytes of the white-space character a string ends with, zero if it
/// ends with none
pub open spec fn ws_back_len(s: Seq<u8>) -> int {
    if ws_tail(s, 1) { 1 } else if ws_tail(s, 2) { 2 } else if ws_tail(s, 3) { 3 } else { 0 }
}

/// A string without the white space it ends with
pub open spec fn trim_end(s: Seq<u8>) -> Seq<u8>
    decreases s.len(),
{
    let k = ws_back_len(s);
    if 0 < k <= s.len() { trim_end(s.take(s.len() - k)) } else { s }
}

/// A string without the white space at either end
pub open spec fn spec_trim(s: Seq<u8>) -> Seq<u8> {
    trim_end(trim_start(s))
}

fn is_ws_code(c: u32) -> (r: bool)
    ensures
        r == is_ws_scalar(c),
{
    (0x09 <= c && c <= 0x0D) || c == 0x20 || c == 0x85 || c == 0xA0 || c == 0x1680
        || (0x2000 <= c && c <= 0x200A)
        || c == 0x2028 || c == 0x2029 || c == 0x202F || c == 0x205F || c == 0x3000
}

fn back_ws(u: &[u8]) -> (k: usize)
    ensures
        k == ws_back_len(u@),
{
    let n = u.len();
    let mut kk: usize = 1;
    while kk <= 3
        invariant
            1 <= kk <= 4,
            n == u@.len(),
            forall|j: int| 1 <= j < kk ==> !ws_tail(u@, j),
        decreases 4 - kk,
    {
        if n >= kk {
            let (m, cp) = scalar_at(u, n - kk);
            if m == kk && is_ws_code(cp) {
                return kk;
            }
        }
        kk = kk + 1;
    }
    0
}

/// A string without the white space at either end
pub fn trim(s: &[u8]) -> (r: Vec<u8>)
    ensures
        r@ == spec_trim(s@),
{
    let slen = s.len();
    let mut a: usize = 0;
    assert(s@.skip(0) =~= s@);
    while a < s.len()
        invariant_except_break
            a <= s@.len(),
            slen == s@.len(),
            trim_start(s@) == trim_start(s@.skip(a as int)),
        ensures
            a <= s@.len(),
            trim_start(s@) == s@.skip(a as int),
        decreases s@.len() - a,
    {
        let (k, cp) = scalar_at(s, a);
        if k > 0 && is_ws_code(cp) {
            assert(s@.skip(a as int).skip(k as int) =~= s@.skip(a + k));
            a = a + k;
        } else {
            break;
        }
    }
    proof {
        if a == s@.len() {
            assert(s@.skip(a as int) =~= Seq::<u8>::empty());
        }
    }
    let ghost u0 = s@.skip(a as int);
    let mut b: usize = s.len();
    assert(s@.subrange(a as int, b as int) =~= u0);
    while b > a
        invariant_except_break
            a <= b <= s@.len(),
            trim_end(u0) == trim_end(s@.subrange(a as int, b as int)),
        ensures
            a <= b <= s@.len(),
            trim_end(u0) == s@.subrange(a as int, b as int),
        decreases b - a,
    {
        let u = vstd::slice::slice_subrange(s, a, b);
        let k = back_ws(u);
        if k == 0 {
            break;
        }
        assert(u@.take(u@.len() - k) =~= s@.subrange(a as int, b - k));
        b = b - k;
    }
    proof {
        if b == a {
            assert(s@.subrange(a as int, b as int) =~= Seq::<u8>::empty());
        }
    }
    copy_range(s, a, b)
}

/// `char::from_u32`: the character with a given code point, none when
/// the number is a surrogate or lies past the last code point
#[verifier::external_body]
fn char_of_code(cp: u32) -> (r: Option<char>)
    ensures
        r is Some <==> is_scalar(cp),
        r matches Some(c) ==> c as u32 == cp,
{
    char::from_u32(cp)
}

/// What `str::to_uppercase` returns, which Unicode's case mappings decide
pub uninterp spec fn spec_to_uppercase(s: Seq<char>) -> Seq<char>;

/// What `str::to_lowercase` returns, which Unicode's case mappings decide
pub uninterp spec fn spec_to_lowercase(s: Seq<char>) -> Seq<char>;

/// `str::to_uppercase`: a string with every character mapped to upper
/// case; what that is, is left to the name it is given
#[verifier::external_body]
fn str_to_uppercase(s: &str) -> (r: String)
    ensures
        r@ == spec_to_uppercase(s@),
{
    s.to_uppercase()
}

/// `str::to_lowercase`: a string with every character mapped to lower
/// case; what that is, is left to the name it is given
#[verifier::external_body]
pub(crate) fn str_to_lowercase(s: &str) -> (r: String)
    ensures
        r@ == spec_to_lowercase(s@),
{
    s.to_lowercase()
}

// A well-formed encoding decodes to a Unicode scalar value
proof fn lemma_first_scalar_is_scalar(t: Seq<u8>)
    requires
        valid_first_scalar(t),
    ensures
        is_scalar(decode_first_scalar(t)),
{
    let cp = decode_first_scalar(t);
    if is_leading_byte_width_1(t[0]) {
        let b0 = t[0];
        assert(((b0 & 0x7F) as u32) <= 0x7F) by (bit_vector);
    } else if is_leading_byte_width_2(t[0]) {
        let (b0, b1) = (t[0], t[1]);
        assert((((b0 & 0x1F) as u32) << 6) | ((b1 & 0x3f) as u32) <= 0x7FF) by (bit_vector);
    } else if is_leading_byte_width_3(t[0]) {
        let (b0, b1, b2) = (t[0], t[1], t[2]);
        assert((((b0 & 0x0F) as u32) << 12) | (((b1 & 0x3f) as u32) << 6) | ((b2 & 0x3f) as u32) <= 0xFFFF)
            by (bit_vector);
    }
}

/// The characters a string encodes, if it is well-formed UTF-8
pub fn decode_chars(s: &[u8]) -> (r: Option<Vec<char>>)
    ensures
        r is Some <==> valid_utf8(s@),
        r matches Some(c) ==> c@ == decode_utf8(s@),
{
    let slen = s.len();
    let mut out: Vec<char> = Vec::new();
    let mut i: usize = 0;
    assert(s@.skip(0) =~= s@);
    while i < s.len()
        invariant
            i <= s@.len(),
            slen == s@.len(),
            valid_utf8(s@) == valid_utf8(s@.skip(i as int)),
            valid_utf8(s@) ==> decode_utf8(s@) == out@ + decode_utf8(s@.skip(i as int)),
        decreases s@.len() - i,
    {
        let ghost t = s@.skip(i as int);
        let (k, cp) = scalar_at(s, i);
        if k == 0 {
            return None;
        }
        proof {
            lemma_first_scalar_is_scalar(t);
            assert(pop_first_scalar(t) =~= s@.skip(i + k));
        }
        let c = match char_of_code(cp) {
            Some(c) => c,
            None => { return None; },
        };
        proof {
            vstd::utf8::char_u32_cast(c, cp);
        }
        let ghost before = out@;
        out.push(c);
        proof {
            if valid_utf8(s@) {
                assert(decode_utf8(t) == seq![c] + decode_utf8(s@.skip(i + k)));
                assert(decode_utf8(s@) =~= out@ + decode_utf8(s@.skip(i + k)));
            }
        }
        i = i + k;
    }
    proof {
        assert(s@.skip(i as int) =~= Seq::<u8>::empty());
        assert(out@ + Seq::<char>::empty() =~= out@);
    }
    Some(out)
}

/// A string in upper case, if it is well-formed UTF-8
pub fn string_upper(s: &[u8]) -> (r: Option<String>)
    ensures
        r is Some <==> valid_utf8(s@),
        r matches Some(u) ==> u@ == spec_to_uppercase(decode_utf8(s@)),
{
    let chars = decode_chars(s)?;
    let st = string_from_chars(chars.as_slice());
    Some(str_to_uppercase(st.as_str()))
}

/// A string in lower case, if it is well-formed UTF-8
pub fn string_lower(s: &[u8]) -> (r: Option<String>)
    ensures
        r is Some <==> valid_utf8(s@),
        r matches Some(u) ==> u@ == spec_to_lowercase(decode_utf8(s@)),
{
    let chars = decode_chars(s)?;
    let st = string_from_chars(chars.as_slice());
    Some(str_to_lowercase(st.as_str()))
}

} // verus!
