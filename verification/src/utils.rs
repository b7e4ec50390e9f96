use vstd::prelude::*;
use crate::lexer::{concat_msg, string_from_chars};

verus! {

/// The character of a decimal digit
pub open spec fn digit_char(d: nat) -> char {
    (('0' as nat) + d) as char
}

/// Decimal digits of a number, least significant first
pub open spec fn rev_digits(m: nat) -> Seq<char>
    decreases m,
{
    if m < 10 {
        seq![digit_char(m)]
    } else {
        seq![digit_char(m % 10)] + rev_digits(m / 10)
    }
}

/// Characters least significant first, with a comma before every digit
/// whose position is a positive multiple of three
pub open spec fn sep_rev(s: Seq<char>) -> Seq<char>
    decreases s.len(),
{
    if s.len() == 0 {
        s
    } else {
        let k = s.len() - 1;
        sep_rev(s.subrange(0, k))
            + (if k > 0 && k % 3 == 0 { seq![','] } else { Seq::<char>::empty() })
            + seq![s[k]]
    }
}

/// A number written in decimal with its thousands separated by commas
pub open spec fn spec_thousands_sep(n: int) -> Seq<char> {
    let mag: nat = if n < 0 { (-n) as nat } else { n as nat };
    (if n < 0 { seq!['-'] } else { Seq::<char>::empty() }) + sep_rev(rev_digits(mag)).reverse()
}

/// Produce a string with comma separator for thousands for an integer
pub fn thousands_sep(n: i64) -> (r: String)
    ensures
        r@ == spec_thousands_sep(n as int),
{
    let mag: u64 = if n < 0 { (0 - (n as i128)) as u64 } else { n as u64 };

    // The digits, least significant first
    let mut digit_chars: Vec<char> = Vec::new();
    let mut m: u64 = mag;
    loop
        invariant_except_break
            digit_chars@ + rev_digits(m as nat) == rev_digits(mag as nat),
        ensures
            digit_chars@ == rev_digits(mag as nat),
        decreases m,
    {
        let d = m % 10;
        let c = ((48u64 + d) as u8) as char;
        proof {
            if m < 10 {
                assert(digit_chars@.push(c) == digit_chars@ + rev_digits(m as nat));
            } else {
                assert(digit_chars@.push(c) + rev_digits((m / 10) as nat)
                    =~= digit_chars@ + rev_digits(m as nat));
            }
        }
        digit_chars.push(c);
        m = m / 10;
        if m == 0 {
            break;
        }
    }

    // A separator before every third digit
    let mut chars_sep: Vec<char> = Vec::new();
    let mut idx: usize = 0;
    while idx < digit_chars.len()
        invariant
            idx <= digit_chars@.len(),
            chars_sep@ == sep_rev(digit_chars@.subrange(0, idx as int)),
        decreases digit_chars@.len() - idx,
    {
        proof {
            let s = digit_chars@.subrange(0, idx + 1);
            assert(s.subrange(0, idx as int) =~= digit_chars@.subrange(0, idx as int));
        }
        if idx > 0 && idx % 3 == 0 {
            chars_sep.push(',');
        }
        chars_sep.push(digit_chars[idx]);
        idx = idx + 1;
        proof {
            let s = digit_chars@.subrange(0, idx as int);
            let k = s.len() - 1;
            let prev = sep_rev(s.subrange(0, k));
            assert(chars_sep@ =~= prev
                + (if k > 0 && k % 3 == 0 { seq![','] } else { Seq::<char>::empty() })
                + seq![s[k]]);
        }
    }
    assert(digit_chars@.subrange(0, digit_chars@.len() as int) =~= digit_chars@);

    // Most significant first, after the sign
    let mut out: Vec<char> = Vec::new();
    if n < 0 {
        out.push('-');
    }
    let ghost start = out@.len();
    let mut i: usize = chars_sep.len();
    while i > 0
        invariant
            i <= chars_sep@.len(),
            out@.len() == start + (chars_sep@.len() - i),
            start == (if n < 0 { 1int } else { 0int }),
            n < 0 ==> out@[0] == '-',
            forall|j: int| 0 <= j < chars_sep@.len() - i ==> #[trigger] out@[start + j] == chars_sep@[chars_sep@.len() - 1 - j],
        decreases i,
    {
        i = i - 1;
        out.push(chars_sep[i]);
    }
    proof {
        let sign = if n < 0 { seq!['-'] } else { Seq::<char>::empty() };
        assert(out@ =~= sign + chars_sep@.reverse()) by {
            assert forall|j: int| 0 <= j < out@.len() implies out@[j] == (sign + chars_sep@.reverse())[j] by {
                if j >= start {
                    assert(out@[start + (j - start)] == chars_sep@[chars_sep@.len() - 1 - (j - start)]);
                }
            }
        }
    }
    string_from_chars(out.as_slice())
}

/// Key under which a standard library module is registered in a program.
/// Unit keys of files are canonical paths, so this one is shaped to not
/// collide with one
pub fn unit_key(module_name: &str) -> (r: String)
    ensures
        r@ == "<std>/"@ + module_name@ + ".psh"@,
{
    proof { reveal_strlit("<std>/"); reveal_strlit(".psh"); }
    concat_msg("<std>/", module_name, ".psh")
}

} // verus!
