//! Decimal text of integer values, used when built-in dispatch coerces an
//! integer literal to a display string.

use vstd::prelude::*;

verus! {

/// The decimal digit character of a value below ten.
pub open spec fn digit_char(d: int) -> char {
    if d == 0 {
        '0'
    } else if d == 1 {
        '1'
    } else if d == 2 {
        '2'
    } else if d == 3 {
        '3'
    } else if d == 4 {
        '4'
    } else if d == 5 {
        '5'
    } else if d == 6 {
        '6'
    } else if d == 7 {
        '7'
    } else if d == 8 {
        '8'
    } else {
        '9'
    }
}

/// Decimal digit characters of a natural number, most significant first.
pub open spec fn dec_digits(n: nat) -> Seq<char>
    decreases n,
{
    if n < 10 {
        seq![digit_char(n as int)]
    } else {
        dec_digits(n / 10).push(digit_char((n % 10) as int))
    }
}

/// Decimal text of an integer: a minus sign before the digits of the
/// magnitude when negative.
pub open spec fn int_text(i: int) -> Seq<char> {
    if i < 0 {
        seq!['-'] + dec_digits((-i) as nat)
    } else {
        dec_digits(i as nat)
    }
}

/// Appends the digit character of a value below ten.
pub(crate) fn push_digit(s: &mut String, d: u64)
    requires
        d < 10,
    ensures
        final(s)@ == old(s)@.push(digit_char(d as int)),
{
    proof {
        reveal_strlit("0");
        reveal_strlit("1");
        reveal_strlit("2");
        reveal_strlit("3");
        reveal_strlit("4");
        reveal_strlit("5");
        reveal_strlit("6");
        reveal_strlit("7");
        reveal_strlit("8");
        reveal_strlit("9");
    }
    if d == 0 {
        s.append("0");
    } else if d == 1 {
        s.append("1");
    } else if d == 2 {
        s.append("2");
    } else if d == 3 {
        s.append("3");
    } else if d == 4 {
        s.append("4");
    } else if d == 5 {
        s.append("5");
    } else if d == 6 {
        s.append("6");
    } else if d == 7 {
        s.append("7");
    } else if d == 8 {
        s.append("8");
    } else {
        s.append("9");
    }
    proof {
        assert(final(s)@ =~= old(s)@.push(digit_char(d as int)));
    }
}

/// Decimal text of an unsigned value.
pub fn u64_to_string(n: u64) -> (r: String)
    ensures
        r@ == dec_digits(n as nat),
{
    let mut digits: Vec<u64> = Vec::new();
    let mut m: u64 = n;
    while m >= 10
        invariant
            forall|k: int| 0 <= k < digits@.len() ==> digits@[k] < 10,
            dec_digits(n as nat) == dec_digits(m as nat) + Seq::new(
                digits@.len(),
                |k: int| digit_char(digits@[digits@.len() - 1 - k] as int),
            ),
        decreases m,
    {
        let ghost pre = digits@;
        let ghost mpre = m as nat;
        digits.push(m % 10);
        m = m / 10;
        proof {
            let c = digit_char((mpre % 10) as int);
            assert(dec_digits(mpre) == dec_digits(mpre / 10).push(c));
            assert(Seq::new(digits@.len(), |k: int| digit_char(digits@[digits@.len() - 1 - k] as int))
                =~= seq![c] + Seq::new(pre.len(), |k: int| digit_char(pre[pre.len() - 1 - k] as int)));
            assert(dec_digits(n as nat) =~= dec_digits(m as nat) + Seq::new(
                digits@.len(),
                |k: int| digit_char(digits@[digits@.len() - 1 - k] as int),
            ));
        }
    }
    let mut r = String::new();
    push_digit(&mut r, m);
    let mut i: usize = digits.len();
    while i > 0
        invariant
            i <= digits@.len(),
            forall|k: int| 0 <= k < digits@.len() ==> digits@[k] < 10,
            dec_digits(n as nat) == dec_digits(m as nat) + Seq::new(
                digits@.len(),
                |k: int| digit_char(digits@[digits@.len() - 1 - k] as int),
            ),
            m < 10,
            r@ == dec_digits(m as nat) + Seq::new(
                (digits@.len() - i) as nat,
                |k: int| digit_char(digits@[digits@.len() - 1 - k] as int),
            ),
        decreases i,
    {
        i = i - 1;
        push_digit(&mut r, digits[i]);
        proof {
            assert(r@ =~= dec_digits(m as nat) + Seq::new(
                (digits@.len() - i) as nat,
                |k: int| digit_char(digits@[digits@.len() - 1 - k] as int),
            ));
        }
    }
    proof {
        assert(r@ =~= dec_digits(n as nat));
    }
    r
}

/// Decimal text of a signed value.
pub fn i64_to_string(i: i64) -> (r: String)
    ensures
        r@ == int_text(i as int),
{
    if i >= 0 {
        u64_to_string(i as u64)
    } else {
        let mag: u64 = (-(i as i128)) as u64;
        let mut r = String::new();
        proof {
            reveal_strlit("-");
        }
        r.append("-");
        let tail = u64_to_string(mag);
        r.append(tail.as_str());
        proof {
            assert(r@ =~= int_text(i as int));
        }
        r
    }
}

} // verus!
