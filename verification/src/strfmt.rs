//! Small string-building helpers used by error reporting and the
//! HTML generator.

use vstd::prelude::*;

verus! {

/// The decimal digits of `n`, most significant first.
pub open spec fn dec_digits(n: nat) -> Seq<char>
    decreases n,
{
    if n < 10 {
        seq![digit_char(n)]
    } else {
        dec_digits(n / 10).push(digit_char(n % 10))
    }
}

/// The character for a single decimal digit.
pub open spec fn digit_char(d: nat) -> char {
    ((48 + d % 10) as u8) as char
}

/// Relies on `String::push_str`: it appends the characters of `s`.
#[verifier::external_body]
pub(crate) fn append_str(dst: &mut String, s: &str)
    ensures
        final(dst)@ == old(dst)@ + s@,
{
    dst.push_str(s);
}

/// Relies on `String::push`: it appends the single character `c`.
#[verifier::external_body]
pub(crate) fn append_char(dst: &mut String, c: char)
    ensures
        final(dst)@ == old(dst)@ + seq![c],
{
    dst.push(c);
}

/// Render a number as its decimal digits, most significant first.
pub(crate) fn usize_to_string(n: usize) -> (r: String)
    ensures
        r@ == dec_digits(n as nat),
{
    let mut digits: Vec<u8> = Vec::new();
    let mut value = n;
    let ghost mut rev: Seq<char> = Seq::empty();
    loop
        invariant
            rev.len() == digits@.len(),
            forall|j: int|
                0 <= j < rev.len() ==> rev[j] == (digits@[digits@.len() - 1 - j] as char),
            digits@.len() == 0 ==> value == n,
            value > 0 ==> dec_digits(n as nat) == dec_digits(value as nat) + rev,
            value == 0 && digits@.len() > 0 ==> dec_digits(n as nat) == rev,
        ensures
            rev.len() == digits@.len(),
            forall|j: int|
                0 <= j < rev.len() ==> rev[j] == (digits@[digits@.len() - 1 - j] as char),
            dec_digits(n as nat) == rev,
        decreases value, (if digits@.len() == 0 { 1int } else { 0int }),
    {
        if value == 0 && digits.len() > 0 {
            break ;
        }
        let digit = (48 + (value % 10)) as u8;
        let ghost old_value = value as nat;
        let ghost old_rev = rev;
        digits.push(digit);
        value = value / 10;
        proof {
            rev = seq![digit as char] + old_rev;
            assert(digit as char == digit_char(old_value));
            if value > 0 {
                assert(dec_digits(old_value) == dec_digits(value as nat).push(
                    digit_char(old_value),
                ));
                assert(dec_digits(value as nat).push(digit_char(old_value)) + old_rev
                    =~= dec_digits(value as nat) + (seq![digit as char] + old_rev));
            } else {
                assert(dec_digits(old_value) =~= seq![digit_char(old_value)]);
                assert(seq![digit_char(old_value)] + old_rev =~= rev);
            }
        }
    }
    let mut spelled = String::new();
    let mut i: usize = 0;
    proof {
        assert(rev.take(0) =~= Seq::<char>::empty());
    }
    while i < digits.len()
        invariant
            0 <= i <= digits@.len(),
            rev.len() == digits@.len(),
            forall|j: int|
                0 <= j < rev.len() ==> rev[j] == (digits@[digits@.len() - 1 - j] as char),
            dec_digits(n as nat) == rev,
            spelled@ == rev.take(i as int),
        decreases digits@.len() - i,
    {
        let b = digits[digits.len() - 1 - i];
        append_char(&mut spelled, b as char);
        proof {
            assert(rev.take(i + 1) =~= rev.take(i as int).push(rev[i as int]));
            assert(spelled@ =~= rev.take(i + 1));
        }
        i = i + 1;
    }
    proof {
        assert(rev.take(rev.len() as int) =~= rev);
    }
    spelled
}

} // verus!
