//! Positional numerals: the digits of a natural number in a base from two to
//! sixteen, upper case, with optional zero padding on the left.

use vstd::prelude::*;

verus! {

/// `String::push` appends one character to the end of the string.
pub assume_specification[ String::push ](s: &mut String, ch: char)
    ensures
        final(s)@ == old(s)@.push(ch),
;

/// The character that stands for the digit value `d`: `0` to `9`, then `A`
/// to `F`.
pub open spec fn digit_char(d: int) -> char {
    if d < 10 {
        ((48 + d) as u8) as char
    } else {
        ((55 + d) as u8) as char
    }
}

/// The numeral of `n` in `base`, most significant digit first, with no
/// leading zero; zero itself is the single digit `0`.
pub open spec fn numeral(n: nat, base: nat) -> Seq<char>
    decreases n,
    via numeral_decreases
{
    if base < 2 || n < base {
        seq![digit_char(n as int)]
    } else {
        numeral(n / base, base).push(digit_char((n % base) as int))
    }
}

#[via_fn]
proof fn numeral_decreases(n: nat, base: nat) {
    if base >= 2 && n >= base {
        lemma_quotient_smaller(n, base);
    }
}

/// Dividing a number by a base of two or more, where the number is not
/// below the base, gives a smaller number that is at most half of it.
proof fn lemma_quotient_smaller(n: nat, base: nat)
    requires
        base >= 2,
        n >= base,
    ensures
        n / base < n,
        n / base <= n / 2,
{
    assert(n / base < n) by (nonlinear_arith)
        requires
            base >= 2,
            n >= base,
    ;
    assert(n / base <= n / 2) by (nonlinear_arith)
        requires
            base >= 2,
            n >= 0,
    ;
}

/// `s` with zeros in front until it has at least `width` characters.
pub open spec fn zero_padded(s: Seq<char>, width: nat) -> Seq<char> {
    if s.len() >= width {
        s
    } else {
        Seq::new((width - s.len()) as nat, |i: int| '0') + s
    }
}

/// Upper-case hexadecimal numeral of `n`.
pub open spec fn hex_upper(n: nat) -> Seq<char> {
    numeral(n, 16)
}

/// Decimal numeral of `n`.
pub open spec fn decimal(n: nat) -> Seq<char> {
    numeral(n, 10)
}

/// Decimal numeral of an integer: a minus sign in front of the numeral of
/// its magnitude where it is negative.
pub open spec fn signed_decimal(n: int) -> Seq<char> {
    if n < 0 {
        seq!['-'] + decimal((-n) as nat)
    } else {
        decimal(n as nat)
    }
}

/// A numeral has at least one digit and at most one per bit of a `u64`.
pub proof fn lemma_numeral_len(n: nat, base: nat)
    requires
        base >= 2,
        n <= u64::MAX,
    ensures
        1 <= numeral(n, base).len() <= 64,
        n < base ==> numeral(n, base).len() == 1,
{
    vstd::arithmetic::power2::lemma2_to64_rest();
    lemma_numeral_len_bound(n, base, 64);
}

/// A number below `2^bits` has at most `bits` digits in any base.
proof fn lemma_numeral_len_bound(n: nat, base: nat, bits: nat)
    requires
        base >= 2,
        bits >= 1,
        n < vstd::arithmetic::power2::pow2(bits),
    ensures
        1 <= numeral(n, base).len() <= bits,
    decreases n,
{
    if n >= base {
        vstd::arithmetic::power2::lemma_pow2_unfold(bits);
        lemma_quotient_smaller(n, base);
        if bits == 1 {
            vstd::arithmetic::power2::lemma2_to64();
            assert(false);
        }
        assert(n / 2 < vstd::arithmetic::power2::pow2((bits - 1) as nat));
        lemma_numeral_len_bound(n / base, base, (bits - 1) as nat);
    }
}

/// The character for one digit value.
fn digit_of(d: u64) -> (c: char)
    requires
        d < 16,
    ensures
        c == digit_char(d as int),
{
    let small: u8 = d as u8;
    if d < 10 {
        (48u8 + small) as char
    } else {
        (55u8 + small) as char
    }
}

/// Appends the numeral of `n` in `base` to `out`.
pub fn push_numeral(out: &mut String, n: u64, base: u64)
    requires
        2 <= base <= 16,
    ensures
        final(out)@ == old(out)@ + numeral(n as nat, base as nat),
    decreases n,
{
    if n >= base {
        proof {
            lemma_quotient_smaller(n as nat, base as nat);
        }
        push_numeral(out, n / base, base);
        out.push(digit_of(n % base));
        assert(out@ =~= old(out)@ + numeral(n as nat, base as nat));
    } else {
        out.push(digit_of(n));
        assert(out@ =~= old(out)@ + numeral(n as nat, base as nat));
    }
}

/// Appends the decimal numeral of `n` to `out`, with a minus sign in front
/// of it where `n` is negative.
pub fn push_signed_decimal(out: &mut String, n: i32)
    ensures
        final(out)@ == old(out)@ + signed_decimal(n as int),
{
    let wide: i64 = n as i64;
    if wide < 0 {
        out.push('-');
        push_numeral(out, (0 - wide) as u64, 10);
        assert(out@ =~= old(out)@ + signed_decimal(n as int));
    } else {
        push_numeral(out, wide as u64, 10);
    }
}

/// Counts the digits of `n` in `base`.
pub fn numeral_len(n: u64, base: u64) -> (len: usize)
    requires
        2 <= base <= 16,
    ensures
        len == numeral(n as nat, base as nat).len(),
        1 <= len <= 64,
{
    proof {
        lemma_numeral_len(n as nat, base as nat);
    }
    let mut len: usize = 1;
    let mut rest: u64 = n;
    while rest >= base
        invariant
            2 <= base <= 16,
            1 <= len,
            len + numeral(rest as nat, base as nat).len() == numeral(n as nat, base as nat).len() + 1,
            numeral(n as nat, base as nat).len() <= 64,
        decreases rest,
    {
        proof {
            lemma_numeral_len((rest / base) as nat, base as nat);
        }
        rest = rest / base;
        len += 1;
    }
    proof {
        lemma_numeral_len(rest as nat, base as nat);
    }
    len
}

/// Appends the numeral of `n` in `base` to `out`, with zeros in front of it
/// where it has fewer than `width` digits.
pub fn push_padded_numeral(out: &mut String, n: u64, base: u64, width: usize)
    requires
        2 <= base <= 16,
    ensures
        final(out)@ == old(out)@ + zero_padded(numeral(n as nat, base as nat), width as nat),
{
    let len = numeral_len(n, base);
    let ghost digits = numeral(n as nat, base as nat);
    let mut done: usize = len;
    while done < width
        invariant
            len <= done,
            len == digits.len(),
            done <= width || done == len,
            out@ == old(out)@ + Seq::new((done - len) as nat, |i: int| '0'),
        decreases width - done,
    {
        out.push('0');
        done += 1;
        assert(out@ =~= old(out)@ + Seq::new((done - len) as nat, |i: int| '0'));
    }
    push_numeral(out, n, base);
    assert(out@ =~= old(out)@ + zero_padded(digits, width as nat));
}

} // verus!
