//! Decimal text of integers, and the arithmetic facts about it that the
//! request numbering relies on.
use vstd::prelude::*;
use crate::text::push_char;

verus! {

/// The ASCII character of the decimal digit `d`.
pub open spec fn digit_char(d: nat) -> char {
    (d + 48) as char
}

/// The shortest decimal text of `n` (no sign, no leading zeros).
pub open spec fn dec(n: nat) -> Seq<char>
    decreases n,
{
    if n < 10 {
        seq![digit_char(n)]
    } else {
        dec(n / 10).push(digit_char(n % 10))
    }
}

/// The decimal text of a signed integer: a minus sign before negative values.
pub open spec fn dec_int(x: int) -> Seq<char> {
    if x < 0 {
        seq!['-'] + dec((-x) as nat)
    } else {
        dec(x as nat)
    }
}

/// Ten to the power `k`.
pub open spec fn pow10(k: nat) -> nat
    decreases k,
{
    if k == 0 {
        1
    } else {
        10 * pow10((k - 1) as nat)
    }
}

/// The smallest power of ten above `n`: ten to the number of digits of `n`.
pub open spec fn digit_scale(n: nat) -> nat {
    pow10(dec(n).len())
}

/// The number whose decimal text is the digit `code` followed by the
/// decimal text of `req`.
pub open spec fn request_id(code: nat, req: nat) -> nat {
    code * digit_scale(req) + req
}

/// The decimal text of `n` is never empty and grows by one digit per
/// factor of ten.
pub proof fn lemma_dec_len(n: nat)
    ensures
        dec(n).len() >= 1,
        n >= 10 ==> dec(n).len() == dec(n / 10).len() + 1,
        n < 10 ==> dec(n).len() == 1,
    decreases n,
{
    if n >= 10 {
        lemma_dec_len(n / 10);
    }
}

/// `digit_scale` steps by a factor of ten per digit.
pub proof fn lemma_digit_scale_step(n: nat)
    ensures
        n < 10 ==> digit_scale(n) == 10,
        n >= 10 ==> digit_scale(n) == 10 * digit_scale(n / 10),
{
    lemma_dec_len(n);
    if n >= 10 {
        assert(pow10(dec(n).len()) == 10 * pow10(dec(n / 10).len()));
    } else {
        assert(pow10(0) == 1);
        assert(pow10(1) == 10);
    }
}

/// Below a power of ten, the digit scale of `n` stays within that power.
pub proof fn lemma_digit_scale_bound(n: nat, k: nat)
    requires
        k >= 1,
        n < pow10(k),
    ensures
        digit_scale(n) <= pow10(k),
    decreases n,
{
    lemma_digit_scale_step(n);
    if n < 10 {
        lemma_pow10_ge_10(k);
    } else {
        assert(k >= 2) by {
            if k == 1 {
                assert(pow10(0) == 1);
        assert(pow10(1) == 10);
            }
        }
        let k1 = (k - 1) as nat;
        assert(pow10(k) == 10 * pow10(k1));
        assert(n / 10 < pow10(k1));
        lemma_digit_scale_bound(n / 10, k1);
    }
}

proof fn lemma_pow10_ge_10(k: nat)
    requires
        k >= 1,
    ensures
        pow10(k) >= 10,
    decreases k,
{
    if k > 1 {
        lemma_pow10_ge_10((k - 1) as nat);
    } else {
        assert(pow10(0) == 1);
        assert(pow10(1) == 10);
    }
}

/// Decimal text is made of the digits `0` to `9` only.
pub proof fn lemma_dec_digits(n: nat)
    ensures
        forall|i: int| 0 <= i < dec(n).len() ==> 48 <= #[trigger] (dec(n)[i] as int) <= 57,
    decreases n,
{
    if n >= 10 {
        lemma_dec_digits(n / 10);
        let d = dec(n / 10);
        assert forall|i: int| 0 <= i < dec(n).len() implies 48 <= #[trigger] (dec(n)[i] as int) <= 57 by {
            if i < d.len() {
                assert(dec(n)[i] == d[i]);
            }
        }
    }
}

/// Different numbers have different decimal texts.
pub proof fn lemma_dec_injective(a: nat, b: nat)
    requires
        dec(a) == dec(b),
    ensures
        a == b,
    decreases a,
{
    lemma_dec_len(a);
    lemma_dec_len(b);
    if a < 10 && b < 10 {
        assert(dec(a)[0] == digit_char(a) && dec(b)[0] == digit_char(b));
        assert(digit_char(a) as int == a + 48);
        assert(digit_char(b) as int == b + 48);
    } else if a >= 10 && b >= 10 {
        assert(dec(a).last() == digit_char(a % 10));
        assert(dec(b).last() == digit_char(b % 10));
        assert(digit_char(a % 10) as int == a % 10 + 48);
        assert(digit_char(b % 10) as int == b % 10 + 48);
        assert(dec(a / 10) =~= dec(a).drop_last());
        assert(dec(b / 10) =~= dec(b).drop_last());
        lemma_dec_injective(a / 10, b / 10);
    } else {
        lemma_dec_len(a / 10);
        lemma_dec_len(b / 10);
    }
}

/// A number is below its digit scale.
pub proof fn lemma_below_digit_scale(n: nat)
    ensures
        n < digit_scale(n),
    decreases n,
{
    lemma_digit_scale_step(n);
    if n >= 10 {
        lemma_below_digit_scale(n / 10);
    }
}

/// The digit scale never shrinks as the number grows.
pub proof fn lemma_digit_scale_monotone(a: nat, b: nat)
    requires
        a <= b,
    ensures
        digit_scale(a) <= digit_scale(b),
{
    lemma_below_digit_scale(b);
    lemma_dec_len(b);
    lemma_digit_scale_bound(a, dec(b).len());
}

/// The decimal text of a request id is the code digit followed by the
/// decimal text of the request number: reading the joined text back as a
/// number gives `request_id`.
pub proof fn lemma_request_id_text(code: nat, req: nat)
    requires
        1 <= code <= 9,
    ensures
        dec(request_id(code, req)) == dec(code) + dec(req),
    decreases req,
{
    lemma_digit_scale_step(req);
    let v = request_id(code, req);
    if req < 10 {
        assert(v == 10 * code + req);
        assert(v / 10 == code && v % 10 == req) by (nonlinear_arith)
            requires v == 10 * code + req, req < 10;
        assert(dec(v) == dec(code).push(digit_char(req)));
        assert(dec(req) == seq![digit_char(req)]);
        assert(dec(code) + dec(req) =~= dec(code).push(digit_char(req)));
    } else {
        let r1 = req / 10;
        let d = req % 10;
        lemma_request_id_text(code, r1);
        let v1 = request_id(code, r1);
        assert(v == 10 * v1 + d) by (nonlinear_arith)
            requires
                v == code * digit_scale(req) + req,
                digit_scale(req) == 10 * digit_scale(r1),
                v1 == code * digit_scale(r1) + r1,
                req == 10 * r1 + d;
        assert(v / 10 == v1 && v % 10 == d) by (nonlinear_arith)
            requires v == 10 * v1 + d, 0 <= d < 10;
        assert(v >= 10);
        assert(dec(v) == dec(v1).push(digit_char(d)));
        assert(dec(req) == dec(r1).push(digit_char(d)));
        assert(dec(code) + dec(req) =~= (dec(code) + dec(r1)).push(digit_char(d)));
    }
}

/// The character of a decimal digit.
pub fn digit(d: u8) -> (c: char)
    requires
        d < 10,
    ensures
        c == digit_char(d as nat),
{
    (48 + d) as char
}

/// The shortest decimal text of `n`.
pub fn decimal(n: u128) -> (s: String)
    ensures
        s@ == dec(n as nat),
    decreases n,
{
    if n < 10 {
        let mut s = String::new();
        push_char(&mut s, digit(n as u8));
        s
    } else {
        let mut s = decimal(n / 10);
        push_char(&mut s, digit((n % 10) as u8));
        s
    }
}

/// The decimal text of a signed integer, with a leading minus sign for
/// negative values.
pub fn decimal_signed(x: i64) -> (s: String)
    ensures
        s@ == dec_int(x as int),
{
    if x < 0 {
        let magnitude: u128 = (0 - (x as i128)) as u128;
        let mut s = String::new();
        push_char(&mut s, '-');
        let digits = decimal(magnitude);
        s.append(digits.as_str());
        s
    } else {
        decimal(x as u128)
    }
}

/// Ten to the number of digits of `n`.
pub fn scale_of(n: u32) -> (p: u64)
    ensures
        p == digit_scale(n as nat),
        p <= 10 * (n as nat) || p == 10,
    decreases n,
{
    proof {
        lemma_digit_scale_step(n as nat);
    }
    if n < 10 {
        10
    } else {
        let p = scale_of(n / 10);
        10 * p
    }
}

} // verus!
