//! The subscription hash: the classic `h * 31 + c` string hash, computed in
//! 32-bit two's complement as the server computes it.
use vstd::prelude::*;
use vstd::arithmetic::div_mod::{lemma_fundamental_div_mod, lemma_mod_multiples_vanish};

verus! {

/// `x` reduced to the signed 32-bit range, wrapping around modulo 2^32.
pub open spec fn wrap_i32(x: int) -> int {
    let m = x % 0x1_0000_0000;
    if m >= 0x8000_0000 {
        m - 0x1_0000_0000
    } else {
        m
    }
}

/// One step of the hash: the running value times 31, plus the code of the
/// next character, wrapped to 32 bits.
pub open spec fn hash_step(h: int, code: int) -> int {
    wrap_i32(31 * h + code)
}

/// The hash of a text: the steps folded over its characters from the
/// first to the last, starting at 0.
pub open spec fn text_hash(s: Seq<char>) -> int
    decreases s.len(),
{
    if s.len() == 0 {
        0
    } else {
        hash_step(text_hash(s.drop_last()), s.last() as int)
    }
}

/// The same hash taken over UTF-16 code units, as a JavaScript engine
/// hashes a string character code by character code.
pub open spec fn units_hash(u: Seq<u16>) -> int
    decreases u.len(),
{
    if u.len() == 0 {
        0
    } else {
        hash_step(units_hash(u.drop_last()), u.last() as int)
    }
}

/// The UTF-16 code units of a character: itself below 0x10000, otherwise
/// a high and a low surrogate.
pub open spec fn utf16_units(c: char) -> Seq<u16> {
    let v = c as int;
    if v < 0x10000 {
        seq![v as u16]
    } else {
        seq![(0xD800 + (v - 0x10000) / 0x400) as u16, (0xDC00 + (v - 0x10000) % 0x400) as u16]
    }
}

/// The UTF-16 encoding of a text.
pub open spec fn utf16(s: Seq<char>) -> Seq<u16>
    decreases s.len(),
{
    if s.len() == 0 {
        Seq::empty()
    } else {
        utf16(s.drop_last()) + utf16_units(s.last())
    }
}

/// A wrapped value lies in the signed 32-bit range.
pub proof fn lemma_wrap_range(x: int)
    ensures
        i32::MIN <= wrap_i32(x) <= i32::MAX,
{
}

/// Every hash lies in the signed 32-bit range.
pub proof fn law_text_hash_fits_i32(s: Seq<char>)
    ensures
        i32::MIN <= text_hash(s) <= i32::MAX,
{
    if s.len() > 0 {
        lemma_wrap_range(31 * text_hash(s.drop_last()) + s.last() as int);
    }
}

/// Every hash of code units lies in the signed 32-bit range.
pub proof fn law_units_hash_fits_i32(u: Seq<u16>)
    ensures
        i32::MIN <= units_hash(u) <= i32::MAX,
{
    if u.len() > 0 {
        lemma_wrap_range(31 * units_hash(u.drop_last()) + u.last() as int);
    }
}

/// On text made only of characters below U+10000 the two hashes agree:
/// hashing code points and hashing UTF-16 code units give the same value.
pub proof fn law_hashes_agree_below_astral(s: Seq<char>)
    requires
        forall|i: int| 0 <= i < s.len() ==> 0 <= ((#[trigger] s[i]) as int) < 0x10000,
    ensures
        units_hash(utf16(s)) == text_hash(s),
    decreases s.len(),
{
    if s.len() > 0 {
        let p = s.drop_last();
        assert forall|i: int| 0 <= i < p.len() implies 0 <= ((#[trigger] p[i]) as int) < 0x10000 by {
            assert(p[i] == s[i]);
        }
        law_hashes_agree_below_astral(p);
        let u = utf16(s);
        assert(0 <= (s.last() as int) < 0x10000);
        assert(u == utf16(p) + seq![(s.last() as int) as u16]);
        assert(u.drop_last() =~= utf16(p));
        let x = (s.last() as int) as u16;
        assert(u.last() == x);
        assert(x as int == s.last() as int);
    }
}

/// Thirty-one to the power `k`.
pub open spec fn pow31(k: nat) -> int
    decreases k,
{
    if k == 0 {
        1
    } else {
        31 * pow31((k - 1) as nat)
    }
}

/// A value already in the signed 32-bit range wraps to itself.
proof fn lemma_wrap_in_range(x: int)
    requires
        i32::MIN <= x <= i32::MAX,
    ensures
        wrap_i32(x) == x,
{
    let k = lemma_wrap_offset(x);
    assert(k == 0) by (nonlinear_arith)
        requires
            wrap_i32(x) == x + k * 0x1_0000_0000,
            i32::MIN <= wrap_i32(x) <= i32::MAX,
            i32::MIN <= x <= i32::MAX,
    ;
}

/// Wrapping an operand before scaling it does not change the final wrap.
proof fn lemma_wrap_scaled(a: int, x: int, b: int)
    ensures
        wrap_i32(a * wrap_i32(x) + b) == wrap_i32(a * x + b),
{
    let k = lemma_wrap_offset(x);
    assert(a * wrap_i32(x) + b == (a * x + b) + (a * k) * 0x1_0000_0000) by (nonlinear_arith)
        requires
            wrap_i32(x) == x + k * 0x1_0000_0000,
    ;
    lemma_wrap_shift(a * x + b, a * k);
}

/// The hash of a text followed by more text: the hash of the first part
/// times 31 for each further character, plus the hash of the second part,
/// wrapped to 32 bits.
pub proof fn law_hash_of_concatenation(s: Seq<char>, t: Seq<char>)
    ensures
        text_hash(s + t) == wrap_i32(text_hash(s) * pow31(t.len()) + text_hash(t)),
    decreases t.len(),
{
    if t.len() == 0 {
        assert(s + t =~= s);
        law_text_hash_fits_i32(s);
        lemma_wrap_in_range(text_hash(s));
    } else {
        let t1 = t.drop_last();
        let c = t.last();
        law_hash_of_concatenation(s, t1);
        assert((s + t).drop_last() =~= s + t1);
        assert((s + t).last() == c);
        let hs = text_hash(s);
        let h1 = text_hash(t1);
        let p1 = pow31(t1.len());
        // text_hash(s + t) == wrap(31 * wrap(hs * p1 + h1) + c)
        lemma_wrap_scaled(31, hs * p1 + h1, c as int);
        assert(31 * (hs * p1 + h1) + c as int == hs * (31 * p1) + (31 * h1 + c as int))
            by (nonlinear_arith);
        assert(pow31(t.len()) == 31 * p1);
        lemma_wrap_of_wrap(31 * h1 + c as int, hs * (31 * p1));
        assert(wrap_i32(31 * h1 + c as int) + hs * (31 * p1) == hs * (31 * p1) + wrap_i32(
            31 * h1 + c as int,
        ));
        assert((31 * h1 + c as int) + hs * (31 * p1) == hs * (31 * p1) + (31 * h1 + c as int));
    }
}

/// Adding whole multiples of 2^32 does not change the wrapped value.
proof fn lemma_wrap_shift(x: int, k: int)
    ensures
        wrap_i32(x + k * 0x1_0000_0000) == wrap_i32(x),
{
    lemma_mod_multiples_vanish(k, x, 0x1_0000_0000);
    assert(k * 0x1_0000_0000 == 0x1_0000_0000 * k) by (nonlinear_arith);
}

/// Wrapping moves a value by a whole multiple of 2^32.
proof fn lemma_wrap_offset(x: int) -> (k: int)
    ensures
        wrap_i32(x) == x + k * 0x1_0000_0000,
{
    lemma_fundamental_div_mod(x, 0x1_0000_0000);
    let q = x / 0x1_0000_0000;
    let m = x % 0x1_0000_0000;
    if m >= 0x8000_0000 {
        assert(wrap_i32(x) == x + (-q - 1) * 0x1_0000_0000) by (nonlinear_arith)
            requires
                x == 0x1_0000_0000 * q + m,
                wrap_i32(x) == m - 0x1_0000_0000,
        ;
        -q - 1
    } else {
        assert(wrap_i32(x) == x + (-q) * 0x1_0000_0000) by (nonlinear_arith)
            requires
                x == 0x1_0000_0000 * q + m,
                wrap_i32(x) == m,
        ;
        -q
    }
}

/// Wrapping an intermediate result early does not change the final wrap.
proof fn lemma_wrap_of_wrap(x: int, y: int)
    ensures
        wrap_i32(wrap_i32(x) + y) == wrap_i32(x + y),
{
    let k = lemma_wrap_offset(x);
    assert(wrap_i32(x) + y == (x + y) + k * 0x1_0000_0000);
    lemma_wrap_shift(x + y, k);
}

/// The code point of a character.
pub fn char_code(c: char) -> (r: i64)
    ensures
        r == c as int,
        0 <= r <= 0x10FFFF,
{
    c as i64
}

/// One hash step: shift the 32-bit value left by five, subtract the value,
/// add the character code, and keep the low 32 bits.
pub fn next_hash(h: i64, code: i64) -> (r: i64)
    requires
        i32::MIN <= h <= i32::MAX,
        0 <= code <= 0x10FFFF,
    ensures
        r == hash_step(h as int, code as int),
        i32::MIN <= r <= i32::MAX,
{
    let shifted: i32 = (h as i32) << 5;
    assert(shifted as int == wrap_i32(32 * h)) by (bit_vector)
        requires
            i32::MIN <= h <= i32::MAX,
            shifted == (h as i32) << 5,
    ;
    let val: i64 = shifted as i64 - h + code;
    let low: i32 = val as i32;
    assert(low as int == wrap_i32(val as int)) by (bit_vector)
        requires
            low == val as i32,
    ;
    let both: i32 = low & low;
    proof {
        lemma_wrap_range(val as int);
    }
    assert(both == low) by (bit_vector)
        requires
            both == low & low,
    ;
    proof {
        lemma_wrap_of_wrap(32 * h, -h + code);
    }
    both as i64
}

/// The hash of `text` as a JavaScript engine computes it: over the UTF-16
/// code units of the text, with 32-bit integer arithmetic.
pub fn js_hash(text: &str) -> (r: i32)
    ensures
        r as int == units_hash(utf16(text@)),
{
    let mut hash: i64 = 0;
    for c in it: text.chars()
        invariant
            it.seq() == text@,
            hash == units_hash(utf16(text@.take(it.index() as int))),
            i32::MIN <= hash <= i32::MAX,
    {
        let ghost before = utf16(text@.take(it.index() as int));
        proof {
            let t = text@.take(it.index() as int + 1);
            assert(t.drop_last() =~= text@.take(it.index() as int));
            assert(t.last() == c);
            assert(utf16(t) == before + utf16_units(c));
        }
        let code = char_code(c);
        if code < 0x10000 {
            let ghost units = before + utf16_units(c);
            proof {
                assert(units.drop_last() =~= before);
                assert(units.last() as int == code as int);
            }
            hash = next_hash(hash, code);
            assert(hash == units_hash(units));
        } else {
            let v = code - 0x10000;
            let high = 0xD800 + v / 0x400;
            let low = 0xDC00 + v % 0x400;
            let ghost units = before + utf16_units(c);
            proof {
                assert(units.drop_last() =~= before.push(high as u16));
                assert(before.push(high as u16).drop_last() =~= before);
                assert(units.last() as int == low as int);
                assert(before.push(high as u16).last() as int == high as int);
            }
            hash = next_hash(hash, high);
            assert(hash == units_hash(before.push(high as u16)));
            hash = next_hash(hash, low);
            assert(hash == units_hash(units));
        }
    }
    proof {
        assert(text@.take(text@.len() as int) =~= text@);
    }
    hash as i32
}

} // verus!
