//! Integer helpers of the assembler: narrowing values into bit fields and
//! parsing integer literals.
use vstd::prelude::*;
use vstd::arithmetic::power2::{pow2, lemma_pow2_unfold, lemma_pow2_pos};
use vstd::bits::{lemma_u64_shl_is_mul, lemma_u64_pow2_no_overflow, lemma_u64_low_bits_mask_is_mod, low_bits_mask};
use crate::word::UInt;
use crate::text::{push_str, decimal, decimal_string, chars_of};

verus! {

/// The two's complement negation of a 64-bit value.
pub open spec fn neg64(v: u64) -> u64 {
    if v == 0 { 0 } else { (0x1_0000_0000_0000_0000 - v) as u64 }
}

/// Whether `value`, read as a signed or as an unsigned 64-bit integer,
/// fits in a field of `n_bits` bits: its magnitude is at most `2^n_bits - 1`.
pub open spec fn fits_in(value: u64, n_bits: nat) -> bool {
    if value >= 0x8000_0000_0000_0000 {
        neg64(value) <= pow2(n_bits) - 1
    } else {
        value <= pow2(n_bits) - 1
    }
}

/// The low `n_bits` bits of `value`.
pub open spec fn low_bits(value: u64, n_bits: nat) -> nat {
    value as nat % pow2(n_bits)
}

/// What `mask` gives back: the low bits of the value, narrowed to `T`, when the
/// value fits in the field and the field's bits fit in `T`.
pub open spec fn mask_result<T: UInt>(value: u64, n_bits: nat) -> Option<nat> {
    if fits_in(value, n_bits) && low_bits(value, n_bits) < pow2(T::bits()) {
        Some(low_bits(value, n_bits))
    } else {
        None
    }
}

proof fn lemma_mask_value(n_bits: u64)
    requires
        1 <= n_bits <= 64,
    ensures
        ((((1u64 << ((n_bits - 1) as u64)) - 1) * 2 + 1) as nat) == pow2(n_bits as nat) - 1,
        pow2(n_bits as nat) - 1 <= u64::MAX,
        (1u64 << ((n_bits - 1) as u64)) >= 1,
{
    lemma_u64_pow2_no_overflow((n_bits - 1) as nat);
    lemma_u64_shl_is_mul(1, (n_bits - 1) as u64);
    lemma_pow2_unfold(n_bits as nat);
    if n_bits - 1 < 63 {
        vstd::arithmetic::power2::lemma_pow2_strictly_increases((n_bits - 1) as nat, 63);
    }
    vstd::arithmetic::power2::lemma2_to64();
    vstd::arithmetic::power2::lemma2_to64_rest();
}

proof fn lemma_and_mask(value: u64, n_bits: nat, m: u64)
    requires
        1 <= n_bits <= 64,
        m as nat == pow2(n_bits) - 1,
    ensures
        (value & m) as nat == low_bits(value, n_bits),
{
    if n_bits < 64 {
        lemma_u64_pow2_no_overflow(n_bits);
        assert(low_bits_mask(n_bits) == m);
        lemma_u64_low_bits_mask_is_mod(value, n_bits);
    } else {
        crate::word::lemma_pow2_values();
        assert(m == 0xffff_ffff_ffff_ffffu64);
        assert(value & 0xffff_ffff_ffff_ffffu64 == value) by (bit_vector);
    }
}

/// The message of a value that does not fit `n_bits` bits.
pub open spec fn mask_message(value: u64, n_bits: nat) -> Seq<char> {
    if !fits_in(value, n_bits) {
        "Value "@ + decimal(value as nat) + " does not fit in "@ + decimal(n_bits) + " bits"@
    } else {
        "Invalid mask"@
    }
}

/// Narrows `value` into a field of `n_bits` bits.
///
/// The value may be given in two's complement: it is accepted when, read as a
/// signed or as an unsigned integer, its magnitude is below `2^n_bits`.
/// The result is its low `n_bits` bits, converted to `T`.
///
/// # Errors
///
/// If `value` can't fit inside `n_bits`, or its low bits do not fit in `T`.
pub fn mask<T: UInt>(value: u64, n_bits: usize) -> (r: Result<T, String>)
    requires
        1 <= n_bits <= 64,
    ensures
        r is Ok <==> mask_result::<T>(value, n_bits as nat) is Some,
        r matches Ok(x) ==> x.value() == mask_result::<T>(value, n_bits as nat)->0,
        r matches Err(m) ==> m@ == mask_message(value, n_bits as nat),
{
    proof {
        lemma_mask_value(n_bits as u64);
    }
    // Compute up to 2^64 - 1 without overflow
    let m: u64 = ((1u64 << ((n_bits - 1) as u64)) - 1) * 2 + 1;
    let negative = (value >> 63u64) == 1;
    proof {
        assert(negative <==> value >= 0x8000_0000_0000_0000) by (bit_vector)
            requires negative == ((value >> 63u64) == 1);
        assert(!value == 0xffff_ffff_ffff_ffffu64 - value) by (bit_vector);
    }
    if (negative && ((!value).wrapping_add(1) > m)) || (!negative && value > m) {
        let mut msg = "Value ".to_owned();
        push_str(&mut msg, &decimal_string(value));
        push_str(&mut msg, " does not fit in ");
        push_str(&mut msg, &decimal_string(n_bits as u64));
        push_str(&mut msg, " bits");
        return Err(msg);
    }
    proof {
        lemma_and_mask(value, n_bits as nat, m);
    }
    match T::try_from_u64(value & m) {
        Some(x) => Ok(x),
        None => Err("Invalid mask".to_owned()),
    }
}

/// The number that a single character stands for as a digit (`0-9`, `a-z`, `A-Z`).
pub open spec fn digit_value(c: char) -> nat {
    if '0' <= c && c <= '9' {
        (c as nat - '0' as nat) as nat
    } else if 'a' <= c && c <= 'z' {
        (c as nat - 'a' as nat + 10) as nat
    } else if 'A' <= c && c <= 'Z' {
        (c as nat - 'A' as nat + 10) as nat
    } else {
        36
    }
}

/// Whether every character of `s` is a digit below `radix`.
pub open spec fn all_digits(s: Seq<char>, radix: nat) -> bool {
    forall|i: int| 0 <= i < s.len() ==> digit_value(#[trigger] s[i]) < radix
}

/// The number written by the digits `s` in base `radix`.
pub open spec fn digits_value(s: Seq<char>, radix: nat) -> nat
    decreases s.len(),
{
    if s.len() == 0 {
        0
    } else {
        digits_value(s.drop_last(), radix) * radix + digit_value(s.last())
    }
}

/// An unsigned integer written in base `radix`, with an optional leading `+`,
/// as the standard library's `from_str_radix` reads it.
pub open spec fn from_radix(s: Seq<char>, radix: nat) -> Option<u64> {
    let digits = if s.len() > 0 && s[0] == '+' { s.drop_first() } else { s };
    if digits.len() > 0 && all_digits(digits, radix) && digits_value(digits, radix) <= u64::MAX {
        Some(digits_value(digits, radix) as u64)
    } else {
        None
    }
}

/// Whether `s` starts with the two characters `a`, `b`.
pub open spec fn has_prefix2(s: Seq<char>, a: char, b: char) -> bool {
    s.len() >= 2 && s[0] == a && s[1] == b
}

/// The integer that `text` denotes, like Python's `int(x, 0)`: an optional
/// `-` (two's complement negation, which may repeat), then `0x`, `0b` or `0o`
/// for hexadecimal, binary or octal, or else decimal.
pub open spec fn int_literal(s: Seq<char>) -> Option<u64>
    decreases s.len(),
{
    if s.len() > 0 && s[0] == '-' {
        match int_literal(s.drop_first()) {
            Some(v) => Some(neg64(v)),
            None => None,
        }
    } else if has_prefix2(s, '0', 'x') {
        from_radix(s.skip(2), 16)
    } else if has_prefix2(s, '0', 'b') {
        from_radix(s.skip(2), 2)
    } else if has_prefix2(s, '0', 'o') {
        from_radix(s.skip(2), 8)
    } else {
        from_radix(s, 10)
    }
}

proof fn lemma_digits_value_prefix(s: Seq<char>, radix: nat, k: int)
    requires
        0 <= k <= s.len(),
        radix >= 1,
    ensures
        digits_value(s.subrange(0, k), radix) <= digits_value(s, radix),
    decreases s.len(),
{
    if k < s.len() {
        lemma_digits_value_prefix(s.drop_last(), radix, k);
        assert(s.drop_last().subrange(0, k) == s.subrange(0, k));
        let p = digits_value(s.drop_last(), radix);
        assert(p * radix >= p) by (nonlinear_arith)
            requires radix >= 1;
    } else {
        assert(s.subrange(0, k) == s);
    }
}

/// The number written by a character as a digit, computed.
fn char_digit(c: char) -> (d: u64)
    ensures
        d == digit_value(c),
{
    if '0' <= c && c <= '9' {
        (c as u64) - ('0' as u64)
    } else if 'a' <= c && c <= 'z' {
        (c as u64) - ('a' as u64) + 10
    } else if 'A' <= c && c <= 'Z' {
        (c as u64) - ('A' as u64) + 10
    } else {
        36
    }
}

/// Reads `s[start..]` as an unsigned integer in base `radix`
/// (the standard library's `u64::from_str_radix`).
pub fn parse_radix(s: &[char], start: usize, radix: u64) -> (r: Option<u64>)
    requires
        start <= s@.len(),
        2 <= radix <= 36,
    ensures
        r == from_radix(s@.skip(start as int), radix as nat),
{
    let ghost full = s@.skip(start as int);
    let mut i = start;
    if i < s.len() && s[i] == '+' {
        i = i + 1;
    }
    let ghost digits = if full.len() > 0 && full[0] == '+' { full.drop_first() } else { full };
    assert(digits == s@.skip(i as int));
    if i == s.len() {
        return None;
    }
    let first = i;
    let mut acc: u64 = 0;
    while i < s.len()
        invariant
            first <= i <= s@.len(),
            2 <= radix <= 36,
            full == s@.skip(start as int),
            digits == (if full.len() > 0 && full[0] == '+' { full.drop_first() } else { full }),
            digits == s@.skip(first as int),
            all_digits(s@.subrange(first as int, i as int), radix as nat),
            acc == digits_value(s@.subrange(first as int, i as int), radix as nat),
        decreases s@.len() - i,
    {
        let d = char_digit(s[i]);
        let ghost pre = s@.subrange(first as int, i as int);
        let ghost next = s@.subrange(first as int, i + 1);
        assert(next.drop_last() == pre);
        if d >= radix {
            proof {
                assert(digits[i - first] == s@[i as int]);
                assert(digit_value(digits[i - first]) >= radix);
                assert(!all_digits(digits, radix as nat));
            }
            return None;
        }
        let prod = acc.checked_mul(radix);
        match prod {
            None => {
                proof {
                    lemma_digits_value_prefix(digits, radix as nat, i + 1 - first);
                    assert(digits.subrange(0, i + 1 - first) == next);
                    assert(digits_value(next, radix as nat) == digits_value(pre, radix as nat) * radix + digit_value(next.last()));
                }
                return None;
            }
            Some(p) => {
                let sum = p.checked_add(d);
                match sum {
                    None => {
                        proof {
                            lemma_digits_value_prefix(digits, radix as nat, i + 1 - first);
                            assert(digits.subrange(0, i + 1 - first) == next);
                            assert(next.last() == s@[i as int]);
                            assert(digits_value(next, radix as nat) == digits_value(pre, radix as nat) * radix + digit_value(next.last()));
                        }
                        return None;
                    }
                    Some(v) => {
                        assert(next.last() == s@[i as int]);
                        acc = v;
                    }
                }
            }
        }
        i = i + 1;
        proof {
            assert forall|j: int| 0 <= j < next.len() implies digit_value(#[trigger] next[j]) < radix by {
                if j < pre.len() {
                    assert(next[j] == pre[j]);
                }
            }
        }
    }
    assert(s@.subrange(first as int, i as int) == digits);
    Some(acc)
}

/// The characters `s[start..]` as an integer literal (see [`parse_int`]).
pub fn parse_int_chars(s: &[char], start: usize) -> (r: Option<u64>)
    requires
        start <= s@.len(),
    ensures
        r == int_literal(s@.skip(start as int)),
    decreases s@.len() - start,
{
    let ghost t = s@.skip(start as int);
    let n = s.len();
    if start < n && s[start] == '-' {
        assert(t.drop_first() == s@.skip(start + 1));
        match parse_int_chars(s, start + 1) {
            Some(v) => Some(if v == 0 { 0 } else { u64::MAX - v + 1 }),
            None => None,
        }
    } else if start < n && start + 1 < n && s[start] == '0' && s[start + 1] == 'x' {
        assert(t.skip(2) == s@.skip(start + 2));
        parse_radix(s, start + 2, 16)
    } else if start < n && start + 1 < n && s[start] == '0' && s[start + 1] == 'b' {
        assert(t.skip(2) == s@.skip(start + 2));
        parse_radix(s, start + 2, 2)
    } else if start < n && start + 1 < n && s[start] == '0' && s[start + 1] == 'o' {
        assert(t.skip(2) == s@.skip(start + 2));
        parse_radix(s, start + 2, 8)
    } else {
        parse_radix(s, start, 10)
    }
}

/// Parses a string representing an integer.
/// Works similarly to int(x, 0) in Python.
///
/// # Errors
///
/// `Invalid integer: <text>` when `text` is no integer literal.
pub fn parse_int(text: &str) -> (r: Result<u64, String>)
    ensures
        r is Ok <==> int_literal(text@) is Some,
        r matches Ok(v) ==> int_literal(text@) == Some(v),
        r matches Err(msg) ==> msg@ == "Invalid integer: "@ + text@,
{
    let cs = chars_of(text);
    assert(cs@.skip(0) == cs@);
    match parse_int_chars(&cs, 0) {
        Some(v) => Ok(v),
        None => {
            let mut msg = "Invalid integer: ".to_owned();
            push_str(&mut msg, text);
            Err(msg)
        }
    }
}

} // verus!
