//! Identifiers: 128-bit numbers, written as 32 hexadecimal digits in five
//! groups joined by hyphens.

use vstd::prelude::*;
use vstd::arithmetic::div_mod::{lemma_basic_div, lemma_div_denominator};

verus! {

/// `b` is a hexadecimal digit, of either case.
pub open spec fn is_hex(b: u8) -> bool {
    48 <= b <= 57 || 97 <= b <= 102 || 65 <= b <= 70
}

/// The number that the hexadecimal digit `b` stands for.
pub open spec fn hex_value(b: u8) -> nat {
    if 48 <= b <= 57 {
        (b - 48) as nat
    } else if 97 <= b <= 102 {
        (b - 87) as nat
    } else if 65 <= b <= 70 {
        (b - 55) as nat
    } else {
        0
    }
}

/// The places of the four hyphens.
pub open spec fn is_hyphen_place(i: int) -> bool {
    i == 8 || i == 13 || i == 18 || i == 23
}

/// `s` has, up to but not including `n`, a hyphen at each hyphen place and
/// a hexadecimal digit everywhere else.
pub open spec fn shaped_until(s: Seq<u8>, n: int) -> bool {
    forall|i: int|
        0 <= i < n ==> if is_hyphen_place(i) {
            #[trigger] s[i] == 45
        } else {
            is_hex(s[i])
        }
}

/// `s` writes an identifier: 36 bytes, hyphens at their places, digits
/// elsewhere.
pub open spec fn is_uuid_text(s: Seq<u8>) -> bool {
    s.len() == 36 && shaped_until(s, 36)
}

/// The number that the digits among the first `n` bytes of `s` write, most
/// significant first.
pub open spec fn digits_value(s: Seq<u8>, n: int) -> nat
    decreases n,
{
    if n <= 0 {
        0
    } else if is_hyphen_place(n - 1) {
        digits_value(s, n - 1)
    } else {
        digits_value(s, n - 1) * 16 + hex_value(s[n - 1])
    }
}

/// The identifier that `s` writes.
pub open spec fn uuid_value(s: Seq<u8>) -> nat {
    digits_value(s, 36)
}

/// How many of the first `n` places hold a digit.
pub open spec fn digits_before(n: int) -> nat {
    let hyphens: int = if n > 23 {
        4
    } else if n > 18 {
        3
    } else if n > 13 {
        2
    } else if n > 8 {
        1
    } else {
        0
    };
    (n - hyphens) as nat
}

/// Sixteen to the power `k`.
pub open spec fn pow16(k: nat) -> nat
    decreases k,
{
    if k == 0 {
        1
    } else {
        16 * pow16((k - 1) as nat)
    }
}

proof fn lemma_pow16_grows(a: nat, b: nat)
    requires
        a <= b,
    ensures
        pow16(a) <= pow16(b),
    decreases b,
{
    if a < b {
        lemma_pow16_grows(a, (b - 1) as nat);
    }
}

proof fn lemma_pow16_of_32()
    ensures
        pow16(32) == 0x1_0000_0000_0000_0000_0000_0000_0000_0000,
{
    assert(pow16(4) == 0x1_0000) by {
        reveal_with_fuel(pow16, 5);
    }
    assert(pow16(8) == 0x1_0000_0000) by {
        reveal_with_fuel(pow16, 5);
    }
    assert(pow16(12) == 0x1_0000_0000_0000) by {
        reveal_with_fuel(pow16, 5);
    }
    assert(pow16(16) == 0x1_0000_0000_0000_0000) by {
        reveal_with_fuel(pow16, 5);
    }
    assert(pow16(20) == 0x1_0000_0000_0000_0000_0000) by {
        reveal_with_fuel(pow16, 5);
    }
    assert(pow16(24) == 0x1_0000_0000_0000_0000_0000_0000) by {
        reveal_with_fuel(pow16, 5);
    }
    assert(pow16(28) == 0x1_0000_0000_0000_0000_0000_0000_0000) by {
        reveal_with_fuel(pow16, 5);
    }
    assert(pow16(32) == 0x1_0000_0000_0000_0000_0000_0000_0000_0000) by {
        reveal_with_fuel(pow16, 5);
    }
}

/// The identifier that a well-shaped text writes fits 128 bits.
pub proof fn lemma_uuid_value_fits(s: Seq<u8>, n: int)
    requires
        0 <= n <= 36,
    ensures
        digits_value(s, n) < pow16(digits_before(n)),
        n == 36 ==> digits_value(s, n) <= u128::MAX,
    decreases n,
{
    if n > 0 {
        lemma_uuid_value_fits(s, n - 1);
        if !is_hyphen_place(n - 1) {
            assert(digits_before(n) == digits_before(n - 1) + 1);
            assert(hex_value(s[n - 1]) <= 15);
        }
    }
    if n == 36 {
        lemma_pow16_of_32();
    }
}

fn hex_digit(b: u8) -> (r: Option<u8>)
    ensures
        r == (if is_hex(b) {
            Some(hex_value(b) as u8)
        } else {
            None
        }),
{
    if b >= 48 && b <= 57 {
        Some(b - 48)
    } else if b >= 97 && b <= 102 {
        Some(b - 87)
    } else if b >= 65 && b <= 70 {
        Some(b - 55)
    } else {
        None
    }
}

/// Reads an identifier from its text.
pub fn parse_uuid(b: &[u8]) -> (r: Option<u128>)
    ensures
        r == (if is_uuid_text(b@) {
            Some(uuid_value(b@) as u128)
        } else {
            None
        }),
        is_uuid_text(b@) ==> uuid_value(b@) <= u128::MAX,
{
    if b.len() != 36 {
        return None;
    }
    let mut v: u128 = 0;
    let mut i: usize = 0;
    while i < 36
        invariant
            b@.len() == 36,
            i <= 36,
            shaped_until(b@, i as int),
            v == digits_value(b@, i as int),
        decreases 36 - i,
    {
        if i == 8 || i == 13 || i == 18 || i == 23 {
            if b[i] != 45 {
                assert(!shaped_until(b@, 36));
                return None;
            }
        } else {
            match hex_digit(b[i]) {
                Some(d) => {
                    proof {
                        lemma_uuid_value_fits(b@, i as int);
                        lemma_uuid_value_fits(b@, i + 1);
                        lemma_pow16_grows(digits_before(i + 1), 32);
                        lemma_pow16_of_32();
                    }
                    v = v * 16 + d as u128;
                },
                None => {
                    assert(!shaped_until(b@, 36));
                    return None;
                },
            }
        }
        i += 1;
    }
    proof {
        lemma_uuid_value_fits(b@, 36);
    }
    Some(v)
}

/// The lower-case hexadecimal digit for `d`, which is below sixteen.
pub open spec fn hex_char(d: nat) -> u8 {
    if d < 10 {
        (48 + d) as u8
    } else {
        (87 + d) as u8
    }
}

/// The digit of `v` that stands at the place `i` of its text.
pub open spec fn digit_at(v: u128, i: int) -> nat {
    ((v as nat) / pow16((31 - digits_before(i)) as nat)) % 16
}

/// The text of the identifier `v`: 36 bytes, lower-case digits, most
/// significant first.
pub open spec fn uuid_text(v: u128) -> Seq<u8> {
    Seq::new(
        36,
        |i: int|
            if is_hyphen_place(i) {
                45u8
            } else {
                hex_char(digit_at(v, i))
            },
    )
}

/// What is left of `v` above the digits that stand at the place `n` and after.
pub open spec fn digits_above(v: u128, n: int) -> nat {
    (v as nat) / pow16((32 - digits_before(n)) as nat)
}

proof fn lemma_digits_above_all(v: u128)
    ensures
        digits_above(v, 36) == v as nat,
{
    let e = (32 - digits_before(36)) as nat;
    assert(e == 0);
    let p = pow16(e);
    assert(p == 1);
    assert(digits_above(v, 36) == (v as nat) / p);
}

proof fn lemma_digits_above_step(v: u128, i: int)
    requires
        0 <= i < 36,
        !is_hyphen_place(i),
    ensures
        digits_above(v, i + 1) % 16 == digit_at(v, i),
        digits_above(v, i + 1) / 16 == digits_above(v, i),
{
    let k = digits_before(i);
    assert(digits_before(i + 1) == k + 1);
    let p = pow16((31 - k) as nat);
    lemma_pow16_grows(0, (31 - k) as nat);
    assert(pow16((32 - k) as nat) == 16 * p);
    lemma_div_denominator(v as int, p as int, 16);
    assert(p * 16 == 16 * p);
}

/// Writes an identifier as text.
pub fn format_uuid(v: u128) -> (out: Vec<u8>)
    ensures
        out@ == uuid_text(v),
{
    let mut out: Vec<u8> = Vec::new();
    let mut n: usize = 0;
    while n < 36
        invariant
            n <= 36,
            out@.len() == n,
        decreases 36 - n,
    {
        out.push(45);
        n += 1;
    }
    let mut rest: u128 = v;
    let mut i: usize = 36;
    proof {
        lemma_digits_above_all(v);
    }
    while i > 0
        invariant
            i <= 36,
            out@.len() == 36,
            rest == digits_above(v, i as int),
            forall|j: int| i <= j < 36 ==> out@[j] == #[trigger] uuid_text(v)[j],
        decreases i,
    {
        i -= 1;
        if i == 8 || i == 13 || i == 18 || i == 23 {
            out.set(i, 45);
        } else {
            proof {
                lemma_digits_above_step(v, i as int);
            }
            let d: u8 = (rest % 16) as u8;
            let c: u8 = if d < 10 {
                48 + d
            } else {
                87 + d
            };
            out.set(i, c);
            rest = rest / 16;
        }
    }
    assert(out@ =~= uuid_text(v));
    out
}

proof fn lemma_value_of_text(v: u128, n: int)
    requires
        0 <= n <= 36,
    ensures
        digits_value(uuid_text(v), n) == digits_above(v, n),
    decreases n,
{
    if n == 0 {
        lemma_pow16_of_32();
        assert(digits_before(0) == 0);
        lemma_basic_div(v as int, pow16(32) as int);
    } else {
        lemma_value_of_text(v, n - 1);
        if is_hyphen_place(n - 1) {
            assert(digits_before(n) == digits_before(n - 1));
        } else {
            lemma_digits_above_step(v, n - 1);
            let d = digit_at(v, n - 1);
            assert(uuid_text(v)[n - 1] == hex_char(d));
            assert(hex_value(hex_char(d)) == d);
            let x = digits_above(v, n);
            assert(x == (x / 16) * 16 + x % 16);
        }
    }
}

/// The text of an identifier is well-shaped and writes that identifier.
pub proof fn law_text_round_trip(v: u128)
    ensures
        is_uuid_text(uuid_text(v)),
        uuid_value(uuid_text(v)) == v,
{
    lemma_value_of_text(v, 36);
    lemma_digits_above_all(v);
    assert forall|i: int| 0 <= i < 36 implies if is_hyphen_place(i) {
        #[trigger] uuid_text(v)[i] == 45
    } else {
        is_hex(uuid_text(v)[i])
    } by {}
}

} // verus!
