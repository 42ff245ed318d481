//! Human-readable byte sizes ("1.5 KB"), computed exactly in integers.
//!
//! The size is first taken the way a 64-bit float holds it (53 significant
//! bits, ties to even), divided by 1024 until it is below 1024 or the unit
//! is PB, and printed with one decimal, ties to even.

use vstd::prelude::*;
use vstd::arithmetic::div_mod::lemma_fundamental_div_mod;
use vstd::string::StringExecFns;
use crate::text::{dec_seq, digit_char, u64_to_string, push_char};

verus! {

/// 2 to the power `e`.
pub open spec fn p2(e: nat) -> nat
    decreases e,
{
    if e == 0 {
        1
    } else {
        2 * p2((e - 1) as nat)
    }
}

/// 1024 to the power `u`.
pub open spec fn p1024(u: nat) -> nat
    decreases u,
{
    if u == 0 {
        1
    } else {
        1024 * p1024((u - 1) as nat)
    }
}

/// 2^53: integers below it are held exactly by a 64-bit float.
pub open spec fn exact_float_limit() -> nat {
    9007199254740992
}

/// How many low bits a 64-bit float drops when it holds `b`.
pub open spec fn dropped_bits(b: nat) -> nat
    decreases b,
{
    if b < exact_float_limit() {
        0
    } else {
        1 + dropped_bits(b / 2)
    }
}

/// `x / d` rounded to the nearest integer, ties to even.
pub open spec fn div_round_even(x: nat, d: nat) -> nat {
    let q = x / d;
    let r = x % d;
    if 2 * r > d || (2 * r == d && q % 2 == 1) {
        q + 1
    } else {
        q
    }
}

/// The value of `b as f64`: `b` rounded to 53 significant bits, ties to even.
pub open spec fn float_value(b: nat) -> nat {
    let pw = p2(dropped_bits(b));
    div_round_even(b, pw) * pw
}

/// The unit index reached by dividing `f` by 1024 while it is at least
/// 1024, starting from unit `u`, and stopping at PB (index 5).
pub open spec fn unit_from(f: nat, u: nat) -> nat
    decreases 5 - u,
{
    if u < 5 && f >= p1024(u + 1) {
        unit_from(f, u + 1)
    } else {
        u
    }
}

/// The unit names, by index.
pub open spec fn unit_name(u: nat) -> Seq<char> {
    if u == 0 {
        "B"@
    } else if u == 1 {
        "KB"@
    } else if u == 2 {
        "MB"@
    } else if u == 3 {
        "GB"@
    } else if u == 4 {
        "TB"@
    } else {
        "PB"@
    }
}

/// What `human_size(bytes)` returns.
pub open spec fn human_size_seq(bytes: nat) -> Seq<char> {
    let f = float_value(bytes);
    let u = unit_from(f, 0);
    if u == 0 {
        dec_seq(bytes) + " B"@
    } else {
        let t = div_round_even(f * 10, p1024(u));
        dec_seq(t / 10) + seq!['.', digit_char(t % 10), ' '] + unit_name(u)
    }
}

proof fn lemma_p2_mono(a: nat, b: nat)
    requires
        a <= b,
    ensures
        p2(a) <= p2(b),
        p2(a) >= 1,
    decreases b,
{
    if b > a {
        lemma_p2_mono(a, (b - 1) as nat);
    } else if a > 0 {
        lemma_p2_mono((a - 1) as nat, (a - 1) as nat);
    }
}

proof fn lemma_dropped_bits_bound(t: nat, k: nat)
    requires
        t < exact_float_limit() * p2(k),
    ensures
        dropped_bits(t) <= k,
    decreases k,
{
    if t >= exact_float_limit() {
        if k == 0 {
            assert(false);
        } else {
            assert(t / 2 < exact_float_limit() * p2((k - 1) as nat));
            lemma_dropped_bits_bound(t / 2, (k - 1) as nat);
        }
    }
}

/// `b as f64`, as an exact integer.
fn float_value_exec(b: u64) -> (f: u128)
    ensures
        f == float_value(b as nat),
        f < 0x2_0000_0000_0000_0000,
        b < exact_float_limit() ==> f == b,
        f + 2048 > b,
{
    let mut t: u64 = b;
    let mut e: u64 = 0;
    let mut pw: u64 = 1;
    proof {
        assert(exact_float_limit() * p2(11) == 0x1_0000_0000_0000_0000) by {
            reveal_with_fuel(p2, 12);
        }
        lemma_dropped_bits_bound(b as nat, 11);
    }
    while t >= 9007199254740992
        invariant
            dropped_bits(b as nat) == e + dropped_bits(t as nat),
            dropped_bits(b as nat) <= 11,
            pw == p2(e as nat),
            pw <= 2048,
        decreases t,
    {
        proof {
            lemma_p2_mono((e + 1) as nat, 11);
            reveal_with_fuel(p2, 12);
        }
        t = t / 2;
        e = e + 1;
        pw = pw * 2;
    }
    assert(dropped_bits(t as nat) == 0);
    proof {
        lemma_p2_mono(0, e as nat);
    }
    let q: u64 = b / pw;
    let r: u64 = b % pw;
    let q2: u64 = if 2 * r > pw || (2 * r == pw && q % 2 == 1) {
        proof {
            lemma_fundamental_div_mod(b as int, pw as int);
            assert(q < 0xffff_ffff_ffff_ffff) by (nonlinear_arith)
                requires
                    b == pw * q + r,
                    2 * r >= pw,
                    pw >= 1,
                    b <= 0xffff_ffff_ffff_ffff,
                    r < pw,
            ;
        }
        q + 1
    } else {
        q
    };
    proof {
        lemma_fundamental_div_mod(b as int, pw as int);
        assert(q2 * pw < 0x2_0000_0000_0000_0000) by (nonlinear_arith)
            requires
                b == pw * q + r,
                q2 <= q + 1,
                pw <= 2048,
                pw >= 1,
                b <= 0xffff_ffff_ffff_ffff,
        ;
        assert(q2 * pw + 2048 > b) by (nonlinear_arith)
            requires
                b == pw * q + r,
                q2 >= q,
                r < pw,
                pw <= 2048,
        ;
        if b < exact_float_limit() {
            assert(e == 0);
            assert(pw == 1);
            assert(q == b);
        }
    }
    (q2 as u128) * (pw as u128)
}

/// A byte count as text: "512 B", "1.5 KB", "2.0 GB", ... up to PB.
pub fn human_size(bytes: u64) -> (s: String)
    ensures
        s@ == human_size_seq(bytes as nat),
{
    let f = float_value_exec(bytes);
    let mut unit: u64 = 0;
    let mut d: u128 = 1;
    while unit < 5 && f >= d * 1024
        invariant
            unit <= 5,
            d == p1024(unit as nat),
            d >= 1,
            d <= 1024 * 1024 * 1024 * 1024 * 1024,
            unit_from(f as nat, 0) == unit_from(f as nat, unit as nat),
        decreases 5 - unit,
    {
        proof {
            if unit == 4 {
                assert(d * 1024 == 1024 * 1024 * 1024 * 1024 * 1024) by {
                    reveal_with_fuel(p1024, 6);
                }
            } else {
                assert(d * 1024 <= 1024 * 1024 * 1024 * 1024 * 1024) by {
                    reveal_with_fuel(p1024, 6);
                }
            }
        }
        d = d * 1024;
        unit = unit + 1;
    }
    assert(unit_from(f as nat, 0) == unit);
    if unit == 0 {
        proof {
            assert(f < 1024);
            assert(bytes < 1024);
        }
        let mut s = u64_to_string(bytes);
        s.append(" B");
        s
    } else {
        proof {
            reveal_with_fuel(p1024, 2);
        }
        let x: u128 = f * 10;
        let q: u128 = x / d;
        let r: u128 = x % d;
        let t: u128 = if 2 * r > d || (2 * r == d && q % 2 == 1) {
            q + 1
        } else {
            q
        };
        proof {
            assert(q <= x / 1024) by (nonlinear_arith)
                requires
                    q == x / d,
                    d >= 1024,
            ;
            assert(t < 0x1000_0000_0000_0000);
        }
        let t64: u64 = t as u64;
        let mut s = u64_to_string(t64 / 10);
        push_char(&mut s, '.');
        push_char(&mut s, crate::text::digit_pub(t64 % 10));
        push_char(&mut s, ' ');
        let name = if unit == 1 {
            "KB"
        } else if unit == 2 {
            "MB"
        } else if unit == 3 {
            "GB"
        } else if unit == 4 {
            "TB"
        } else {
            "PB"
        };
        s.append(name);
        assert(s@ =~= human_size_seq(bytes as nat));
        s
    }
}

/// Sizes below 1024 bytes are written as a plain count of bytes.
pub proof fn lemma_small_sizes_in_bytes(bytes: nat)
    requires
        bytes < 1024,
    ensures
        human_size_seq(bytes) == dec_seq(bytes) + " B"@,
{
    assert(dropped_bits(bytes) == 0);
    assert(p2(0) == 1);
    assert(float_value(bytes) == bytes);
    assert(p1024(1) == 1024) by {
        assert(p1024(0) == 1);
    }
    assert(unit_from(bytes, 0) == 0);
}

} // verus!
