//! Structured values as text: human-readable file sizes, and tables of
//! rendered cells written as tab- or comma-separated values.
use vstd::prelude::*;
use crate::text::{
    append_str, chars_of, chars_eq, contains_char, dec, dec_chars, digit, digit_char, join, owned,
    push_char, u64_to_string, views,
};

verus! {

// ---------------------------------------------------------------------------
// File sizes
// ---------------------------------------------------------------------------

/// `b` to the power `e`.
pub open spec fn pow(b: nat, e: nat) -> nat
    decreases e,
{
    if e == 0 {
        1
    } else {
        b * pow(b, (e - 1) as nat)
    }
}

/// Number of binary digits of `x` (0 for 0).
pub open spec fn bits(x: nat) -> nat
    decreases x,
{
    if x == 0 {
        0
    } else {
        1 + bits(x / 2)
    }
}

/// The value of `x as f64`: `x` rounded to 53 significant bits, to nearest,
/// ties to even.
pub open spec fn as_f64(x: nat) -> nat {
    if bits(x) <= 53 {
        x
    } else {
        let d = pow(2, (bits(x) - 53) as nat);
        let q = x / d;
        let r = x % d;
        if 2 * r > d || (2 * r == d && q % 2 == 1) {
            (q + 1) * d
        } else {
            q * d
        }
    }
}

/// The unit for a size `f`: the largest `k <= 5` with `1024^k <= f`,
/// searching up from `k`.
pub open spec fn unit_index(f: nat, k: nat) -> nat
    decreases 5 - k,
{
    if k < 5 && f >= pow(1024, k + 1) {
        unit_index(f, k + 1)
    } else {
        k
    }
}

/// `f / 1024^k` in hundredths, rounded to nearest, ties to even.
pub open spec fn hundredths(f: nat, k: nat) -> nat {
    let d = pow(1024, k);
    let q = (100 * f) / d;
    let r = (100 * f) % d;
    if 2 * r > d || (2 * r == d && q % 2 == 1) {
        q + 1
    } else {
        q
    }
}

/// A number of hundredths written with two decimals, such as `1.50`.
pub open spec fn two_places(h: nat) -> Seq<char> {
    dec(h / 100) + seq!['.', digit_char((h % 100) / 10), digit_char(h % 10)]
}

/// The name of unit `k`.
pub open spec fn unit_name(k: nat) -> Seq<char> {
    if k == 0 {
        seq!['B']
    } else if k == 1 {
        seq!['K', 'B']
    } else if k == 2 {
        seq!['M', 'B']
    } else if k == 3 {
        seq!['G', 'B']
    } else if k == 4 {
        seq!['T', 'B']
    } else {
        seq!['P', 'B']
    }
}

/// A byte count as a human-readable size: `0 B`, a plain count below
/// 1024, and otherwise the size in the largest unit (KB, MB, GB, TB, PB;
/// powers of 1024) that it reaches, with two decimals.
pub open spec fn spec_format_filesize(bytes: nat) -> Seq<char> {
    if bytes == 0 {
        seq!['0', ' ', 'B']
    } else {
        let f = as_f64(bytes);
        let k = unit_index(f, 0);
        if k == 0 {
            dec(bytes) + seq![' ', 'B']
        } else {
            two_places(hundredths(f, k)) + seq![' '] + unit_name(k)
        }
    }
}

proof fn lemma_bits_bound(x: nat, k: nat)
    requires
        x < pow(2, k),
    ensures
        bits(x) <= k,
    decreases k,
{
    if x > 0 {
        if k == 0 {
            assert(false);
        } else {
            assert(x / 2 < pow(2, (k - 1) as nat));
            lemma_bits_bound(x / 2, (k - 1) as nat);
        }
    }
}

proof fn lemma_pow2_mono(a: nat, b: nat)
    requires
        a <= b,
    ensures
        pow(2, a) <= pow(2, b),
        pow(2, a) >= 1,
    decreases b,
{
    if b > 0 {
        if a == b {
            lemma_pow2_mono((a - 1) as nat, (b - 1) as nat);
        } else {
            lemma_pow2_mono(a, (b - 1) as nat);
        }
    }
}

proof fn lemma_pow_values()
    ensures
        pow(2, 11) == 2048,
        pow(2, 64) == 18446744073709551616,
        pow(1024, 0) == 1,
        pow(1024, 1) == 1024,
        pow(1024, 2) == 1048576,
        pow(1024, 3) == 1073741824,
        pow(1024, 4) == 1099511627776,
        pow(1024, 5) == 1125899906842624,
        pow(1024, 6) == 1152921504606846976,
{
    reveal_with_fuel(pow, 65);
}

/// Computes `x as f64` exactly, as an integer.
fn f64_value(x: u64) -> (f: u128)
    ensures
        f == as_f64(x as nat),
        f <= 18446744073709553664u128,
{
    proof {
        lemma_pow_values();
        lemma_bits_bound(x as nat, 64);
    }
    let mut n: u64 = x;
    let mut b: u64 = 0;
    while n > 0
        invariant
            bits(x as nat) == b + bits(n as nat),
            bits(x as nat) <= 64,
        decreases n,
    {
        n = n / 2;
        b = b + 1;
    }
    if b <= 53 {
        return x as u128;
    }
    let s: u64 = b - 53;
    let mut d: u128 = 1;
    let mut i: u64 = 0;
    while i < s
        invariant
            i <= s,
            s <= 11,
            d == pow(2, i as nat),
            pow(2, 11) == 2048,
        decreases s - i,
    {
        proof {
            lemma_pow2_mono(i as nat, 11);
        }
        d = d * 2;
        i = i + 1;
    }
    proof {
        lemma_pow2_mono(s as nat, 11);
    }
    let xx = x as u128;
    let q = xx / d;
    let r = xx % d;
    proof {
        vstd::arithmetic::div_mod::lemma_fundamental_div_mod(xx as int, d as int);
        assert(q * d <= xx) by (nonlinear_arith)
            requires
                xx == d * q + r,
                r >= 0,
        ;
        assert((q + 1) * d == q * d + d) by (nonlinear_arith);
    }
    if 2 * r > d || (2 * r == d && q % 2 == 1) {
        (q + 1) * d
    } else {
        proof {
            assert(q * d <= (q + 1) * d) by (nonlinear_arith)
                requires
                    d >= 1,
            ;
        }
        q * d
    }
}

/// The decimal digits of a 128-bit number.
fn dec_chars_u128(n: u128) -> (v: Vec<char>)
    ensures
        v@ == dec(n as nat),
    decreases n,
{
    if n < 10 {
        let mut v: Vec<char> = Vec::new();
        v.push(digit(n as u64));
        assert(v@ =~= seq![digit_char(n as nat)]);
        v
    } else {
        let mut v = dec_chars_u128(n / 10);
        v.push(digit((n % 10) as u64));
        v
    }
}

/// Formats a byte count as a human-readable size.
pub fn format_filesize(bytes: u64) -> (s: String)
    ensures
        s@ == spec_format_filesize(bytes as nat),
{
    if bytes == 0 {
        let s = owned("0 B");
        proof {
            reveal_strlit("0 B");
        }
        assert(s@ =~= seq!['0', ' ', 'B']);
        return s;
    }
    let f = f64_value(bytes);
    proof {
        lemma_pow_values();
        reveal_with_fuel(unit_index, 7);
    }
    let k: u64 = if f >= 1125899906842624 {
        5
    } else if f >= 1099511627776 {
        4
    } else if f >= 1073741824 {
        3
    } else if f >= 1048576 {
        2
    } else if f >= 1024 {
        1
    } else {
        0
    };
    assert(k == unit_index(f as nat, 0));
    let mut s = String::new();
    if k == 0 {
        let d = dec_chars(bytes);
        let ds = crate::text::string_of(d.as_slice());
        s = ds;
        push_char(&mut s, ' ');
        push_char(&mut s, 'B');
        assert(s@ =~= dec(bytes as nat) + seq![' ', 'B']);
        return s;
    }
    let d: u128 = if k == 1 {
        1024
    } else if k == 2 {
        1048576
    } else if k == 3 {
        1073741824
    } else if k == 4 {
        1099511627776
    } else {
        1125899906842624
    };
    assert(d == pow(1024, k as nat));
    let n = 100 * f;
    let q = n / d;
    let r = n % d;
    proof {
        assert(q <= n) by (nonlinear_arith)
            requires
                d >= 1,
                q == n / d,
        ;
    }
    let h: u128 = if 2 * r > d || (2 * r == d && q % 2 == 1) {
        q + 1
    } else {
        q
    };
    assert(h == hundredths(f as nat, k as nat));
    let ip = dec_chars_u128(h / 100);
    s = crate::text::string_of(ip.as_slice());
    push_char(&mut s, '.');
    push_char(&mut s, digit(((h % 100) / 10) as u64));
    push_char(&mut s, digit((h % 10) as u64));
    push_char(&mut s, ' ');
    let ghost before_unit = s@;
    assert(before_unit =~= two_places(h as nat) + seq![' ']);
    if k == 1 {
        push_char(&mut s, 'K');
    } else if k == 2 {
        push_char(&mut s, 'M');
    } else if k == 3 {
        push_char(&mut s, 'G');
    } else if k == 4 {
        push_char(&mut s, 'T');
    } else {
        push_char(&mut s, 'P');
    }
    push_char(&mut s, 'B');
    assert(s@ =~= before_unit + unit_name(k as nat));
    s
}

} // verus!
