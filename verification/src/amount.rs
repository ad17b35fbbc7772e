//! Amounts of bytes for display, with one decimal of a binary unit.
use vstd::prelude::*;
use crate::number::{decimal, decimal_of};

verus! {

/// One kibibyte.
pub const KIB: u64 = 1024;

/// One mebibyte.
pub const MIB: u64 = 1048576;

/// One gibibyte.
pub const GIB: u64 = 1073741824;

/// The first number of bytes that a double-precision number does not hold exactly together
/// with all numbers below it.
pub const EXACT_LIMIT: u64 = 9007199254740992;

/// `n / d` rounded to the nearest whole number, and to the even one of two that are as near.
pub open spec fn rounded(n: nat, d: nat) -> nat {
    let q = n / d;
    let r = n % d;
    if 2 * r > d || (2 * r == d && q % 2 == 1) {
        q + 1
    } else {
        q
    }
}

/// The distance of double-precision numbers near `n`.
pub open spec fn spacing(n: nat) -> nat
    decreases n,
{
    if n < EXACT_LIMIT {
        1
    } else {
        2 * spacing(n / 2)
    }
}

/// The double-precision number next to `n`.
pub open spec fn as_double(n: nat) -> nat {
    rounded(n, spacing(n)) * spacing(n)
}

/// `n` in the unit `unit`, with one decimal.
pub open spec fn in_unit(n: nat, unit: nat) -> Seq<char> {
    let tenths = rounded(as_double(n) * 10, unit);
    decimal(tenths / 10) + "."@ + decimal(tenths % 10)
}

/// `n` bytes in the largest binary unit that they reach, with one decimal; below one
/// kibibyte the number of bytes.
pub open spec fn bytes_text(n: u64) -> Seq<char> {
    if n >= GIB {
        in_unit(n as nat, GIB as nat) + " GiB"@
    } else if n >= MIB {
        in_unit(n as nat, MIB as nat) + " MiB"@
    } else if n >= KIB {
        in_unit(n as nat, KIB as nat) + " KiB"@
    } else {
        decimal(n as nat) + " B"@
    }
}

proof fn lemma_spacing_bound(n: nat)
    requires
        n <= u64::MAX,
    ensures
        1 <= spacing(n) <= 2048,
{
    reveal_with_fuel(spacing, 13);
}

fn spacing_of(n: u64) -> (d: u64)
    ensures
        d == spacing(n as nat),
        1 <= d <= 2048,
{
    let mut h: u64 = n;
    let mut d: u64 = 1;
    proof {
        lemma_spacing_bound(n as nat);
    }
    while h >= EXACT_LIMIT
        invariant
            1 <= spacing(n as nat) <= 2048,
            d >= 1,
            spacing(n as nat) == d * spacing(h as nat),
            spacing(h as nat) >= 1,
        decreases h,
    {
        proof {
            lemma_spacing_positive((h / 2) as nat);
            assert(d * (2 * spacing((h / 2) as nat)) == (2 * d) * spacing((h / 2) as nat))
                by (nonlinear_arith);
            assert(2 * d <= 2048) by (nonlinear_arith)
                requires
                    (2 * d) * spacing((h / 2) as nat) <= 2048,
                    spacing((h / 2) as nat) >= 1,
            ;
        }
        h = h / 2;
        d = d * 2;
    }
    proof {
        assert(spacing(h as nat) == 1);
        assert(d * spacing(h as nat) == d) by (nonlinear_arith)
            requires
                spacing(h as nat) == 1,
        ;
    }
    d
}

proof fn lemma_spacing_positive(n: nat)
    ensures
        spacing(n) >= 1,
    decreases n,
{
    if n >= EXACT_LIMIT {
        lemma_spacing_positive(n / 2);
    }
}

fn rounded_of(n: u128, d: u128) -> (r: u128)
    requires
        0 < d <= 0x1_0000_0000_0000_0000,
        n < 0x100_0000_0000_0000_0000,
    ensures
        r == rounded(n as nat, d as nat),
{
    let q: u128 = n / d;
    let r: u128 = n % d;
    if 2 * r > d || (2 * r == d && q % 2 == 1) {
        q + 1
    } else {
        q
    }
}

fn in_unit_of(n: u64, unit: u64) -> (s: String)
    requires
        1024 <= unit,
    ensures
        s@ == in_unit(n as nat, unit as nat),
{
    let d = spacing_of(n);
    let q = rounded_of(n as u128, d as u128);
    proof {
        lemma_rounded_bound(n as nat, d as nat);
    }
    let double: u128 = q * d as u128;
    let tenths = rounded_of(double * 10, unit as u128);
    proof {
        lemma_tenths_bound((double * 10) as nat, unit as nat);
    }
    let mut s = decimal_of((tenths / 10) as u64);
    s.append(".");
    s.append(decimal_of((tenths % 10) as u64).as_str());
    s
}

proof fn lemma_rounded_bound(n: nat, d: nat)
    requires
        n <= u64::MAX,
        1 <= d <= 2048,
    ensures
        rounded(n, d) * d <= n + 2048,
        rounded(n, d) <= n + 1,
{
    let q = n / d;
    assert(q * d <= n && q <= n) by {
        vstd::arithmetic::div_mod::lemma_fundamental_div_mod(n as int, d as int);
        assert(q * d <= n) by (nonlinear_arith)
            requires
                n == d * q + n % d,
                n % d >= 0,
        ;
        assert(q <= n) by (nonlinear_arith)
            requires
                q * d <= n,
                d >= 1,
        ;
    }
    assert((q + 1) * d == q * d + d) by (nonlinear_arith);
}

proof fn lemma_tenths_bound(n: nat, unit: nat)
    requires
        n <= 0x1_0000_0000_0000_0800 * 10,
        1024 <= unit,
    ensures
        rounded(n, unit) <= u64::MAX,
{
    let q = n / unit;
    assert(q * 1024 <= n) by {
        vstd::arithmetic::div_mod::lemma_fundamental_div_mod(n as int, unit as int);
        assert(q * 1024 <= n) by (nonlinear_arith)
            requires
                n == unit * q + n % unit,
                n % unit >= 0,
                unit >= 1024,
        ;
    }
}

/// The tenths of a unit in any number of bytes are a machine number.
pub proof fn lemma_tenths(n: u64, unit: u64)
    requires
        1024 <= unit,
    ensures
        rounded(as_double(n as nat) * 10, unit as nat) <= u64::MAX,
{
    lemma_spacing_bound(n as nat);
    lemma_rounded_bound(n as nat, spacing(n as nat));
    lemma_tenths_bound(as_double(n as nat) * 10, unit as nat);
}

/// `bytes` in the largest binary unit that they reach, with one decimal.
pub fn format_bytes(bytes: u64) -> (s: String)
    ensures
        s@ == bytes_text(bytes),
{
    if bytes >= GIB {
        let mut s = in_unit_of(bytes, GIB);
        s.append(" GiB");
        s
    } else if bytes >= MIB {
        let mut s = in_unit_of(bytes, MIB);
        s.append(" MiB");
        s
    } else if bytes >= KIB {
        let mut s = in_unit_of(bytes, KIB);
        s.append(" KiB");
        s
    } else {
        let mut s = decimal_of(bytes);
        s.append(" B");
        s
    }
}

} // verus!
