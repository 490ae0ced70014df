//! Amounts of traffic, as they are shown.
use crate::text;
use vstd::prelude::*;
use vstd::string::*;

verus! {

/// `a / b` to the nearest whole number, and to the even one of two that are as
/// near.
pub open spec fn nearest(a: nat, b: nat) -> nat {
    let q = a / b;
    let r = a % b;
    if 2 * r > b || (2 * r == b && q % 2 == 1) {
        q + 1
    } else {
        q
    }
}

/// How far apart doubles are around a count: the first power of two from `p` on
/// that leaves it no more than the 53 bits a double has.
pub open spec fn spacing_from(count: nat, p: nat) -> nat
    decreases count - p,
{
    if p == 0 || count < p * 0x20_0000_0000_0000 {
        p
    } else {
        spacing_from(count, 2 * p)
    }
}

/// The double nearest to a count.
pub open spec fn as_double(count: nat) -> nat {
    nearest(count, spacing_from(count, 1)) * spacing_from(count, 1)
}

/// A number of tenths, with one digit after the point.
pub open spec fn with_tenths(tenths: nat) -> Seq<char> {
    text::decimal(tenths / 10) + "."@ + text::decimal(tenths % 10)
}

/// How a count of bytes is shown: as it is below a kibi, and from there on in the
/// largest unit up to the gibi that leaves at least one, to a tenth.
pub open spec fn human_of(count: nat) -> Seq<char> {
    let value = as_double(count);
    if value < 0x400 {
        text::decimal(value) + " o"@
    } else if value < 0x10_0000 {
        with_tenths(nearest(value * 10, 0x400)) + " Ko"@
    } else if value < 0x4000_0000 {
        with_tenths(nearest(value * 10, 0x10_0000)) + " Mo"@
    } else {
        with_tenths(nearest(value * 10, 0x4000_0000)) + " Go"@
    }
}

fn round(a: u128, b: u128) -> (r: u128)
    requires
        0 < b <= 0x1_0000_0000_0000_0000,
        a <= 0xa000_0000_0000_0000_0000,
    ensures
        r == nearest(a as nat, b as nat),
        r <= a / b + 1,
{
    let q: u128 = a / b;
    let rest: u128 = a % b;
    assert(q <= a) by (nonlinear_arith)
        requires
            q == a / b,
            b > 0,
    ;
    if 2 * rest > b || (2 * rest == b && q % 2 == 1) {
        q + 1
    } else {
        q
    }
}

fn tenths(value: u128, unit: u128, name: &str) -> (r: String)
    requires
        0x400 <= unit <= 0x4000_0000,
        value <= 0x1_0000_0000_0000_0000,
    ensures
        r@ == with_tenths(nearest(value as nat * 10, unit as nat)) + name@,
{
    let n = round(value * 10, unit);
    assert(n <= 0xa_0000_0000_0000_0000_u128 / 0x400 + 1) by (nonlinear_arith)
        requires
            n <= value * 10 / unit as int + 1,
            value <= 0x1_0000_0000_0000_0000,
            unit >= 0x400,
    ;
    let mut r = text::number((n / 10) as u64);
    r.append(".");
    r.append(text::number((n % 10) as u64).as_str());
    r.append(name);
    r
}

/// How a count of bytes is shown.
pub fn human(count: u64) -> (r: String)
    ensures
        r@ == human_of(count as nat),
{
    let wide: u128 = count as u128;
    let mut spacing: u128 = 1;
    while spacing < 0x800 && spacing * 0x20_0000_0000_0000 <= wide
        invariant
            is_spacing(spacing),
            wide <= u64::MAX,
            spacing_from(wide as nat, 1) == spacing_from(wide as nat, spacing as nat),
        decreases 0x1000 - spacing,
    {
        spacing = 2 * spacing;
    }
    assert(spacing_from(wide as nat, 1) == spacing);
    let q = round(wide, spacing);
    assert(q * spacing <= 0x1_0000_0000_0000_0000) by {
        lemma_double_fits(wide as nat, spacing);
    }
    let value: u128 = q * spacing;
    if value < 0x400 {
        let mut r = text::number(value as u64);
        r.append(" o");
        r
    } else if value < 0x10_0000 {
        tenths(value, 0x400, " Ko")
    } else if value < 0x4000_0000 {
        tenths(value, 0x10_0000, " Mo")
    } else {
        tenths(value, 0x4000_0000, " Go")
    }
}

/// How far apart doubles can be below the end of 64 bits.
spec fn is_spacing(p: u128) -> bool {
    p == 1 || p == 2 || p == 4 || p == 8 || p == 0x10 || p == 0x20 || p == 0x40 || p == 0x80 || p
        == 0x100 || p == 0x200 || p == 0x400 || p == 0x800
}

/// The double nearest to a 64-bit count is no further than the end of 64 bits.
proof fn lemma_double_fits(count: nat, p: u128)
    requires
        count <= u64::MAX,
        is_spacing(p),
    ensures
        nearest(count, p as nat) * p <= 0x1_0000_0000_0000_0000,
{
    let end: int = if p == 1 {
        0x1_0000_0000_0000_0000
    } else if p == 2 {
        0x8000_0000_0000_0000
    } else if p == 4 {
        0x4000_0000_0000_0000
    } else if p == 8 {
        0x2000_0000_0000_0000
    } else if p == 0x10 {
        0x1000_0000_0000_0000
    } else if p == 0x20 {
        0x800_0000_0000_0000
    } else if p == 0x40 {
        0x400_0000_0000_0000
    } else if p == 0x80 {
        0x200_0000_0000_0000
    } else if p == 0x100 {
        0x100_0000_0000_0000
    } else if p == 0x200 {
        0x80_0000_0000_0000
    } else if p == 0x400 {
        0x40_0000_0000_0000
    } else {
        0x20_0000_0000_0000
    };
    assert(end * p == 0x1_0000_0000_0000_0000);
    let q = count as int / p as int;
    assert(q < end) by (nonlinear_arith)
        requires
            q == count as int / p as int,
            end * p == 0x1_0000_0000_0000_0000,
            count < 0x1_0000_0000_0000_0000,
            p > 0,
    ;
    assert(nearest(count, p as nat) <= end);
    assert(nearest(count, p as nat) * p <= end * p) by (nonlinear_arith)
        requires
            nearest(count, p as nat) <= end,
            p > 0,
    ;
}

/// Rounding goes to the nearest whole number: what it gives is off by half of one at
/// most, and of two that are as near it gives the even one.
pub proof fn lemma_nearest(a: nat, b: nat)
    requires
        b > 0,
    ensures
        2 * (nearest(a, b) * b - a) <= b,
        2 * (a - nearest(a, b) * b) <= b,
        2 * (nearest(a, b) * b - a) == b || 2 * (a - nearest(a, b) * b) == b ==> nearest(a, b) % 2 == 0,
        nearest(a, 1) == a,
{
    let q = a / b;
    let r = a % b;
    vstd::arithmetic::div_mod::lemma_fundamental_div_mod(a as int, b as int);
    assert(b * q == q * b) by (nonlinear_arith);
    assert((q + 1) * b == q * b + b) by (nonlinear_arith);
    assert(a / 1 == a && a % 1 == 0) by (nonlinear_arith);
}

/// Below a kibi a count is shown as it is.
pub proof fn lemma_small_counts(count: nat)
    requires
        count < 1024,
    ensures
        human_of(count) == text::decimal(count) + " o"@,
{
    lemma_nearest(count, 1);
}

/// From there on it is shown in the largest of three units that leaves at least one, with
/// one digit after the point: the number shown is within half a tenth of a unit of the
/// count, for every count that a double holds exactly.
pub proof fn lemma_large_counts(count: nat) -> (tenths: nat)
    requires
        1024 <= count < 0x20_0000_0000_0000,
    ensures
        ({
            let unit: int = if count < 1024 * 1024 {
                1024
            } else if count < 1024 * 1024 * 1024 {
                0x10_0000
            } else {
                0x4000_0000
            };
            &&& 2 * (tenths * unit - 10 * count) <= unit
            &&& 2 * (10 * count - tenths * unit) <= unit
            &&& tenths >= 10
        }),
        human_of(count) == text::decimal(tenths / 10) + "."@ + text::decimal(tenths % 10) + (
        if count < 1024 * 1024 {
            " Ko"@
        } else if count < 1024 * 1024 * 1024 {
            " Mo"@
        } else {
            " Go"@
        }),
{
    lemma_nearest(count, 1);
    assert(as_double(count) == count);
    let unit: nat = if count < 0x10_0000 {
        0x400
    } else if count < 0x4000_0000 {
        0x10_0000
    } else {
        0x4000_0000
    };
    lemma_nearest(count * 10, unit);
    nearest(count * 10, unit)
}

/// How far apart doubles are is a power of two that leaves a count its 53 bits and no
/// more.
proof fn lemma_spacing(count: nat, p: nat)
    requires
        p > 0,
        p == 1 || p * 0x10_0000_0000_0000 <= count,
    ensures
        spacing_from(count, p) >= p,
        count < spacing_from(count, p) * 0x20_0000_0000_0000,
        spacing_from(count, p) == 1 || spacing_from(count, p) * 0x10_0000_0000_0000 <= count,
    decreases count - p,
{
    if count >= p * 0x20_0000_0000_0000 {
        lemma_spacing(count, 2 * p);
    }
}

/// A count that is too large for a double to hold exactly is rounded to its 53 leading
/// bits before anything else: what is shown of it is off by no more than that.
pub proof fn lemma_doubles(count: nat)
    ensures
        count < 0x20_0000_0000_0000 ==> as_double(count) == count,
        0x20_0000_0000_0000 * (as_double(count) - count) <= count,
        0x20_0000_0000_0000 * (count - as_double(count)) <= count,
{
    let p = spacing_from(count, 1);
    lemma_spacing(count, 1);
    lemma_nearest(count, p);
    lemma_nearest(count, 1);
}

} // verus!
