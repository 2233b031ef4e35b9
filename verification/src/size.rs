//! Byte counts for people to read.

use crate::number::{decimal, decimal_text, digit_char};
use vstd::prelude::*;
use vstd::string::*;

verus! {

/// The quotient of two numbers, rounded to the nearest whole number; a half goes to the even
/// one of its two neighbours.
pub open spec fn rounded_quotient(n: nat, d: nat) -> nat {
    let q = n / d;
    let r = n % d;
    if 2 * r > d || (2 * r == d && q % 2 == 1) {
        q + 1
    } else {
        q
    }
}

/// How far apart the numbers with 53 significant bits lie around `n`: a power of two.
pub open spec fn spacing(n: nat) -> nat
    decreases n,
{
    if n < 0x20_0000_0000_0000 {
        1
    } else {
        2 * spacing(n / 2)
    }
}

/// The number with at most 53 significant bits that is nearest to `n`: the value that a byte
/// count has as a double-precision number.
pub open spec fn nearest_double(n: nat) -> nat {
    rounded_quotient(n, spacing(n)) * spacing(n)
}

/// How often a byte count can be divided by 1024 before it is below 1024.
pub open spec fn unit_index(v: nat) -> nat
    decreases v,
{
    if v < 1024 {
        0
    } else {
        1 + unit_index(v / 1024)
    }
}

/// The number of bytes in the unit of this index.
pub open spec fn unit_bytes(i: nat) -> nat
    decreases i,
{
    if i == 0 {
        1
    } else {
        1024 * unit_bytes((i - 1) as nat)
    }
}

/// The names of the units.
pub open spec fn unit_name(i: nat) -> Seq<char> {
    if i == 0 {
        "B"@
    } else if i == 1 {
        "KB"@
    } else if i == 2 {
        "MB"@
    } else if i == 3 {
        "GB"@
    } else if i == 4 {
        "TB"@
    } else if i == 5 {
        "PB"@
    } else {
        "EB"@
    }
}

/// A byte count in hundredths of the unit that it is shown in.
pub open spec fn hundredths(bytes: nat) -> nat {
    let v = nearest_double(bytes);
    rounded_quotient(v * 100, unit_bytes(unit_index(v)))
}

/// A byte count with two decimals, in the largest unit of which there is at least one.
pub open spec fn size_text(bytes: nat) -> Seq<char> {
    let h = hundredths(bytes);
    decimal_text(h / 100) + "."@ + seq![digit_char(h / 10 % 10), digit_char(h % 10)] + " "@
        + unit_name(unit_index(nearest_double(bytes)))
}

proof fn lemma_spacing(n: nat)
    requires
        n <= u64::MAX,
    ensures
        1 <= spacing(n) <= 2048,
        n < 0x20_0000_0000_0000 * spacing(n),
{
    reveal_with_fuel(spacing, 13);
}

/// The unit is at most the value, unless it is the byte, and 1024 of the unit exceed it.
proof fn lemma_unit(v: nat)
    ensures
        unit_bytes(unit_index(v)) >= 1,
        unit_index(v) > 0 ==> unit_bytes(unit_index(v)) <= v,
        v < 1024 * unit_bytes(unit_index(v)),
    decreases v,
{
    if v >= 1024 {
        lemma_unit(v / 1024);
    }
}

/// No more than six divisions by 1024 are needed for the counts that occur.
proof fn lemma_few_units(v: nat)
    requires
        v <= 0x1_0000_0000_0000_0000,
    ensures
        unit_index(v) <= 6,
{
    reveal_with_fuel(unit_index, 8);
}

proof fn lemma_small_unit(i: nat)
    requires
        i <= 6,
    ensures
        1 <= unit_bytes(i) <= 0x1000_0000_0000_0000,
{
    reveal_with_fuel(unit_bytes, 8);
}

/// A rounded quotient keeps to whole bounds of the quotient.
proof fn lemma_rounded_quotient(n: nat, d: nat, low: nat, high: nat)
    requires
        d >= 1,
        low * d <= n < high * d,
    ensures
        low <= rounded_quotient(n, d) <= high,
{
    let q = n / d;
    assert(low <= q < high) by (nonlinear_arith)
        requires
            d >= 1,
            q == n / d,
            low * d <= n < high * d,
    ;
}

proof fn lemma_nearest_double(bytes: nat)
    requires
        bytes <= u64::MAX,
    ensures
        nearest_double(bytes) <= 0x1_0000_0000_0000_0000,
        bytes < 0x20_0000_0000_0000 ==> nearest_double(bytes) == bytes,
{
    lemma_spacing(bytes);
    let u = spacing(bytes);
    lemma_rounded_quotient(bytes, u, 0, 0x20_0000_0000_0000);
    let q = rounded_quotient(bytes, u);
    assert(q * u <= 0x20_0000_0000_0000 * 2048) by (nonlinear_arith)
        requires
            q <= 0x20_0000_0000_0000,
            u <= 2048,
    ;
}

/// A byte count is shown as a number from 1.00 to 1024.00 of its unit; only counts in
/// plain bytes may be below 1.00.
pub proof fn law_size_fits_its_unit(bytes: nat)
    ensures
        hundredths(bytes) <= 102400,
        unit_index(nearest_double(bytes)) > 0 ==> hundredths(bytes) >= 100,
{
    let v = nearest_double(bytes);
    let d = unit_bytes(unit_index(v));
    lemma_unit(v);
    lemma_rounded_quotient(v * 100, d, 0, 102400);
    if unit_index(v) > 0 {
        lemma_rounded_quotient(v * 100, d, 100, 102400);
    }
}

/// A rounded quotient is the whole number nearest to the quotient, and of two that are equally
/// near it is the even one.
pub proof fn law_rounding_is_to_the_nearest(n: nat, d: nat)
    requires
        d >= 1,
    ensures
        ({
            let q = rounded_quotient(n, d) as int;
            &&& -(d as int) <= 2 * (q * d - n) <= d
            &&& (2 * (q * d - n) == d || 2 * (q * d - n) == -d) ==> q % 2 == 0
        }),
{
    let q = (n / d) as int;
    let r = (n % d) as int;
    let m = d as int;
    vstd::arithmetic::div_mod::lemma_fundamental_div_mod(n as int, m);
    assert(n == q * m + r) by (nonlinear_arith)
        requires
            n == m * q + r,
    ;
    assert((q + 1) * m == q * m + m) by (nonlinear_arith);
    assert(0 <= r < m);
    if rounded_quotient(n, d) == q + 1 {
        assert(2 * ((q + 1) * m - n) == 2 * m - 2 * r);
    } else {
        assert(2 * (q * m - n) == -2 * r);
    }
}

/// Counts below 2 to the power of 53 keep their value. Larger ones are brought to the nearest
/// multiple of the power of two that leaves 53 significant bits; of two that are equally near, to
/// the even multiple.
pub proof fn law_large_counts_keep_53_bits(bytes: nat)
    requires
        bytes <= u64::MAX,
    ensures
        bytes < 0x20_0000_0000_0000 ==> nearest_double(bytes) == bytes,
        forall|k: nat|
            k <= 10 && 0x20_0000_0000_0000 * #[trigger] vstd::arithmetic::power2::pow2(k) <= bytes < 0x40_0000_0000_0000
                * vstd::arithmetic::power2::pow2(k) ==> {
                let q = rounded_quotient(bytes, 2 * vstd::arithmetic::power2::pow2(k)) as int;
                &&& nearest_double(bytes) == q * (2 * vstd::arithmetic::power2::pow2(k))
                &&& -(vstd::arithmetic::power2::pow2(k) as int) <= q * (2 * vstd::arithmetic::power2::pow2(k)) - bytes <= vstd::arithmetic::power2::pow2(k)
            },
{
    lemma_nearest_double(bytes);
    assert forall|k: nat|
        k <= 10 && 0x20_0000_0000_0000 * #[trigger] vstd::arithmetic::power2::pow2(k) <= bytes < 0x40_0000_0000_0000
            * vstd::arithmetic::power2::pow2(k) implies {
        let q = rounded_quotient(bytes, 2 * vstd::arithmetic::power2::pow2(k)) as int;
        &&& nearest_double(bytes) == q * (2 * vstd::arithmetic::power2::pow2(k))
        &&& -(vstd::arithmetic::power2::pow2(k) as int) <= q * (2 * vstd::arithmetic::power2::pow2(k)) - bytes <= vstd::arithmetic::power2::pow2(k)
    } by {
        lemma_spacing_is(bytes, k);
        vstd::arithmetic::power2::lemma_pow2_pos(k);
        law_rounding_is_to_the_nearest(bytes, 2 * vstd::arithmetic::power2::pow2(k));
    }
}

proof fn lemma_spacing_is(n: nat, k: nat)
    requires
        0x20_0000_0000_0000 * vstd::arithmetic::power2::pow2(k) <= n < 0x40_0000_0000_0000 * vstd::arithmetic::power2::pow2(k),
    ensures
        spacing(n) == 2 * vstd::arithmetic::power2::pow2(k),
    decreases k,
{
    if k == 0 {
        vstd::arithmetic::power2::lemma2_to64();
        assert(spacing(n / 2) == 1);
    } else {
        vstd::arithmetic::power2::lemma_pow2_unfold(k);
        vstd::arithmetic::power2::lemma_pow2_pos(k);
        lemma_spacing_is(n / 2, (k - 1) as nat);
    }
}

/// A byte count is shown in hundredths of its unit: in bytes below 1024, in kilobytes below the
/// square of that, and so on up to exabytes. The hundredths are the nearest ones, and of two that
/// are equally near the even ones.
pub proof fn law_units_of_byte_counts(bytes: nat)
    requires
        bytes <= u64::MAX,
    ensures
        ({
            let v = nearest_double(bytes);
            let h = hundredths(bytes);
            let (unit, name) = if v < 1024 {
                (1nat, " B"@)
            } else if v < 1048576 {
                (1024nat, " KB"@)
            } else if v < 1073741824 {
                (1048576nat, " MB"@)
            } else if v < 1099511627776 {
                (1073741824nat, " GB"@)
            } else if v < 1125899906842624 {
                (1099511627776nat, " TB"@)
            } else if v < 1152921504606846976 {
                (1125899906842624nat, " PB"@)
            } else {
                (1152921504606846976nat, " EB"@)
            };
            let off = 2 * (h * unit - 100 * v);
            &&& -(unit as int) <= off <= unit
            &&& off == unit || off == -unit ==> h % 2 == 0
            &&& size_text(bytes) == decimal_text(h / 100) + seq![
                '.',
                digit_char(h / 10 % 10),
                digit_char(h % 10),
            ] + name
        }),
{
    let v = nearest_double(bytes);
    let h = hundredths(bytes);
    reveal_with_fuel(unit_index, 8);
    reveal_with_fuel(unit_bytes, 8);
    lemma_nearest_double(bytes);
    lemma_few_units(v);
    let u = unit_bytes(unit_index(v));
    lemma_unit(v);
    law_rounding_is_to_the_nearest(v * 100, u);
    reveal_strlit(".");
    reveal_strlit(" ");
    reveal_strlit("B");
    reveal_strlit("KB");
    reveal_strlit("MB");
    reveal_strlit("GB");
    reveal_strlit("TB");
    reveal_strlit("PB");
    reveal_strlit("EB");
    reveal_strlit(" B");
    reveal_strlit(" KB");
    reveal_strlit(" MB");
    reveal_strlit(" GB");
    reveal_strlit(" TB");
    reveal_strlit(" PB");
    reveal_strlit(" EB");
    let head = decimal_text(h / 100);
    let tail = "."@ + seq![digit_char(h / 10 % 10), digit_char(h % 10)] + " "@ + unit_name(
        unit_index(v),
    );
    assert(size_text(bytes) =~= head + tail);
    let name = if v < 1024 {
        " B"@
    } else if v < 1048576 {
        " KB"@
    } else if v < 1073741824 {
        " MB"@
    } else if v < 1099511627776 {
        " GB"@
    } else if v < 1125899906842624 {
        " TB"@
    } else if v < 1152921504606846976 {
        " PB"@
    } else {
        " EB"@
    };
    assert(tail =~= seq!['.', digit_char(h / 10 % 10), digit_char(h % 10)] + name);
    assert(size_text(bytes) =~= head + seq!['.', digit_char(h / 10 % 10), digit_char(h % 10)]
        + name);
}

/// Counts below 1024 are shown exactly.
pub proof fn law_small_counts_are_exact(bytes: nat)
    requires
        bytes < 1024,
    ensures
        size_text(bytes) == decimal_text(bytes) + ".00 B"@,
{
    lemma_nearest_double(bytes);
    assert(hundredths(bytes) == bytes * 100);
    reveal_strlit(".00 B");
    reveal_strlit(".");
    reveal_strlit(" ");
    reveal_strlit("B");
    assert("."@ + seq![digit_char(0), digit_char(0)] + " "@ + "B"@ =~= ".00 B"@);
    assert(size_text(bytes) =~= decimal_text(bytes) + ("."@ + seq![digit_char(0), digit_char(0)]
        + " "@ + "B"@));
}

/// Divides with rounding.
fn round_quotient(n: u128, d: u128) -> (r: u128)
    requires
        1 <= d < 0x1_0000_0000_0000_0000,
        n < 0x1_0000_0000_0000_0000_0000,
    ensures
        r == rounded_quotient(n as nat, d as nat),
{
    let q: u128 = n / d;
    let r: u128 = n % d;
    assert(q <= n) by (nonlinear_arith)
        requires
            d >= 1,
            q == n / d,
    ;
    if 2 * r > d || (2 * r == d && q % 2 == 1) {
        q + 1
    } else {
        q
    }
}

/// Writes a byte count for people to read.
pub fn human_readable_bytes(bytes: u64) -> (r: String)
    ensures
        r@ == size_text(bytes as nat),
{
    let n: u128 = bytes as u128;
    let mut apart: u128 = 1;
    let mut rest: u128 = n;
    proof {
        lemma_spacing(bytes as nat);
    }
    while rest >= 0x20_0000_0000_0000
        invariant
            1 <= apart,
            rest <= u64::MAX,
            apart * spacing(rest as nat) == spacing(bytes as nat),
            spacing(bytes as nat) <= 2048,
            spacing(rest as nat) >= 1,
        decreases rest,
    {
        proof {
            lemma_spacing((rest / 2) as nat);
            let a = apart as int;
            let s = spacing((rest / 2) as nat) as int;
            assert(spacing(rest as nat) == 2 * s);
            assert((2 * a) * s == a * (2 * s)) by (nonlinear_arith);
            assert(2 * a <= 2048) by (nonlinear_arith)
                requires
                    a >= 1,
                    s >= 1,
                    (2 * a) * s <= 2048,
            ;
        }
        apart = apart * 2;
        rest = rest / 2;
    }
    assert(apart == spacing(bytes as nat)) by (nonlinear_arith)
        requires
            apart * spacing(rest as nat) == spacing(bytes as nat),
            spacing(rest as nat) == 1,
    ;
    let steps: u128 = round_quotient(n, apart);
    proof {
        lemma_nearest_double(bytes as nat);
    }
    assert(steps * apart == nearest_double(bytes as nat));
    let v: u128 = steps * apart;
    let mut unit: u128 = 1;
    let mut index: u8 = 0;
    let mut left: u128 = v;
    proof {
        lemma_few_units(v as nat);
    }
    while left >= 1024
        invariant
            index + unit_index(left as nat) == unit_index(v as nat),
            unit_index(v as nat) <= 6,
            unit == unit_bytes(index as nat),
        decreases left,
    {
        proof {
            lemma_small_unit((index + 1) as nat);
        }
        unit = unit * 1024;
        left = left / 1024;
        index += 1;
    }
    proof {
        lemma_small_unit(index as nat);
        law_size_fits_its_unit(bytes as nat);
    }
    let h: u64 = round_quotient(v * 100, unit) as u64;
    let tenth: u8 = (h / 10 % 10) as u8;
    let last: u8 = (h % 10) as u8;
    let mut fraction = String::new();
    fraction.push((48 + tenth) as char);
    fraction.push((48 + last) as char);
    assert(fraction@ =~= seq![digit_char((h / 10 % 10) as nat), digit_char((h % 10) as nat)]);
    let name = if index == 0 {
        "B"
    } else if index == 1 {
        "KB"
    } else if index == 2 {
        "MB"
    } else if index == 3 {
        "GB"
    } else if index == 4 {
        "TB"
    } else if index == 5 {
        "PB"
    } else {
        "EB"
    };
    decimal(h / 100).concat(".").concat(fraction.as_str()).concat(" ").concat(name)
}

} // verus!
