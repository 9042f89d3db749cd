//! Sizes in bytes, shown to people in binary units with one decimal.

use vstd::prelude::*;
use crate::text::{lemma_decimal_digits, push_decimal};
use crate::width::is_plain;

verus! {

/// `n / d` rounded to the nearest integer, a tie going to the even one.
pub open spec fn round_half_even(n: nat, d: nat) -> nat {
    let q = n / d;
    let r = n % d;
    if 2 * r < d || (2 * r == d && q % 2 == 0) {
        q
    } else {
        q + 1
    }
}

/// The distance between neighbouring double-precision numbers at `n`: 1 up to
/// 53 significant bits, then doubling with every further bit.
pub open spec fn spacing(n: nat) -> nat
    decreases n,
{
    if n < 0x20_0000_0000_0000 {
        1
    } else {
        2 * spacing(n / 2)
    }
}

/// `n` rounded to double precision, ties to even.
pub open spec fn to_double(n: nat) -> nat {
    round_half_even(n, spacing(n)) * spacing(n)
}

/// A size in tenths of a unit of `unit` bytes. The size is taken at double
/// precision first, which matters above 2^53 bytes only.
pub open spec fn tenths_of(bytes: nat, unit: nat) -> nat {
    round_half_even(10 * to_double(bytes), unit)
}

/// A number of tenths, written with one decimal and a unit's label.
pub open spec fn with_one_decimal(tenths: nat, label: Seq<char>) -> Seq<char> {
    crate::text::decimal(tenths / 10).push('.') + crate::text::decimal(tenths % 10) + label
}

/// The unit that a size is shown in, in bytes: the largest of KiB, MiB, GiB, TiB
/// and PiB that the size reaches, else the byte.
pub open spec fn size_unit(bytes: nat) -> nat {
    if bytes < 0x400 {
        1
    } else if bytes < 0x10_0000 {
        0x400
    } else if bytes < 0x4000_0000 {
        0x10_0000
    } else if bytes < 0x100_0000_0000 {
        0x4000_0000
    } else if bytes < 0x4_0000_0000_0000 {
        0x100_0000_0000
    } else {
        0x4_0000_0000_0000
    }
}

/// What stands behind a number of such units.
pub open spec fn unit_label(unit: nat) -> Seq<char> {
    if unit == 1 {
        " B"@
    } else if unit == 0x400 {
        " KiB"@
    } else if unit == 0x10_0000 {
        " MiB"@
    } else if unit == 0x4000_0000 {
        " GiB"@
    } else if unit == 0x100_0000_0000 {
        " TiB"@
    } else {
        " PiB"@
    }
}

/// The text of a size: whole bytes below 1024, then the unit with one decimal.
pub open spec fn human_size_text(bytes: nat) -> Seq<char> {
    let unit = size_unit(bytes);
    if unit == 1 {
        crate::text::decimal(bytes) + unit_label(unit)
    } else {
        with_one_decimal(tenths_of(bytes, unit), unit_label(unit))
    }
}

/// Ten times the number of bytes that the text of a size stands for: the number
/// in it times the unit behind it.
pub open spec fn ten_times_shown(bytes: nat) -> nat {
    let unit = size_unit(bytes);
    if unit == 1 {
        10 * bytes
    } else {
        tenths_of(bytes, unit) * unit
    }
}

/// The spacing is at least 1, and at most the number itself beyond 53 bits.
proof fn lemma_spacing_bounds(n: nat)
    ensures
        1 <= spacing(n),
        n >= 0x20_0000_0000_0000 ==> spacing(n) <= n,
    decreases n,
{
    if n >= 0x20_0000_0000_0000 {
        lemma_spacing_bounds(n / 2);
    }
}

/// Rounding to a multiple moves a number by at most half the divisor.
proof fn lemma_round_close(n: nat, d: nat)
    requires
        d > 0,
    ensures
        round_half_even(n, d) * d <= n + d,
        round_half_even(n, d) <= n / d + 1,
{
    let q = n / d;
    let r = n % d;
    assert(q * d + r == n) by (nonlinear_arith)
        requires
            q == n / d,
            r == n % d,
            d > 0,
    ;
    assert((q + 1) * d == q * d + d) by (nonlinear_arith);
}

fn round_quotient(n: u128, d: u128) -> (q: u128)
    requires
        0 < d <= 0x1_0000_0000_0000_0000,
        n <= 0x20_0000_0000_0000_0000,
    ensures
        q == round_half_even(n as nat, d as nat),
{
    let q: u128 = n / d;
    let r: u128 = n % d;
    assert(q <= n) by (nonlinear_arith)
        requires
            q == n / d,
            d > 0,
    ;
    if 2 * r < d || (2 * r == d && q % 2 == 0) {
        q
    } else {
        q + 1
    }
}

fn double_spacing(n: u64) -> (s: u64)
    ensures
        s == spacing(n as nat),
    decreases n,
{
    proof {
        lemma_spacing_bounds(n as nat);
    }
    if n < 0x20_0000_0000_0000 {
        1
    } else {
        2 * double_spacing(n / 2)
    }
}

/// The size in tenths of `unit`.
fn size_tenths(bytes: u64, unit: u64) -> (tenths: u64)
    requires
        0x400 <= unit,
    ensures
        tenths == tenths_of(bytes as nat, unit as nat),
{
    let step: u128 = double_spacing(bytes) as u128;
    proof {
        lemma_spacing_bounds(bytes as nat);
        lemma_round_close(bytes as nat, step as nat);
        assert(bytes < 0x20_0000_0000_0000 ==> step == 1);
        assert(step <= bytes || step == 1);
    }
    let steps: u128 = round_quotient(bytes as u128, step);
    let double: u128 = steps * step;
    let tenths: u128 = round_quotient(10 * double, unit as u128);
    proof {
        lemma_round_close((10 * double) as nat, unit as nat);
        let total = (10 * double) as int;
        assert(total / (unit as int) <= total / 0x400) by (nonlinear_arith)
            requires
                unit >= 0x400,
                total >= 0,
        ;
    }
    tenths as u64
}

fn one_decimal_text(tenths: u64, label: &str) -> (s: String)
    ensures
        s@ == with_one_decimal(tenths as nat, label@),
{
    let mut s = String::new();
    push_decimal(&mut s, tenths / 10);
    s.push('.');
    push_decimal(&mut s, tenths % 10);
    s.append(label);
    s
}

/// A size in bytes for people: `512 B`, `1.5 KiB`, `1.0 GiB`.
pub fn human_size(bytes: u64) -> (s: String)
    ensures
        s@ == human_size_text(bytes as nat),
{
    if bytes < 0x400 {
        let mut s = String::new();
        push_decimal(&mut s, bytes);
        s.append(" B");
        s
    } else if bytes < 0x10_0000 {
        one_decimal_text(size_tenths(bytes, 0x400), " KiB")
    } else if bytes < 0x4000_0000 {
        one_decimal_text(size_tenths(bytes, 0x10_0000), " MiB")
    } else if bytes < 0x100_0000_0000 {
        one_decimal_text(size_tenths(bytes, 0x4000_0000), " GiB")
    } else if bytes < 0x4_0000_0000_0000 {
        one_decimal_text(size_tenths(bytes, 0x100_0000_0000), " TiB")
    } else {
        one_decimal_text(size_tenths(bytes, 0x4_0000_0000_0000), " PiB")
    }
}

/// The text of a size in the short list: as above, with shorter labels and up
/// to GB only.
pub open spec fn short_size_text(bytes: nat) -> Seq<char> {
    if bytes < 0x400 {
        crate::text::decimal(bytes) + " B"@
    } else if bytes < 0x10_0000 {
        with_one_decimal(tenths_of(bytes, 0x400), " KB"@)
    } else if bytes < 0x4000_0000 {
        with_one_decimal(tenths_of(bytes, 0x10_0000), " MB"@)
    } else {
        with_one_decimal(tenths_of(bytes, 0x4000_0000), " GB"@)
    }
}

/// A size in bytes for the short list: `512 B`, `1.5 KB`, `2048.0 GB`.
pub fn short_size(bytes: u64) -> (s: String)
    ensures
        s@ == short_size_text(bytes as nat),
{
    if bytes < 0x400 {
        let mut s = String::new();
        push_decimal(&mut s, bytes);
        s.append(" B");
        s
    } else if bytes < 0x10_0000 {
        one_decimal_text(size_tenths(bytes, 0x400), " KB")
    } else if bytes < 0x4000_0000 {
        one_decimal_text(size_tenths(bytes, 0x10_0000), " MB")
    } else {
        one_decimal_text(size_tenths(bytes, 0x4000_0000), " GB")
    }
}

// ---- laws ----

/// Below 2^53 bytes the number shown is the nearest tenth of the unit.
pub proof fn law_size_is_nearest_tenth(bytes: nat, unit: nat)
    requires
        bytes < 0x20_0000_0000_0000,
        unit > 0,
    ensures
        2 * (tenths_of(bytes, unit) * unit - 10 * bytes) <= unit,
        2 * (10 * bytes - tenths_of(bytes, unit) * unit) <= unit,
{
    assert(round_half_even(bytes, 1) == bytes);
    assert(to_double(bytes) == bytes) by (nonlinear_arith)
        requires
            to_double(bytes) == round_half_even(bytes, spacing(bytes)) * spacing(bytes),
            spacing(bytes) == 1,
            round_half_even(bytes, 1) == bytes,
    ;
    let n = 10 * bytes;
    let q = n / unit;
    let r = n % unit;
    assert(q * unit + r == n && r < unit) by (nonlinear_arith)
        requires
            q == n / unit,
            r == n % unit,
            unit > 0,
    ;
    assert((q + 1) * unit == q * unit + unit) by (nonlinear_arith);
}

proof fn lemma_round_rises(n: nat, m: nat, d: nat)
    requires
        n <= m,
        d > 0,
    ensures
        round_half_even(n, d) <= round_half_even(m, d),
{
    let (p, q) = (n / d, m / d);
    assert(p <= q && (p == q ==> n % d <= m % d)) by (nonlinear_arith)
        requires
            n <= m,
            d > 0,
            p == n / d,
            q == m / d,
    ;
}

proof fn lemma_round_of_multiple(k: nat, d: nat)
    requires
        d > 0,
    ensures
        round_half_even(k * d, d) == k,
{
    assert((k * d) / d == k && (k * d) % d == 0) by (nonlinear_arith)
        requires
            d > 0,
    ;
}

proof fn lemma_spacing_rises(n: nat, m: nat)
    requires
        n <= m,
    ensures
        spacing(n) == spacing(m) || 2 * spacing(n) <= spacing(m),
    decreases m,
{
    if m >= 0x20_0000_0000_0000 {
        lemma_spacing_bounds(m / 2);
        if n >= 0x20_0000_0000_0000 {
            lemma_spacing_rises(n / 2, m / 2);
        }
    }
}

/// A number takes fewer than 2^53 steps of its spacing, and beyond 53 bits at
/// least half as many.
proof fn lemma_spacing_range(n: nat)
    ensures
        n < 0x20_0000_0000_0000 * spacing(n),
        spacing(n) > 1 ==> 0x10_0000_0000_0000 * spacing(n) <= n,
    decreases n,
{
    if n >= 0x20_0000_0000_0000 {
        lemma_spacing_range(n / 2);
        lemma_spacing_bounds(n / 2);
    }
}

proof fn lemma_double_rises(n: nat, m: nat)
    requires
        n <= m,
    ensures
        to_double(n) <= to_double(m),
{
    let (s, t) = (spacing(n), spacing(m));
    lemma_spacing_bounds(n);
    lemma_spacing_bounds(m);
    lemma_spacing_rises(n, m);
    if s == t {
        lemma_round_rises(n, m, s);
        let (a, b) = (round_half_even(n, s), round_half_even(m, s));
        assert(a * s <= b * s) by (nonlinear_arith)
            requires
                a <= b,
        ;
    } else {
        lemma_spacing_range(n);
        lemma_spacing_range(m);
        let top: nat = 0x20_0000_0000_0000;
        let half: nat = 0x10_0000_0000_0000;
        lemma_round_of_multiple(top, s);
        lemma_round_of_multiple(half, t);
        lemma_round_rises(n, top * s, s);
        lemma_round_rises(half * t, m, t);
        let (a, b) = (round_half_even(n, s), round_half_even(m, t));
        assert(a * s <= top * s) by (nonlinear_arith)
            requires
                a <= top,
        ;
        assert(half * t <= b * t) by (nonlinear_arith)
            requires
                half <= b,
        ;
    }
}

proof fn lemma_tenths_rise(n: nat, m: nat, unit: nat)
    requires
        n <= m,
        unit > 0,
    ensures
        tenths_of(n, unit) <= tenths_of(m, unit),
        tenths_of(n, unit) * unit <= tenths_of(m, unit) * unit,
{
    lemma_double_rises(n, m);
    lemma_round_rises(10 * to_double(n), 10 * to_double(m), unit);
    let (a, b) = (tenths_of(n, unit), tenths_of(m, unit));
    assert(a * unit <= b * unit) by (nonlinear_arith)
        requires
            a <= b,
    ;
}

/// `k` units, below 2^53 bytes, are `10 * k` tenths.
proof fn lemma_tenths_of_multiple(k: nat, unit: nat)
    requires
        unit > 0,
        k * unit < 0x20_0000_0000_0000,
    ensures
        tenths_of(k * unit, unit) == 10 * k,
{
    let n = k * unit;
    assert(spacing(n) == 1);
    lemma_round_of_multiple(n, 1);
    assert(round_half_even(n, 1) == n) by {
        assert(n * 1 == n);
    }
    assert(to_double(n) == n) by (nonlinear_arith)
        requires
            to_double(n) == round_half_even(n, spacing(n)) * spacing(n),
            spacing(n) == 1,
            round_half_even(n, 1) == n,
    ;
    lemma_round_of_multiple(10 * k, unit);
    assert(10 * n == (10 * k) * unit) by (nonlinear_arith)
        requires
            n == k * unit,
    ;
}

/// What is shown of a size lies between the unit it is shown in and the next
/// one.
proof fn lemma_shown_within_unit(bytes: nat)
    ensures
        size_unit(bytes) > 1 ==> 10 * size_unit(bytes) <= ten_times_shown(bytes),
        size_unit(bytes) < 0x4_0000_0000_0000 ==> ten_times_shown(bytes) <= 10 * (0x400
            * size_unit(bytes)),
{
    let unit = size_unit(bytes);
    if unit > 1 {
        lemma_tenths_of_multiple(1, unit);
        lemma_tenths_rise(unit, bytes, unit);
        if unit < 0x4_0000_0000_0000 {
            lemma_tenths_of_multiple(0x400, unit);
            lemma_tenths_rise(bytes, 0x400 * unit, unit);
        }
    }
}

/// A larger file never shows as a smaller size, also across a change of unit.
pub proof fn law_larger_sizes_show_no_smaller(a: nat, b: nat)
    requires
        a <= b,
    ensures
        ten_times_shown(a) <= ten_times_shown(b),
{
    if size_unit(a) == size_unit(b) {
        if size_unit(a) > 1 {
            lemma_tenths_rise(a, b, size_unit(a));
        }
    } else {
        lemma_shown_within_unit(a);
        lemma_shown_within_unit(b);
    }
}

proof fn lemma_plain_append(a: Seq<char>, b: Seq<char>)
    requires
        is_plain(a),
        is_plain(b),
    ensures
        is_plain(a + b),
{
    assert forall|i: int| 0 <= i < (a + b).len() implies ' ' <= #[trigger] (a + b)[i] <= '~' by {
        if i < a.len() {
            assert((a + b)[i] == a[i]);
        } else {
            assert((a + b)[i] == b[i - a.len()]);
        }
    }
}

proof fn lemma_one_decimal_plain(tenths: nat, label: Seq<char>)
    requires
        is_plain(label),
        label.len() > 0,
    ensures
        is_plain(with_one_decimal(tenths, label)),
        with_one_decimal(tenths, label).last() == label.last(),
{
    let whole = crate::text::decimal(tenths / 10);
    let part = crate::text::decimal(tenths % 10);
    lemma_decimal_digits(tenths / 10);
    lemma_decimal_digits(tenths % 10);
    assert(whole.push('.') =~= whole + seq!['.']);
    lemma_plain_append(whole, seq!['.']);
    lemma_plain_append(whole.push('.'), part);
    lemma_plain_append(whole.push('.') + part, label);
}

/// The text of a size is printable ASCII and ends in `B`.
pub proof fn law_size_text_is_plain(bytes: nat)
    ensures
        is_plain(human_size_text(bytes)),
        human_size_text(bytes).len() > 0,
        human_size_text(bytes).last() == 'B',
{
    reveal_strlit(" B");
    reveal_strlit(" KiB");
    reveal_strlit(" MiB");
    reveal_strlit(" GiB");
    reveal_strlit(" TiB");
    reveal_strlit(" PiB");
    if bytes < 0x400 {
        lemma_decimal_digits(bytes);
        lemma_plain_append(crate::text::decimal(bytes), " B"@);
    } else if bytes < 0x10_0000 {
        lemma_one_decimal_plain(tenths_of(bytes, 0x400), " KiB"@);
    } else if bytes < 0x4000_0000 {
        lemma_one_decimal_plain(tenths_of(bytes, 0x10_0000), " MiB"@);
    } else if bytes < 0x100_0000_0000 {
        lemma_one_decimal_plain(tenths_of(bytes, 0x4000_0000), " GiB"@);
    } else if bytes < 0x4_0000_0000_0000 {
        lemma_one_decimal_plain(tenths_of(bytes, 0x100_0000_0000), " TiB"@);
    } else {
        lemma_one_decimal_plain(tenths_of(bytes, 0x4_0000_0000_0000), " PiB"@);
    }
}

/// `whole.part` of a unit of `unit` bytes, with `label` behind it, is how the
/// size is shown, to the nearest tenth.
pub open spec fn reads_as(
    text: Seq<char>,
    bytes: nat,
    unit: nat,
    label: Seq<char>,
    whole: nat,
    part: nat,
) -> bool {
    &&& part < 10
    &&& text == crate::text::decimal(whole) + seq!['.', crate::text::digit_char(part)] + label
    &&& 2 * ((10 * whole + part) * unit - 10 * bytes) <= unit
    &&& 2 * (10 * bytes - (10 * whole + part) * unit) <= unit
}

proof fn lemma_reads_as(bytes: nat, unit: nat, label: Seq<char>)
    requires
        bytes < 0x20_0000_0000_0000,
        unit > 0,
    ensures
        reads_as(
            with_one_decimal(tenths_of(bytes, unit), label),
            bytes,
            unit,
            label,
            tenths_of(bytes, unit) / 10,
            tenths_of(bytes, unit) % 10,
        ),
{
    law_size_is_nearest_tenth(bytes, unit);
    let t = tenths_of(bytes, unit);
    assert(10 * (t / 10) + t % 10 == t);
    assert(with_one_decimal(t, label) =~= crate::text::decimal(t / 10) + seq![
        '.',
        crate::text::digit_char(t % 10),
    ] + label);
}

/// How a size reads: whole bytes below 1024; then, up to 2^53 bytes, a number
/// with one decimal that is the nearest tenth of the largest of KiB, MiB, GiB,
/// TiB and PiB that the size reaches.
pub proof fn law_how_sizes_read(bytes: nat) -> (r: (nat, nat))
    requires
        bytes < 0x20_0000_0000_0000,
    ensures
        bytes < 1024 ==> human_size_text(bytes) == crate::text::decimal(bytes) + " B"@,
        1024 <= bytes < 1048576 ==> reads_as(
            human_size_text(bytes),
            bytes,
            1024,
            " KiB"@,
            r.0,
            r.1,
        ),
        1048576 <= bytes < 1073741824 ==> reads_as(
            human_size_text(bytes),
            bytes,
            1048576,
            " MiB"@,
            r.0,
            r.1,
        ),
        1073741824 <= bytes < 1099511627776 ==> reads_as(
            human_size_text(bytes),
            bytes,
            1073741824,
            " GiB"@,
            r.0,
            r.1,
        ),
        1099511627776 <= bytes < 1125899906842624 ==> reads_as(
            human_size_text(bytes),
            bytes,
            1099511627776,
            " TiB"@,
            r.0,
            r.1,
        ),
        1125899906842624 <= bytes ==> reads_as(
            human_size_text(bytes),
            bytes,
            1125899906842624,
            " PiB"@,
            r.0,
            r.1,
        ),
{
    let unit = size_unit(bytes);
    lemma_reads_as(bytes, unit, unit_label(unit));
    (tenths_of(bytes, unit) / 10, tenths_of(bytes, unit) % 10)
}

/// The same of the short list, where GB is the largest unit.
pub proof fn law_how_short_sizes_read(bytes: nat) -> (r: (nat, nat))
    requires
        bytes < 0x20_0000_0000_0000,
    ensures
        bytes < 1024 ==> short_size_text(bytes) == crate::text::decimal(bytes) + " B"@,
        1024 <= bytes < 1048576 ==> reads_as(
            short_size_text(bytes),
            bytes,
            1024,
            " KB"@,
            r.0,
            r.1,
        ),
        1048576 <= bytes < 1073741824 ==> reads_as(
            short_size_text(bytes),
            bytes,
            1048576,
            " MB"@,
            r.0,
            r.1,
        ),
        1073741824 <= bytes ==> reads_as(
            short_size_text(bytes),
            bytes,
            1073741824,
            " GB"@,
            r.0,
            r.1,
        ),
{
    let (unit, label): (nat, Seq<char>) = if bytes < 1048576 {
        (1024, " KB"@)
    } else if bytes < 1073741824 {
        (1048576, " MB"@)
    } else {
        (1073741824, " GB"@)
    };
    lemma_reads_as(bytes, unit, label);
    (tenths_of(bytes, unit) / 10, tenths_of(bytes, unit) % 10)
}

/// A size is taken as the nearest number of double precision: exact up to 2^53,
/// off by at most one part in 2^53 beyond.
pub proof fn law_double_precision(n: nat)
    ensures
        n <= 0x20_0000_0000_0000 ==> to_double(n) == n,
        0x20_0000_0000_0000 * (to_double(n) - n) <= n,
        0x20_0000_0000_0000 * (n - to_double(n)) <= n,
{
    let s = spacing(n);
    lemma_spacing_bounds(n);
    lemma_spacing_range(n);
    let q = n / s;
    let r = n % s;
    assert(q * s + r == n && r < s) by (nonlinear_arith)
        requires
            q == n / s,
            r == n % s,
            s > 0,
    ;
    assert((q + 1) * s == q * s + s) by (nonlinear_arith);
    assert(2 * (to_double(n) - n) <= s && 2 * (n - to_double(n)) <= s);
    if s == 1 {
        assert(to_double(n) == n);
    }
    if n == 0x20_0000_0000_0000 {
        assert(spacing(n) == 2) by {
            reveal_with_fuel(spacing, 3);
        }
        lemma_round_of_multiple(0x10_0000_0000_0000, 2);
    }
}

/// Beyond 2^53 bytes, too, the number shown is the nearest tenth, of the size at
/// double precision.
pub proof fn law_large_sizes(bytes: nat, unit: nat)
    requires
        unit > 0,
    ensures
        2 * (tenths_of(bytes, unit) * unit - 10 * to_double(bytes)) <= unit,
        2 * (10 * to_double(bytes) - tenths_of(bytes, unit) * unit) <= unit,
{
    let n = 10 * to_double(bytes);
    let q = n / unit;
    let r = n % unit;
    assert(q * unit + r == n && r < unit) by (nonlinear_arith)
        requires
            q == n / unit,
            r == n % unit,
            unit > 0,
    ;
    assert((q + 1) * unit == q * unit + unit) by (nonlinear_arith);
}

/// A size halfway between two tenths is shown as the even one.
pub proof fn law_ties_go_to_the_even_tenth(bytes: nat, unit: nat, k: nat)
    requires
        unit > 0,
        20 * to_double(bytes) == (2 * k + 1) * unit,
    ensures
        tenths_of(bytes, unit) % 2 == 0,
        tenths_of(bytes, unit) == k || tenths_of(bytes, unit) == k + 1,
{
    let n = 10 * to_double(bytes);
    assert(n / unit == k && 2 * (n % unit) == unit) by (nonlinear_arith)
        requires
            unit > 0,
            2 * n == (2 * k + 1) * unit,
    {
        assert(2 * (n - k * unit) == unit);
        assert(n == k * unit + (n - k * unit));
        assert(0 <= n - k * unit < unit);
        vstd::arithmetic::div_mod::lemma_fundamental_div_mod_converse(
            n as int,
            unit as int,
            k as int,
            n - k * unit,
        );
    }
}

} // verus!
