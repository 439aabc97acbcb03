use vstd::prelude::*;

use crate::data::Color;
use vstd::arithmetic::div_mod::lemma_fundamental_div_mod_converse;
use vstd::relations::injective_on;
use vstd::set::{axiom_set_insert_finite, axiom_set_insert_len};
use vstd::set_lib::{lemma_int_range, lemma_map_size, set_int_range};

verus! {

/// `2^e`.
pub open spec fn two_pow(e: nat) -> nat
    decreases e,
{
    if e == 0 {
        1
    } else {
        2 * two_pow((e - 1) as nat)
    }
}

/// Distance between two neighbouring levels of a channel quantised with
/// `bits` bits of precision: `2^(8 - bits)`, so that the levels are the
/// `2^bits` multiples of the step below 256, plus 255.
pub open spec fn flatten_step(bits: u8) -> nat {
    two_pow((8 - bits) as nat)
}

/// A channel value rounded (half away from zero) to the nearest multiple of
/// the quantisation step, saturated at 255.
pub open spec fn spec_flatten_int(number: u8, bits: u8) -> u8 {
    let step = flatten_step(bits) as int;
    let rounded = ((number as int + step / 2) / step) * step;
    if rounded > 255 {
        255u8
    } else {
        rounded as u8
    }
}

/// Column and row of the `index`-th pixel of a row-major image `width`
/// pixels wide.
pub open spec fn spec_position(index: int, width: int) -> (usize, usize) {
    ((index % width) as usize, (index / width) as usize)
}

/// The colour with each channel quantised to `bits` bits.
pub open spec fn spec_flatten_color(color: Seq<u8>, bits: u8) -> Color {
    Color {
        r: spec_flatten_int(color[0], bits),
        g: spec_flatten_int(color[1], bits),
        b: spec_flatten_int(color[2], bits),
    }
}

proof fn lemma_two_pow_monotone(e: nat, n: nat)
    requires
        e <= n,
    ensures
        1 <= two_pow(e) <= two_pow(n),
    decreases n,
{
    if n > e {
        lemma_two_pow_monotone(e, (n - 1) as nat);
    } else if e > 0 {
        lemma_two_pow_monotone((e - 1) as nat, (e - 1) as nat);
    }
}

proof fn lemma_two_pow_bounds(e: nat)
    requires
        e <= 8,
    ensures
        1 <= two_pow(e) <= 256,
{
    lemma_two_pow_monotone(e, 8);
    assert(two_pow(8) == 256) by {
        reveal_with_fuel(two_pow, 9);
    }
}

proof fn lemma_round_to_step(n: int, s: int)
    requires
        s >= 1,
    ensures
        ((n + s / 2) / s) * s <= n + s / 2,
        n - ((n + s / 2) / s) * s <= s / 2,
        ((((n + s / 2) / s) * s + s / 2) / s) == (n + s / 2) / s,
{
    let q = (n + s / 2) / s;
    let r = (n + s / 2) % s;
    assert(n + s / 2 == q * s + r && 0 <= r < s) by (nonlinear_arith)
        requires
            q == (n + s / 2) / s,
            r == (n + s / 2) % s,
            s >= 1,
    ;
    assert((q * s + s / 2) / s == q) by (nonlinear_arith)
        requires
            s >= 1,
            0 <= s / 2 < s,
    ;
}

/// Quantising a channel moves it by at most half a step, lands on a
/// multiple of the step unless it saturates at 255, and quantising again
/// changes nothing.
pub proof fn lemma_flatten_int_properties(number: u8, bits: u8)
    requires
        bits <= 8,
    ensures
        spec_flatten_int(number, bits) - number <= flatten_step(bits) / 2,
        number - spec_flatten_int(number, bits) <= flatten_step(bits) / 2,
        spec_flatten_int(number, bits) == 255 || spec_flatten_int(number, bits) as int % flatten_step(
            bits,
        ) as int == 0,
        spec_flatten_int(spec_flatten_int(number, bits), bits) == spec_flatten_int(number, bits),
{
    let s = flatten_step(bits) as int;
    lemma_two_pow_bounds((8 - bits) as nat);
    let n = number as int;
    let q = (n + s / 2) / s;
    lemma_round_to_step(n, s);
    assert((q * s) % s == 0) by (nonlinear_arith)
        requires
            s >= 1,
    ;
    let v = spec_flatten_int(number, bits) as int;
    if q * s <= 255 {
        assert(v == q * s);
        lemma_round_to_step(v, s);
    } else {
        assert(v == 255);
        lemma_round_to_step(255, s);
        assert((255 + s / 2) / s >= q) by (nonlinear_arith)
            requires
                n <= 255,
                s >= 1,
                q == (n + s / 2) / s,
        ;
        assert(((255 + s / 2) / s) * s >= q * s) by (nonlinear_arith)
            requires
                (255 + s / 2) / s >= q,
                s >= 1,
        ;
    }
}

proof fn lemma_two_pow_add(a: nat, b: nat)
    ensures
        two_pow(a) * two_pow(b) == two_pow(a + b),
    decreases a,
{
    if a == 0 {
        assert(two_pow(0) == 1);
        assert(a + b == b);
    } else {
        let c: nat = (a - 1) as nat;
        lemma_two_pow_add(c, b);
        let x = two_pow(c);
        let y = two_pow(b);
        assert(two_pow(a) == 2 * x);
        assert(c + b + 1 == a + b);
        assert(two_pow(a + b) == 2 * two_pow(c + b));
        assert(two_pow(a) * y == 2 * (x * y)) by (nonlinear_arith)
            requires
                two_pow(a) == 2 * x,
        ;
    }
}

/// The levels of `bits`-bit quantisation are exactly the multiples of the
/// step below 256 and 255: there are `2^bits` multiples (the step times
/// `2^bits` is 256), each level is kept as it is, every value lands on a
/// level, and 8 bits keep every value.
pub proof fn lemma_flatten_levels(bits: u8, value: u8)
    requires
        bits <= 8,
    ensures
        flatten_step(bits) * two_pow(bits as nat) == 256,
        (value == 255 || value as int % flatten_step(bits) as int == 0) ==> spec_flatten_int(
            value,
            bits,
        ) == value,
        spec_flatten_int(value, bits) == 255 || spec_flatten_int(value, bits) as int % flatten_step(
            bits,
        ) as int == 0,
        bits == 8 ==> spec_flatten_int(value, bits) == value,
{
    let s = flatten_step(bits) as int;
    let levels = two_pow(bits as nat) as int;
    lemma_two_pow_add((8 - bits) as nat, bits as nat);
    assert(((8 - bits) as nat + bits as nat) == 8);
    assert(two_pow(8) == 256) by {
        reveal_with_fuel(two_pow, 9);
    }
    lemma_two_pow_bounds((8 - bits) as nat);
    lemma_flatten_int_properties(value, bits);
    let v = value as int;
    if v % s == 0 {
        let m = v / s;
        assert(v == m * s && (m * s + s / 2) / s == m) by (nonlinear_arith)
            requires
                s >= 1,
                v % s == 0,
                m == v / s,
                0 <= s / 2 < s,
        ;
    } else if v == 255 {
        assert(s >= 2);
        assert(255 + s / 2 == levels * s + (s / 2 - 1));
        lemma_fundamental_div_mod_converse(255 + s / 2, s, levels, s / 2 - 1);
        assert((255 + s / 2) / s * s == 256) by (nonlinear_arith)
            requires
                (255 + s / 2) / s == levels,
                s * levels == 256,
        ;
    }
    if bits == 8 {
        assert(s == 1) by {
            reveal_with_fuel(two_pow, 1);
        }
    }
}

/// The distinct results of quantising every byte value with `bits` bits.
pub open spec fn flatten_levels(bits: u8) -> Set<int> {
    Set::new(|v: int| exists|n: u8| #[trigger] spec_flatten_int(n, bits) as int == v)
}

/// Quantising with `bits` bits gives exactly `2^bits + 1` distinct levels,
/// and 256 (every byte value) at 8 bits.
pub proof fn lemma_flatten_level_count(bits: u8)
    requires
        bits <= 8,
    ensures
        flatten_levels(bits).finite(),
        flatten_levels(bits).len() == if bits == 8 {
            256
        } else {
            two_pow(bits as nat) + 1
        },
{
    let s = flatten_step(bits) as int;
    let l = two_pow(bits as nat) as int;
    lemma_flatten_levels(bits, 0);
    lemma_two_pow_bounds((8 - bits) as nat);
    assert(s * l == 256);
    assert(l >= 1) by (nonlinear_arith)
        requires
            s * l == 256,
            s >= 1,
    ;
    let f = |k: int| k * s;
    let range = set_int_range(0, l);
    lemma_int_range(0, l);
    let m = range.map(f);
    assert(injective_on(f, range)) by {
        assert forall|a: int, b: int|
            range.contains(a) && range.contains(b) && #[trigger] f(a) == #[trigger] f(b) implies a == b by {
            assert(a * s == b * s ==> a == b) by (nonlinear_arith)
                requires
                    s >= 1,
            ;
        }
    }
    lemma_map_size(range, m, f);
    if bits == 8 {
        assert(s == 1) by {
            reveal_with_fuel(two_pow, 1);
        }
    } else {
        assert(s % 2 == 0) by {
            let e = (8 - bits) as nat;
            assert(two_pow(e) == 2 * two_pow((e - 1) as nat));
        }
    }
    let target = if bits == 8 {
        m
    } else {
        m.insert(255)
    };
    assert forall|v: int| flatten_levels(bits).contains(v) <==> target.contains(v) by {
        if flatten_levels(bits).contains(v) {
            let n = choose|n: u8| #[trigger] spec_flatten_int(n, bits) as int == v;
            lemma_flatten_levels(bits, n);
            if v % s == 0 {
                let k = v / s;
                assert(0 <= k < l && k * s == v) by (nonlinear_arith)
                    requires
                        0 <= v <= 255,
                        s >= 1,
                        v % s == 0,
                        k == v / s,
                        s * l == 256,
                ;
                assert(range.contains(k) && f(k) == v);
            } else {
                assert(v == 255);
                assert(bits != 8);
            }
        }
        if target.contains(v) {
            if bits != 8 && v == 255 {
                lemma_flatten_levels(bits, 255);
                assert(spec_flatten_int(255u8, bits) as int == v);
            } else {
                let k = choose|k: int| range.contains(k) && f(k) == v;
                assert(0 <= v <= 255 && v % s == 0) by (nonlinear_arith)
                    requires
                        0 <= k < l,
                        v == k * s,
                        s * l == 256,
                        s >= 1,
                ;
                let n = v as u8;
                lemma_flatten_levels(bits, n);
                assert(spec_flatten_int(n, bits) as int == v);
            }
        }
    }
    assert(flatten_levels(bits) =~= target);
    if bits != 8 {
        if m.contains(255) {
            let k = choose|k: int| range.contains(k) && f(k) == 255;
            assert(false) by (nonlinear_arith)
                requires
                    k * s == 255,
                    s % 2 == 0,
            ;
        }
        axiom_set_insert_finite(m, 255);
        axiom_set_insert_len(m, 255);
    } else {
        assert(l == 256) by (nonlinear_arith)
            requires
                s == 1,
                s * l == 256,
        ;
    }
}

/// Splits a row-major pixel index into its `(x, y)` position.
pub fn index_to_position(index: usize, width: usize) -> (pos: (usize, usize))
    requires
        width > 0,
    ensures
        pos == spec_position(index as int, width as int),
        pos.1 * width + pos.0 == index,
        pos.0 < width,
{
    let y = index / width;
    let x = index % width;
    assert(y * width + x == index) by (nonlinear_arith)
        requires
            y == index / width,
            x == index % width,
            width > 0,
    ;
    (x, y)
}

/// Quantises one colour channel: the value is rounded to the nearest
/// multiple of `2^(8 - bits)`, halves rounding up, and saturated at 255:
/// `bits` bits give `2^bits + 1` levels, and 8 bits keep every value.
pub fn flatten_int(number: u8, bits: u8) -> (r: u8)
    requires
        bits <= 8,
    ensures
        r == spec_flatten_int(number, bits),
{
    let mut step: u32 = 1;
    let mut k: u8 = 0;
    let e: u8 = 8 - bits;
    proof {
        lemma_two_pow_bounds(e as nat);
    }
    while k < e
        invariant
            k <= e,
            e <= 8,
            step == two_pow(k as nat),
            1 <= step <= 256,
        decreases e - k,
    {
        proof {
            lemma_two_pow_bounds((k + 1) as nat);
        }
        step = step * 2;
        k = k + 1;
    }
    let n: u32 = number as u32;
    let half: u32 = step / 2;
    let q: u32 = (n + half) / step;
    assert(q * step <= n + half) by (nonlinear_arith)
        requires
            q as int == (n + half) as int / step as int,
            step >= 1,
    ;
    let rounded: u32 = q * step;
    if rounded > 255 {
        255
    } else {
        rounded as u8
    }
}

/// Quantises the three channels of an RGB pixel.
pub fn flatten_color(color: &[u8; 3], bits: u8) -> (c: Color)
    requires
        bits <= 8,
    ensures
        c == spec_flatten_color(color@, bits),
        c.r == spec_flatten_int(color@[0], bits),
        c.g == spec_flatten_int(color@[1], bits),
        c.b == spec_flatten_int(color@[2], bits),
{
    Color { r: flatten_int(color[0], bits), g: flatten_int(color[1], bits), b: flatten_int(color[2], bits) }
}

} // verus!
