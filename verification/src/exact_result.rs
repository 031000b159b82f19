//! What goes into the network and what comes out of it, in exact arithmetic.

use crate::exact_maps::{between, lemma_resize, lemma_resize_to_own_size, place};
use crate::exact_pointwise::lemma_sigmoid;
use crate::image::{level, rgb_spec, sample_at, samples_of, FULL, PER_255, PER_65535};
use crate::pipeline::{cut_pixels, mask_of, prepared, MEAN, STD};
use crate::pointwise::{each, sigmoid_of};
use crate::reals::{
    exact, is_integer, lemma_as_quotient, lemma_plain_numbers, lemma_powers, two_to,
};
use crate::resize::resize_spec;
use crate::scalar::Arith;
use crate::tensor::{lemma_planes_at, Img};
use vstd::prelude::*;

verus! {

// ---- from logits to a mask ------------------------------------------------------------

/// The chance that has the exponential of `logit` as its odds.
pub open spec fn chance<T>(m: Arith<T>, v: spec_fn(T) -> real, logit: T) -> real {
    v((m.exponential)(logit)) / (1real + v((m.exponential)(logit)))
}

proof fn lemma_chance(s: real, e: real)
    requires
        e > 0real,
        s == (1real - s) * e,
    ensures
        s == e / (1real + e),
{
    assert(s * (1real + e) == e) by (nonlinear_arith)
        requires
            s == (1real - s) * e,
    ;
    assert(s == e / (1real + e)) by (nonlinear_arith)
        requires
            s * (1real + e) == e,
            e > 0real,
    ;
}

proof fn lemma_sigmoids<T>(
    m: Arith<T>,
    v: spec_fn(T) -> real,
    x: Img<T>,
    p: int,
    y: int,
    col: int,
)
    requires
        exact(m, v),
        x.wf(),
        x.has(p, y, col),
    ensures
        v(each(x, |a: T| sigmoid_of(m, a)).at(p, y, col)) == chance(m, v, x.at(p, y, col)),
{
    lemma_planes_at(x.c, x.h, x.w, |a: int, b: int| x.data[0], p, y, col);
    let a = x.at(p, y, col);
    lemma_sigmoid(m, v, a, a);
    lemma_chance(v(sigmoid_of(m, a)), v((m.exponential)(a)));
}

/// The mask at row `y` and column `col` lies between the chances of the four logits around its
/// place, where the cells of the logits cover what the cells of the mask cover. So each position
/// of the mask depends on the logits around its own place, and on no others.
pub proof fn lemma_mask<T>(
    m: Arith<T>,
    v: spec_fn(T) -> real,
    logits: Img<T>,
    h: int,
    w: int,
    p: int,
    y: int,
    col: int,
    y0: int,
    x0: int,
)
    requires
        exact(m, v),
        logits.wf(),
        0 <= p < logits.c,
        1 <= logits.h,
        1 <= logits.w,
        0 <= y < h <= usize::MAX,
        0 <= col < w <= usize::MAX,
        y0 as real <= place(y, logits.h, h, false) < y0 as real + 1real,
        x0 as real <= place(col, logits.w, w, false) < x0 as real + 1real,
    ensures
        mask_of(m, logits, h, w).c == logits.c,
        mask_of(m, logits, h, w).h == h,
        mask_of(m, logits, h, w).w == w,
        ({
            let y1 = if y0 + 1 < logits.h {
                y0 + 1
            } else {
                y0
            };
            let x1 = if x0 + 1 < logits.w {
                x0 + 1
            } else {
                x0
            };
            v(mask_of(m, logits, h, w).at(p, y, col)) == between(
                place(y, logits.h, h, false) - y0 as real,
                place(col, logits.w, w, false) - x0 as real,
                chance(m, v, logits.at(p, y0, x0)),
                chance(m, v, logits.at(p, y0, x1)),
                chance(m, v, logits.at(p, y1, x0)),
                chance(m, v, logits.at(p, y1, x1)),
            )
        }),
{
    let prob = each(logits, |a: T| sigmoid_of(m, a));
    lemma_resize(m, v, prob, h, w, false, p, y, col, y0, x0);
    let y1 = if y0 + 1 < logits.h {
        y0 + 1
    } else {
        y0
    };
    let x1 = if x0 + 1 < logits.w {
        x0 + 1
    } else {
        x0
    };
    lemma_sigmoids(m, v, logits, p, y0, x0);
    lemma_sigmoids(m, v, logits, p, y0, x1);
    lemma_sigmoids(m, v, logits, p, y1, x0);
    lemma_sigmoids(m, v, logits, p, y1, x1);
}

/// Where the image has the size of the logits, the mask holds at each position the chance of the
/// logit at that very position.
pub proof fn lemma_mask_of_own_size<T>(
    m: Arith<T>,
    v: spec_fn(T) -> real,
    logits: Img<T>,
    p: int,
    y: int,
    col: int,
)
    requires
        exact(m, v),
        logits.wf(),
        logits.has(p, y, col),
    ensures
        v(mask_of(m, logits, logits.h, logits.w).at(p, y, col)) == chance(
            m,
            v,
            logits.at(p, y, col),
        ),
{
    let prob = each(logits, |a: T| sigmoid_of(m, a));
    lemma_resize_to_own_size(m, v, prob, false, p, y, col);
    lemma_sigmoids(m, v, logits, p, y, col);
}

// ---- from an image to the input -------------------------------------------------------

/// The input of the network holds at every position the colour of the image there, taken between
/// the four pixels around its place, less the mean of the colour, over its spread.
pub proof fn lemma_prepared<T>(
    m: Arith<T>,
    v: spec_fn(T) -> real,
    x: Img<T>,
    p: int,
    y: int,
    col: int,
    y0: int,
    x0: int,
)
    requires
        exact(m, v),
        x.wf(),
        0 <= p < 3 <= x.c,
        1 <= x.h,
        1 <= x.w,
        0 <= y < 1024,
        0 <= col < 1024,
        y0 as real <= place(y, x.h, 1024, false) < y0 as real + 1real,
        x0 as real <= place(col, x.w, 1024, false) < x0 as real + 1real,
        v((m.bits)(STD@[p])) > 0real,
    ensures
        ({
            let y1 = if y0 + 1 < x.h {
                y0 + 1
            } else {
                y0
            };
            let x1 = if x0 + 1 < x.w {
                x0 + 1
            } else {
                x0
            };
            v(prepared(m, x).at(p, y, col)) == (between(
                place(y, x.h, 1024, false) - y0 as real,
                place(col, x.w, 1024, false) - x0 as real,
                v(x.at(p, y0, x0)),
                v(x.at(p, y0, x1)),
                v(x.at(p, y1, x0)),
                v(x.at(p, y1, x1)),
            ) - v((m.bits)(MEAN@[p]))) / v((m.bits)(STD@[p]))
        }),
{
    let r = resize_spec(m, x, 1024, 1024, false);
    lemma_resize(m, v, x, 1024, 1024, false, p, y, col, y0, x0);
    let f = |p: int, s: int|
        (m.over)(
            (m.minus)(r.data[p * 0x10_0000 + s], (m.bits)(MEAN@[p])),
            (m.bits)(STD@[p]),
        );
    lemma_planes_at(3, 1024, 1024, f, p, y, col);
    assert(1024 * 1024 == 0x10_0000);
}

/// The mean of the colours is 0.485, 0.456 and 0.406, and their spread 0.229, 0.224 and 0.225, to
/// within a ten-millionth.
pub proof fn lemma_colours<T>(m: Arith<T>, v: spec_fn(T) -> real)
    requires
        exact(m, v),
    ensures
        4849999real / 10000000real < v((m.bits)(MEAN@[0])) < 4850001real / 10000000real,
        4559999real / 10000000real < v((m.bits)(MEAN@[1])) < 4560001real / 10000000real,
        4059999real / 10000000real < v((m.bits)(MEAN@[2])) < 4060001real
            / 10000000real,
        2289999real / 10000000real < v((m.bits)(STD@[0])) < 2290001real / 10000000real,
        2239999real / 10000000real < v((m.bits)(STD@[1])) < 2240001real / 10000000real,
        2249999real / 10000000real < v((m.bits)(STD@[2])) < 2250001real
            / 10000000real,
{
    lemma_powers();
    lemma_as_quotient(0x3ef8_51ec, 125, 0x78_51ec, 0x200_0000real);
    lemma_as_quotient(0x3ee9_78d5, 125, 0x69_78d5, 0x200_0000real);
    lemma_as_quotient(0x3ecf_df3b, 125, 0x4f_df3b, 0x200_0000real);
    lemma_as_quotient(0x3e6a_7efa, 124, 0x6a_7efa, 0x400_0000real);
    lemma_as_quotient(0x3e65_6042, 124, 0x65_6042, 0x400_0000real);
    lemma_as_quotient(0x3e66_6666, 124, 0x66_6666, 0x400_0000real);
}

// ---- levels ---------------------------------------------------------------------------

/// The level of a number is 255 times the number, brought to between 0 and 1 first, rounded to
/// the nearest integer.
pub proof fn lemma_level<T>(m: Arith<T>, v: spec_fn(T) -> real, a: T, n: int)
    requires
        exact(m, v),
        0 <= n <= 255,
        ({
            let within = if v(a) < 0real {
                0real
            } else if v(a) > 1real {
                1real
            } else {
                v(a)
            };
            n as real - 1real / 2real < within * 255real < n as real + 1real / 2real
        }),
    ensures
        level(m, a) == n,
{
    lemma_plain_numbers(m, v);
    lemma_powers();
    lemma_as_quotient(FULL, 134, 0x7f_0000, 0x1_0000real);
    assert(v((m.bits)(FULL)) == 255real);
    assert(is_integer(n));
}

/// A byte that is read as a number stands for 1/255 of itself, to within a ten-millionth of it.
pub proof fn lemma_per_255<T>(m: Arith<T>, v: spec_fn(T) -> real)
    requires
        exact(m, v),
    ensures
        9999999real / 10000000real < v((m.bits)(PER_255)) * 255real < 10000001real / 10000000real,
{
    lemma_powers();
    lemma_as_quotient(PER_255, 119, 0x8081, 0x8000_0000real);
}

/// Two bytes that are read as a number stand for 1/65535 of themselves, to within a ten-millionth
/// of it.
pub proof fn lemma_per_65535<T>(m: Arith<T>, v: spec_fn(T) -> real)
    requires
        exact(m, v),
    ensures
        9999999real / 10000000real < v((m.bits)(PER_65535)) * 65535real < 10000001real
            / 10000000real,
{
    reveal_with_fuel(two_to, 40);
    assert(two_to(-39) == 1real / 0x80_0000_0000real);
    lemma_as_quotient(PER_65535, 111, 0x80, 0x80_0000_0000real);
}

/// An image that is loaded holds in plane `p` at row `y` and column `x` the sample of that colour
/// of that pixel, over 255 where samples have one byte and over 65535 where they have two, the
/// more significant first. Gray goes to all three planes.
pub proof fn lemma_loaded_pixel<T>(
    m: Arith<T>,
    v: spec_fn(T) -> real,
    f: (u32, u32, u8, u8, Seq<u8>),
    p: int,
    y: int,
    x: int,
    n: int,
    i: int,
)
    requires
        exact(m, v),
        samples_of(f.2) == Some(n),
        0 <= p < 3,
        0 <= y < f.1,
        0 <= x < f.0,
        i == (y * f.0 + x) * n + (if n >= 3 {
            p
        } else {
            0
        }),
    ensures
        rgb_spec(m, f).c == 3,
        rgb_spec(m, f).h == f.1,
        rgb_spec(m, f).w == f.0,
        f.3 == 8 ==> v(rgb_spec(m, f).at(p, y, x)) == f.4[i] as int as real * v((m.bits)(PER_255)),
        f.3 == 16 ==> v(rgb_spec(m, f).at(p, y, x)) == (256 * f.4[2 * i] + f.4[2 * i + 1]) as real
            * v((m.bits)(PER_65535)),
{
    let g = |p: int, s: int|
        sample_at(
            m,
            f.4,
            f.3,
            s * n + (if n >= 3 {
                p
            } else {
                0
            }),
        );
    lemma_planes_at(3, f.1 as int, f.0 as int, g, p, y, x);
}

/// Every pixel of a result has the level of the mask at its own position: as its alpha, behind
/// the levels of its three colours, or alone.
pub proof fn lemma_pixels<T>(
    m: Arith<T>,
    rgb: Img<T>,
    logits: Img<T>,
    alpha_only: bool,
    y: int,
    x: int,
    c: int,
)
    requires
        rgb.wf(),
        rgb.c == 3,
        0 <= y < rgb.h,
        0 <= x < rgb.w,
        0 <= c < 3,
    ensures
        ({
            let px = cut_pixels(m, rgb, logits, alpha_only);
            let at = y * rgb.w + x;
            let alpha = mask_of(m, logits, rgb.h, rgb.w).at(0, y, x);
            if alpha_only {
                px.len() == rgb.h * rgb.w && px[at] == level(m, alpha)
            } else {
                &&& px.len() == rgb.h * rgb.w * 4
                &&& px[4 * at + c] == level(m, rgb.at(c, y, x))
                &&& px[4 * at + 3] == level(m, alpha)
            }
        }),
{
    crate::index::lemma_flat(y, rgb.h, x, rgb.w);
    let at = y * rgb.w + x;
    assert((4 * at + c) / 4 == at && (4 * at + c) % 4 == c);
    assert((4 * at + 3) / 4 == at && (4 * at + 3) % 4 == 3);
    assert(0 * (rgb.h * rgb.w) == 0) by (nonlinear_arith);
}

} // verus!
