//! From an image to the network's input, and from its output to a mask.

use crate::image::{
    decoded_png, gray_pixels, is_file, rgba_pixels, save_gray, save_rgba, writable, Colour,
    ImageError, ROW_LIMIT,
};
use crate::index::lemma_split;
use crate::parallel::par_map;
use crate::pointwise::{each, sigmoid_inplace, sigmoid_of};
use crate::resize::{resize_bilinear, resize_fits, resize_spec};
use crate::scalar::{computes, Arith, Scalar};
use crate::tensor::{dims_fit, planes, Img, Tensor};
use vstd::prelude::*;

verus! {

/// Rows and columns that the network works on.
pub const SIDE: usize = 1024;

/// Bit patterns of the mean of each colour: 0.485, 0.456 and 0.406.
pub const MEAN: [u32; 3] = [0x3ef8_51ec, 0x3ee9_78d5, 0x3ecf_df3b];

/// Bit patterns of the spread of each colour: 0.229, 0.224 and 0.225.
pub const STD: [u32; 3] = [0x3e6a_7efa, 0x3e65_6042, 0x3e66_6666];

/// The three colours brought to mean 0 and spread 1.
pub open spec fn normalised<T>(m: Arith<T>, x: Img<T>) -> Img<T> {
    planes(
        3,
        1024,
        1024,
        |p: int, s: int|
            (m.over)(
                (m.minus)(x.data[p * 0x10_0000 + s], (m.bits)(MEAN@[p])),
                (m.bits)(STD@[p]),
            ),
    )
}

/// The input of the network for an image.
pub open spec fn prepared<T>(m: Arith<T>, x: Img<T>) -> Img<T> {
    normalised(m, resize_spec(m, x, 1024, 1024, false))
}

/// Brings an image to the size that the network works on, and its colours to mean 0 and
/// spread 1.
pub fn prepare<T: Scalar>(x: &Tensor<T>) -> (r: Tensor<T>)
    requires
        x@.wf(),
        3 <= x.c,
        resize_fits(x.c as int, x.h as int, x.w as int, 1024, 1024),
    ensures
        r@.wf(),
        r.c == 3 && r.h == 1024 && r.w == 1024,
        forall|m: Arith<T>| #[trigger] computes(m) ==> r@ == prepared(m, x@),
{
    let resized = resize_bilinear(x, SIDE, SIDE, false);
    let n: usize = 0x30_0000;
    assert(resized.h * resized.w == 0x10_0000) by (nonlinear_arith)
        requires
            resized.h == 1024,
            resized.w == 1024,
    ;
    assert(resized.c * (resized.h * resized.w) >= 0x30_0000) by (nonlinear_arith)
        requires
            3 <= resized.c,
            resized.h * resized.w == 0x10_0000,
    ;
    assert(resized.data@.len() >= n);
    let elem = |i: usize| -> (v: T)
        requires
            i < n,
        ensures
            forall|m: Arith<T>| #[trigger]
                computes(m) ==> v == normalised(m, resized@).data[i as int],
        {
            proof {
                lemma_split(i as int, 3, 0x10_0000);
            }
            let p = i / 0x10_0000;
            resized.data[i].minus(T::from_bits(MEAN[p])).over(T::from_bits(STD[p]))
        };
    let data = par_map(n, elem);
    let r = Tensor { c: 3, h: SIDE, w: SIDE, data };
    assert forall|m: Arith<T>| #[trigger] computes(m) implies r@ == prepared(m, x@) by {
        let want = normalised(m, resized@).data;
        assert forall|i: int| 0 <= i < n implies data@[i] == want[i] by {
            assert(data@[i as usize as int] == want[i]);
        }
        assert(data@ =~= want);
    }
    r
}

/// The mask of `h` by `w` positions for what the network gives.
pub open spec fn mask_of<T>(m: Arith<T>, logits: Img<T>, h: int, w: int) -> Img<T> {
    resize_spec(m, each(logits, |v: T| sigmoid_of(m, v)), h, w, false)
}

/// Turns what the network gives into a mask of `h` by `w` positions.
pub fn finish_mask<T: Scalar>(logits: &Tensor<T>, h: usize, w: usize) -> (r: Tensor<T>)
    requires
        logits@.wf(),
        resize_fits(logits.c as int, logits.h as int, logits.w as int, h as int, w as int),
    ensures
        r@.wf(),
        r.c == logits.c && r.h == h && r.w == w,
        forall|m: Arith<T>| #[trigger]
            computes(m) ==> r@ == mask_of(m, logits@, h as int, w as int),
{
    let mut prob = logits.clone();
    sigmoid_inplace(&mut prob);
    resize_bilinear(&prob, h, w, false)
}

/// The pixels of a result: the mask alone, or the image with the mask as its alpha.
pub open spec fn cut_pixels<T>(
    m: Arith<T>,
    rgb: Img<T>,
    logits: Img<T>,
    alpha_only: bool,
) -> Seq<u8> {
    let mask = mask_of(m, logits, rgb.h, rgb.w);
    if alpha_only {
        gray_pixels(m, mask)
    } else {
        rgba_pixels(m, rgb, mask)
    }
}

/// The colour type of a result.
pub open spec fn cut_colour(alpha_only: bool) -> Colour {
    if alpha_only {
        Colour::Gray
    } else {
        Colour::Rgba
    }
}

/// The file of a result, from the image and what the network gives for it: the mask alone, or
/// the image with the mask as its alpha.
pub fn cut_out<T: Scalar>(rgb: &Tensor<T>, logits: &Tensor<T>, alpha_only: bool) -> (r: Result<
    Vec<u8>,
    ImageError,
>)
    requires
        rgb@.wf(),
        rgb.c == 3,
        logits@.wf(),
        logits.c == 1,
        resize_fits(1, logits.h as int, logits.w as int, rgb.h as int, rgb.w as int),
        alpha_only || dims_fit(4, rgb.h as int, rgb.w as int),
    ensures
        forall|m: Arith<T>| #[trigger]
            computes(m) ==> is_file(
                r,
                rgb.h,
                rgb.w,
                cut_colour(alpha_only),
                cut_pixels(m, rgb@, logits@, alpha_only),
            ),
        r is Ok <==> writable(rgb.h, rgb.w) && 0 < rgb.h && 0 < rgb.w,
{
    let mask = finish_mask(logits, rgb.h, rgb.w);
    if alpha_only {
        save_gray(&mask)
    } else {
        save_rgba(rgb, &mask)
    }
}

/// A result has the size of the image, whatever size the network works on, where a row is
/// within what the decoder reads by default.
pub proof fn lemma_result_has_size_of_image<T>(
    m: Arith<T>,
    file: Vec<u8>,
    rgb: Img<T>,
    logits: Img<T>,
    alpha_only: bool,
)
    requires
        rgb.wf(),
        is_file(
            Ok(file),
            rgb.h as usize,
            rgb.w as usize,
            cut_colour(alpha_only),
            cut_pixels(m, rgb, logits, alpha_only),
        ),
        rgb.w * cut_colour(alpha_only).samples() <= ROW_LIMIT,
    ensures
        decoded_png(file@) is Ok,
        decoded_png(file@)->Ok_0.0 == rgb.w,
        decoded_png(file@)->Ok_0.1 == rgb.h,
        decoded_png(file@)->Ok_0.4 == cut_pixels(m, rgb, logits, alpha_only),
{
}

} // verus!
