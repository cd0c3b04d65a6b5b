//! Pictures as the `image` crate decodes, scales and encodes them.
//!
//! What its Lanczos filter and its decoders make of the samples may differ
//! from one platform to the next in the last bit. So what they return is
//! described by what they may return, not by a single value.

use crate::ocr_lab::raster::Gray;
use vstd::prelude::*;

verus! {

#[verifier::external_type_specification]
#[verifier::external_body]
pub struct ExDynamicImage(image::DynamicImage);

/// The samples that a picture holds, row by row: `image::DynamicImage::as_bytes`.
pub uninterp spec fn samples_of(img: image::DynamicImage) -> Seq<u8>;

/// The width and the height of a picture.
pub uninterp spec fn sides_of(img: image::DynamicImage) -> (u32, u32);

/// A picture as plain values: its sides and its samples.
pub type PictureView = ((u32, u32), Seq<u8>);

/// Whether reading the bytes of a file as a picture may give this, or nothing.
pub uninterp spec fn decode_may_give(bytes: Seq<u8>, out: Option<PictureView>) -> bool;

/// Whether scaling a picture into the bounds `within` may give `out`.
pub uninterp spec fn resize_may_give(
    from: PictureView,
    within: (u32, u32),
    out: PictureView,
) -> bool;

/// Whether writing a picture as a PNG file may give these bytes, or nothing.
pub uninterp spec fn png_may_give(from: PictureView, out: Option<Seq<u8>>) -> bool;

/// A grayscale image as plain values.
pub open spec fn gray_view(g: Gray) -> PictureView {
    ((g.w, g.h), g.px@)
}

/// The longest side that a grayscale image is scaled from or to. The filter
/// computes positions as `f32`, which tells all half pixels apart up to here.
pub const MAX_SIDE: u32 = 8_388_608;

/// Calls `image::DynamicImage::resize` on a grayscale image, with the
/// `Lanczos3` filter. For sides in the proportion of the image's own, the
/// result has just those sides. The pixels are those of some outcome of the
/// filter, whose weights come from the platform's sine function.
#[verifier::external_body]
pub(crate) fn resize_gray(img: &Gray, w: u32, h: u32) -> (r: Gray)
    requires
        img.wf(),
        img.w > 0,
        img.h > 0,
        w > 0,
        h > 0,
        img.w <= MAX_SIDE,
        img.h <= MAX_SIDE,
        w <= MAX_SIDE,
        h <= MAX_SIDE,
        w * img.h == h * img.w,
        w * h <= u32::MAX,
    ensures
        r.wf(),
        r.w == w,
        r.h == h,
        resize_may_give(gray_view(*img), (w, h), gray_view(r)),
{
    let src = image::GrayImage::from_raw(img.w, img.h, img.px.clone()).unwrap();
    let filter = image::imageops::FilterType::Lanczos3;
    let big = image::DynamicImage::ImageLuma8(src).resize(w, h, filter).to_luma8();
    Gray { w: big.width(), h: big.height(), px: big.into_raw() }
}

/// Calls `image::ImageReader::decode` on the bytes of a file, in the format
/// that they start like: PNG, JPEG or WebP. The picture is one that the decoder
/// may read out of them; where it reads none, it may read none. That bytes
/// which are no picture are reported, and never end the program, is what the
/// error type of the call offers; the decoders beneath do not promise it in
/// so many words, and it is not stated here.
#[verifier::external_body]
pub(crate) fn decode_picture(bytes: &[u8]) -> (r: Option<image::DynamicImage>)
    ensures
        match r {
            Some(p) => decode_may_give(bytes@, Some((sides_of(p), samples_of(p)))),
            None => decode_may_give(bytes@, None),
        },
{
    let reader = image::ImageReader::new(std::io::Cursor::new(bytes));
    reader.with_guessed_format().ok()?.decode().ok()
}

/// Calls `image::DynamicImage::width` and `height`.
#[verifier::external_body]
pub(crate) fn picture_sides(p: &image::DynamicImage) -> (r: (u32, u32))
    ensures
        r == sides_of(*p),
{
    (p.width(), p.height())
}

/// Whether `short` is the length of a side of `of`, rounded but at least one,
/// where another one of `long` is made `side` long.
pub open spec fn in_proportion(short: u32, of: u32, long: u32, side: u32) -> bool {
    ||| short == 1 && 2 * of * side <= long
    ||| 2 * short * long <= 2 * of * side + long && 2 * of * side <= 2 * short * long + long
}

/// Calls `image::DynamicImage::resize` with the `Lanczos3` filter and one
/// bound for both sides of a picture that is larger. The longer side comes out
/// as that bound, and the other one in proportion. The pixels are those of
/// some outcome of the filter, whose weights come from the platform's sine
/// function.
#[verifier::external_body]
pub(crate) fn fit_picture(p: &image::DynamicImage, side: u32) -> (r: image::DynamicImage)
    requires
        0 < side <= 65_536,
        sides_of(*p).0 > side || sides_of(*p).1 > side,
    ensures
        1 <= sides_of(r).0 <= side,
        1 <= sides_of(r).1 <= side,
        sides_of(*p).0 >= sides_of(*p).1 ==> sides_of(r).0 == side && in_proportion(
            sides_of(r).1,
            sides_of(*p).1,
            sides_of(*p).0,
            side,
        ),
        sides_of(*p).1 >= sides_of(*p).0 ==> sides_of(r).1 == side && in_proportion(
            sides_of(r).0,
            sides_of(*p).0,
            sides_of(*p).1,
            side,
        ),
        resize_may_give(
            (sides_of(*p), samples_of(*p)),
            (side, side),
            (sides_of(r), samples_of(r)),
        ),
{
    p.resize(side, side, image::imageops::FilterType::Lanczos3)
}

/// Calls `image::DynamicImage::write_to` for the PNG format, on a picture whose
/// samples fit into one chunk of the file. The bytes are some that the encoder
/// may write for the picture; where it writes none, as for one with no pixels,
/// it may write none.
#[verifier::external_body]
pub(crate) fn encode_png(p: &image::DynamicImage) -> (r: Option<Vec<u8>>)
    requires
        sides_of(*p).0 <= 4_096,
        sides_of(*p).1 <= 4_096,
    ensures
        match r {
            Some(bytes) => png_may_give((sides_of(*p), samples_of(*p)), Some(bytes@)),
            None => png_may_give((sides_of(*p), samples_of(*p)), None),
        },
{
    let mut bytes = Vec::new();
    let mut out = std::io::Cursor::new(&mut bytes);
    p.write_to(&mut out, image::ImageFormat::Png).ok()?;
    Some(bytes)
}

/// Whether turning a picture into four bytes for each pixel may give these.
pub uninterp spec fn rgba_may_give(from: PictureView, out: Seq<u8>) -> bool;

/// Whether sampling a picture of four bytes for each pixel anew may give `out`.
pub uninterp spec fn sampling_may_give(from: PictureView, out: PictureView) -> bool;

/// Calls `image::DynamicImage::to_rgba8`: four bytes for each pixel. They are
/// those of some outcome of the conversion, which depends on the kind of
/// samples that the picture holds.
#[verifier::external_body]
pub(crate) fn rgba_samples(p: &image::DynamicImage) -> (r: Vec<u8>)
    requires
        4 * (sides_of(*p).0 * sides_of(*p).1) <= u32::MAX,
    ensures
        r@.len() == 4 * (sides_of(*p).0 * sides_of(*p).1),
        rgba_may_give((sides_of(*p), samples_of(*p)), r@),
{
    p.to_rgba8().into_raw()
}

/// Calls `image::imageops::resize` on a picture of four bytes for each pixel,
/// with the `Lanczos3` filter. The result has just the sides that are asked
/// for; its bytes are those of some outcome of the filter, whose weights come
/// from the platform's sine function.
#[verifier::external_body]
pub(crate) fn sample_rgba(w: u32, h: u32, bytes: &Vec<u8>, to_w: u32, to_h: u32) -> (r: Vec<u8>)
    requires
        0 < w <= MAX_SIDE,
        0 < h <= MAX_SIDE,
        0 < to_w <= MAX_SIDE,
        0 < to_h <= MAX_SIDE,
        bytes@.len() == 4 * (w * h),
        4 * (to_w * to_h) <= u32::MAX,
    ensures
        r@.len() == 4 * (to_w * to_h),
        sampling_may_give(((w, h), bytes@), ((to_w, to_h), r@)),
{
    let src = image::RgbaImage::from_raw(w, h, bytes.clone()).unwrap();
    let filter = image::imageops::FilterType::Lanczos3;
    image::imageops::resize(&src, to_w, to_h, filter).into_raw()
}

} // verus!
