//! The bytes of a screenshot, from the rows of a texture to a picture.

use vstd::prelude::*;

verus! {

/// In which order a texture holds the channels of a pixel.
#[derive(Debug, Clone, Copy, PartialEq, Eq, Structural)]
pub enum PixelLayout {
    Rgba,
    Bgra,
    /// Some other one: the bytes are taken as they are.
    Unknown,
}

/// Where the byte number `k` of a row of `w` pixels is found in the row `y`.
pub open spec fn row_byte(src: Seq<u8>, pitch: int, y: int, k: int) -> u8 {
    src[y * pitch + k]
}

/// The rows of a texture without what stands between them.
pub open spec fn is_packed(src: Seq<u8>, pitch: int, w: int, h: int, out: Seq<u8>) -> bool {
    &&& out.len() == w * h * 4
    &&& forall|y: int, k: int|
        0 <= y < h && 0 <= k < w * 4 ==> #[trigger] row_byte(out, w * 4, y, k) == row_byte(
            src,
            pitch,
            y,
            k,
        )
}

/// Takes the rows of a texture together. Each row of `w` pixels starts `pitch`
/// bytes behind the one before.
pub fn pack_rows(src: &Vec<u8>, pitch: usize, w: u32, h: u32) -> (out: Vec<u8>)
    requires
        w * 4 <= pitch,
        h * pitch <= src@.len(),
    ensures
        is_packed(src@, pitch as int, w as int, h as int, out@),
{
    let row: usize = w as usize * 4;
    let n: usize = src.len();
    let mut out: Vec<u8> = Vec::new();
    let mut y: u32 = 0;
    assert(0 * row == 0);
    while y < h
        invariant
            y <= h,
            row == w * 4,
            row <= pitch,
            n == src@.len(),
            h * pitch <= n,
            out@.len() == y * row,
            forall|b: int, k: int|
                0 <= b < y && 0 <= k < row ==> #[trigger] row_byte(out@, row as int, b, k)
                    == row_byte(src@, pitch as int, b, k),
        decreases h - y,
    {
        let ghost before = out@;
        let mut k: usize = 0;
        while k < row
            invariant
                y < h,
                k <= row,
                row <= pitch,
                n == src@.len(),
                h * pitch <= n,
                before.len() == y * row,
                out@.len() == y * row + k,
                out@.take(before.len() as int) == before,
                forall|j: int|
                    0 <= j < k ==> #[trigger] out@[y * row + j] == row_byte(
                        src@,
                        pitch as int,
                        y as int,
                        j,
                    ),
            decreases row - k,
        {
            assert(0 <= y * pitch && y * pitch + k < h * pitch) by (nonlinear_arith)
                requires
                    0 <= y < h,
                    0 <= k < pitch,
            ;
            assert(0 <= y * row) by (nonlinear_arith)
                requires
                    0 <= y,
                    0 <= row,
            ;
            let ghost prev = out@;
            out.push(src[y as usize * pitch + k]);
            assert(out@.take(before.len() as int) =~= before);
            k += 1;
        }
        proof {
            assert((y + 1) * row == y * row + row) by (nonlinear_arith);
            assert forall|b: int, j: int| 0 <= b < y + 1 && 0 <= j < row implies
                #[trigger] row_byte(out@, row as int, b, j) == row_byte(
                src@,
                pitch as int,
                b,
                j,
            ) by {
                if b < y {
                    assert(0 <= b * row + j < y * row) by (nonlinear_arith)
                        requires
                            0 <= b < y,
                            0 <= j < row,
                    ;
                    assert(out@[b * row + j] == out@.take(before.len() as int)[b * row + j]);
                    assert(row_byte(before, row as int, b, j) == row_byte(
                        src@,
                        pitch as int,
                        b,
                        j,
                    ));
                } else {
                    assert(out@[y * row + j] == row_byte(src@, pitch as int, y as int, j));
                }
            }
        }
        y += 1;
    }
    assert(h * row == w * h * 4) by (nonlinear_arith)
        requires
            row == w * 4,
    ;
    out
}

/// The channel that stands at place `k` once red and blue are exchanged.
pub open spec fn exchanged(k: int) -> int {
    if k % 4 == 0 {
        k + 2
    } else if k % 4 == 2 {
        k - 2
    } else {
        k
    }
}

/// Exchanges red and blue in every pixel.
pub fn swap_red_blue(px: Vec<u8>) -> (out: Vec<u8>)
    requires
        px@.len() % 4 == 0,
    ensures
        out@.len() == px@.len(),
        forall|k: int| 0 <= k < out@.len() ==> #[trigger] out@[k] == px@[exchanged(k)],
{
    let n: usize = px.len();
    let mut out: Vec<u8> = Vec::new();
    let mut k: usize = 0;
    while k < n
        invariant
            n == px@.len(),
            n % 4 == 0,
            k <= n,
            out@.len() == k,
            forall|j: int| 0 <= j < k ==> #[trigger] out@[j] == px@[exchanged(j)],
        decreases n - k,
    {
        let from: usize = if k % 4 == 0 {
            k + 2
        } else if k % 4 == 2 {
            k - 2
        } else {
            k
        };
        out.push(px[from]);
        k += 1;
    }
    out
}

/// Exchanging red and blue twice changes nothing.
pub proof fn law_exchanging_twice(k: int)
    requires
        0 <= k,
    ensures
        exchanged(exchanged(k)) == k,
{
}

/// The pixels of a texture with red first.
pub fn to_rgba(px: Vec<u8>, layout: PixelLayout) -> (out: Vec<u8>)
    requires
        px@.len() % 4 == 0,
    ensures
        out@.len() == px@.len(),
        forall|k: int|
            0 <= k < out@.len() ==> #[trigger] out@[k] == px@[if layout == PixelLayout::Bgra {
                exchanged(k)
            } else {
                k
            }],
{
    match layout {
        PixelLayout::Bgra => swap_red_blue(px),
        _ => px,
    }
}

/// The pixels without their opacity: the first three bytes of each four.
pub fn drop_alpha(px: &Vec<u8>) -> (rgb: Vec<u8>)
    requires
        px@.len() % 4 == 0,
    ensures
        rgb@.len() == px@.len() / 4 * 3,
        forall|i: int, c: int|
            0 <= i < px@.len() / 4 && 0 <= c < 3 ==> #[trigger] row_byte(rgb@, 3, i, c)
                == row_byte(px@, 4, i, c),
{
    let all: usize = px.len();
    let n: usize = all / 4;
    let mut rgb: Vec<u8> = Vec::new();
    let mut i: usize = 0;
    while i < n
        invariant
            all == px@.len(),
            n == all / 4,
            i <= n,
            rgb@.len() == i * 3,
            forall|j: int, c: int|
                0 <= j < i && 0 <= c < 3 ==> #[trigger] row_byte(rgb@, 3, j, c) == row_byte(
                    px@,
                    4,
                    j,
                    c,
                ),
        decreases n - i,
    {
        let ghost before = rgb@;
        rgb.push(px[i * 4]);
        rgb.push(px[i * 4 + 1]);
        rgb.push(px[i * 4 + 2]);
        assert forall|j: int, c: int| 0 <= j < i + 1 && 0 <= c < 3 implies #[trigger] row_byte(
            rgb@,
            3,
            j,
            c,
        ) == row_byte(px@, 4, j, c) by {
            if j < i {
                assert(row_byte(before, 3, j, c) == row_byte(px@, 4, j, c));
            }
        }
        i += 1;
    }
    rgb
}

/// The pixels of a texture that was read back: `w` by `h`, with red first and
/// without opacity.
pub fn frame_rgb(src: &Vec<u8>, pitch: usize, w: u32, h: u32, layout: PixelLayout) -> (rgb: Vec<u8>)
    requires
        w * 4 <= pitch,
        h * pitch <= src@.len(),
    ensures
        rgb@.len() == w * h * 3,
        forall|y: int, x: int, c: int|
            0 <= y < h && 0 <= x < w && 0 <= c < 3 ==> #[trigger] pixel_byte(
                rgb@,
                w as int * 3,
                y,
                x * 3 + c,
            ) == row_byte(
                src@,
                pitch as int,
                y,
                x * 4 + if layout == PixelLayout::Bgra {
                    2 - c
                } else {
                    c
                },
            ),
{
    let packed: Vec<u8> = pack_rows(src, pitch, w, h);
    let ghost first = packed@;
    assert(w * h * 4 % 4 == 0) by (nonlinear_arith);
    let rgba: Vec<u8> = to_rgba(packed, layout);
    let rgb: Vec<u8> = drop_alpha(&rgba);
    assert((w * h * 4) / 4 * 3 == w * h * 3) by (nonlinear_arith);
    proof {
        assert forall|y: int, x: int, c: int|
            0 <= y < h && 0 <= x < w && 0 <= c < 3 implies #[trigger] pixel_byte(
            rgb@,
            w as int * 3,
            y,
            x * 3 + c,
        ) == row_byte(
            src@,
            pitch as int,
            y,
            x * 4 + if layout == PixelLayout::Bgra {
                2 - c
            } else {
                c
            },
        ) by {
            let i = y * w + x;
            assert(0 <= i < w * h) by (nonlinear_arith)
                requires
                    0 <= y < h,
                    0 <= x < w,
                    i == y * w + x,
            ;
            assert(y * (w * 3) + (x * 3 + c) == i * 3 + c) by (nonlinear_arith)
                requires
                    i == y * w + x,
            ;
            assert(row_byte(rgb@, 3, i, c) == row_byte(rgba@, 4, i, c));
            let d = if layout == PixelLayout::Bgra {
                2 - c
            } else {
                c
            };
            assert(rgba@[i * 4 + c] == first[i * 4 + d]);
            assert(y * (w * 4) + (x * 4 + d) == i * 4 + d) by (nonlinear_arith)
                requires
                    i == y * w + x,
            ;
            assert(row_byte(first, w as int * 4, y, x * 4 + d) == row_byte(
                src@,
                pitch as int,
                y,
                x * 4 + d,
            ));
        }
    }
    rgb
}

/// The byte number `k` of the row `y` of a picture.
pub open spec fn pixel_byte(px: Seq<u8>, row: int, y: int, k: int) -> u8 {
    px[y * row + k]
}

/// The pixels by which two screenshots are told apart: the first, the middle
/// and the last one.
pub fn sample_pixels(px: &Vec<u8>) -> (r: Option<((u8, u8, u8, u8), (u8, u8, u8, u8), (
    u8,
    u8,
    u8,
    u8,
))>)
    ensures
        px@.len() < 4 ==> r is None,
        px@.len() >= 4 ==> r == Some(
            (
                four_at(px@, 0),
                four_at(px@, px@.len() as int / 8 * 4),
                four_at(px@, px@.len() - 4),
            ),
        ),
{
    let n: usize = px.len();
    if n < 4 {
        return None;
    }
    let mid: usize = n / 8 * 4;
    Some((read_four(px, 0), read_four(px, mid), read_four(px, n - 4)))
}

/// The four bytes from place `k` on.
pub open spec fn four_at(px: Seq<u8>, k: int) -> (u8, u8, u8, u8) {
    (px[k], px[k + 1], px[k + 2], px[k + 3])
}

fn read_four(px: &Vec<u8>, k: usize) -> (r: (u8, u8, u8, u8))
    requires
        k + 4 <= px@.len(),
    ensures
        r == four_at(px@, k as int),
{
    let n: usize = px.len();
    assert(k + 3 < n);
    (px[k], px[k + 1], px[k + 2], px[k + 3])
}

} // verus!
