//! The arithmetic of reading a rendered frame back from the GPU.
//!
//! A frame rendered offscreen is copied into a buffer a row at a time, and
//! every row of that copy has to start at a multiple of `ROW_ALIGN` bytes. So
//! the buffer holds each row followed by padding, and the image is the rows
//! with the padding taken out.

use vstd::prelude::*;

verus! {

/// Rows must be aligned to this in a buffer copy, which is why the image is
/// unpacked a row at a time rather than in one go.
pub const ROW_ALIGN: u32 = 256;

/// The smallest multiple of `ROW_ALIGN` that is at least `stride`.
pub open spec fn aligned(stride: int) -> int {
    ((stride + ROW_ALIGN - 1) / ROW_ALIGN as int) * ROW_ALIGN
}

/// The bytes in one row of `width` RGBA pixels, and the bytes that row is
/// given in a buffer copy.
pub fn row_bytes(width: u32) -> (sizes: (u32, u32))
    requires
        width * 4 + ROW_ALIGN <= u32::MAX,
    ensures
        sizes.0 == width * 4,
        sizes.1 == aligned(width * 4),
        sizes.1 % ROW_ALIGN == 0,
        sizes.0 <= sizes.1 < sizes.0 + ROW_ALIGN,
{
    let stride = width * 4;
    let padded = (stride + (ROW_ALIGN - 1)) / ROW_ALIGN * ROW_ALIGN;
    proof {
        let s = stride as int;
        assert(s <= ((s + 255) / 256) * 256 < s + 256 && (((s + 255) / 256) * 256) % 256 == 0)
            by (nonlinear_arith)
            requires
                s >= 0,
        ;
    }
    (stride, padded)
}

/// The image in a buffer of `height` rows, each `padded` bytes long of which
/// the first `stride` are pixels: byte `c` of row `r` of the image is byte `c`
/// of row `r` of the buffer.
pub open spec fn unpadded(buffer: Seq<u8>, stride: int, padded: int, height: int) -> Seq<u8> {
    Seq::new((stride * height) as nat, |i: int| buffer[(i / stride) * padded + i % stride])
}

/// The rows of a buffer copy, with the padding after each one taken out.
pub fn unpad_rows(buffer: &[u8], stride: u32, padded: u32, height: u32) -> (image: Vec<u8>)
    requires
        0 < stride <= padded,
        padded * height <= buffer@.len(),
        padded * height <= u32::MAX,
    ensures
        image@ == unpadded(buffer@, stride as int, padded as int, height as int),
        image@.len() == stride * height,
        forall|r: int, c: int|
            0 <= r < height && 0 <= c < stride ==> #[trigger] image@[r * stride + c] == buffer@[r * padded
                + c],
{
    let mut image: Vec<u8> = Vec::new();
    let mut row: u32 = 0;
    while row < height
        invariant
            0 < stride <= padded,
            padded * height <= buffer@.len(),
            padded * height <= u32::MAX,
            row <= height,
            image@.len() == row * stride,
            forall|r: int, c: int|
                0 <= r < row && 0 <= c < stride ==> #[trigger] image@[r * stride + c] == buffer@[r
                    * padded + c],
        decreases height - row,
    {
        proof {
            assert(row * padded + padded <= padded * height) by (nonlinear_arith)
                requires
                    row < height,
            ;
        }
        let from = row * padded;
        let mut c: u32 = 0;
        while c < stride
            invariant
                0 < stride <= padded,
                padded * height <= buffer@.len(),
                row < height,
                from == row * padded,
                from + padded <= padded * height,
                padded * height <= u32::MAX,
                c <= stride,
                image@.len() == row * stride + c,
                forall|r: int, cc: int|
                    0 <= r < row && 0 <= cc < stride ==> #[trigger] image@[r * stride + cc]
                        == buffer@[r * padded + cc],
                forall|cc: int| 0 <= cc < c ==> #[trigger] image@[row * stride + cc] == buffer@[from + cc],
            decreases stride - c,
        {
            let ghost before = image@;
            image.push(buffer[(from + c) as usize]);
            proof {
                assert forall|r: int, cc: int| 0 <= r < row && 0 <= cc < stride implies #[trigger] image@[r
                    * stride + cc] == buffer@[r * padded + cc] by {
                    assert(r * stride + cc < row * stride) by (nonlinear_arith)
                        requires
                            r < row,
                            cc < stride,
                    ;
                    assert(image@[r * stride + cc] == before[r * stride + cc]);
                }
            }
            c = c + 1;
        }
        proof {
            assert((row + 1) * stride == row * stride + stride) by (nonlinear_arith);
            assert forall|r: int, cc: int| 0 <= r < row + 1 && 0 <= cc < stride implies #[trigger] image@[r
                * stride + cc] == buffer@[r * padded + cc] by {
                if r == row {
                    assert(image@[row * stride + cc] == buffer@[from + cc]);
                }
            }
        }
        row = row + 1;
    }
    proof {
        let s = stride as int;
        let p = padded as int;
        let h = height as int;
        assert(row * stride == s * h) by (nonlinear_arith)
            requires
                row == height,
                s == stride,
                h == height,
        ;
        let want = unpadded(buffer@, s, p, h);
        assert forall|i: int| 0 <= i < image@.len() implies image@[i] == want[i] by {
            let r = i / s;
            let c = i % s;
            assert(i == r * s + c && 0 <= c < s) by (nonlinear_arith)
                requires
                    s > 0,
                    r == i / s,
                    c == i % s,
            ;
            assert(0 <= r < h) by (nonlinear_arith)
                requires
                    s > 0,
                    0 <= i < s * h,
                    r == i / s,
            ;
            assert(image@[r * s + c] == buffer@[r * p + c]);
        }
        assert(image@ =~= want);
    }
    image
}

} // verus!
