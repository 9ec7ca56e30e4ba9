use vstd::arithmetic::div_mod::{lemma_mod_bound, lemma_multiply_divide_lt};
use vstd::prelude::*;

verus! {

/// An RGBA raster with 8-bit channels, stored row by row.
pub struct Bitmap {
    pub width: u32,
    pub height: u32,
    /// Four bytes (red, green, blue, alpha) per pixel, rows top to bottom.
    pub data: Vec<u8>,
}

impl Bitmap {
    /// The buffer holds exactly one RGBA quadruple per pixel.
    pub open spec fn wf(&self) -> bool {
        self.data@.len() == self.width as int * self.height as int * 4
    }
}

/// The planar input tensor of shape (1, 3, `rows`, `cols`), flattened in that
/// axis order, for an RGBA buffer of `w` by `h` pixels. An entry holds the raw
/// channel byte of the pixel it stands for, or `None` in the padding band
/// (positions right of or below the image), which the network sees as zero.
pub open spec fn layout_spec(data: Seq<u8>, w: int, h: int, rows: int, cols: int) -> Seq<Option<u8>> {
    Seq::new(
        (3 * rows * cols) as nat,
        |k: int|
            {
                let c = k / (rows * cols);
                let y = (k / cols) % rows;
                let x = k % cols;
                if x < w && y < h {
                    Some(data[(y * w + x) * 4 + c])
                } else {
                    None
                }
            },
    )
}

/// Where the image already fills the tensor, no entry is padding: every
/// entry is the channel byte of a pixel, so an all-zero image gives an
/// all-zero byte layout.
pub proof fn lemma_full_image_has_no_padding(img: Bitmap, k: int)
    requires
        img.wf(),
        0 <= k < 3 * img.height * img.width,
    ensures
        layout_spec(img.data@, img.width as int, img.height as int, img.height as int, img.width as int)[k]
            is Some,
        (forall|i: int| 0 <= i < img.data@.len() ==> img.data@[i] == 0) ==> layout_spec(
            img.data@,
            img.width as int,
            img.height as int,
            img.height as int,
            img.width as int,
        )[k] == Some(0u8),
{
    let w = img.width as int;
    let h = img.height as int;
    assert(w > 0 && h > 0) by (nonlinear_arith)
        requires
            0 <= k < 3 * h * w,
            w >= 0,
            h >= 0,
    ;
    assert(k < (h * w) * 3) by (nonlinear_arith)
        requires
            k < 3 * h * w,
    ;
    lemma_multiply_divide_lt(k, h * w, 3);
    assert(0 <= k / (h * w)) by (nonlinear_arith)
        requires
            0 <= k,
            h * w > 0,
    ;
    lemma_mod_bound(k, w);
    assert(0 <= k / w);
    lemma_mod_bound(k / w, h);
    let c = k / (h * w);
    let y = (k / w) % h;
    let x = k % w;
    assert(y * w + x < h * w) by (nonlinear_arith)
        requires
            0 <= x < w,
            0 <= y < h,
    ;
    assert(0 <= (y * w + x) * 4 + c < w * h * 4) by (nonlinear_arith)
        requires
            0 <= y * w + x < h * w,
            0 <= c < 3,
            0 <= y,
            0 <= x,
    ;
}

/// Lays out `img` as the planar tensor of `rows` by `cols` described by
/// [`layout_spec`].
pub fn tensor_layout(img: &Bitmap, rows: usize, cols: usize) -> (r: Vec<Option<u8>>)
    requires
        img.wf(),
        img.height as int <= rows,
        img.width as int <= cols,
        3 * rows * cols <= usize::MAX,
    ensures
        r@ == layout_spec(img.data@, img.width as int, img.height as int, rows as int, cols as int),
{
    let ghost spec_r = layout_spec(img.data@, img.width as int, img.height as int, rows as int, cols as int);
    assert(rows * cols <= 3 * rows * cols) by (nonlinear_arith)
        requires
            rows >= 0,
            cols >= 0,
    ;
    let plane: usize = rows * cols;
    assert(3 * rows * cols == 3 * plane) by (nonlinear_arith)
        requires
            plane == rows * cols,
    ;
    let n: usize = 3 * plane;
    let dl: usize = img.data.len();
    let w: usize = img.width as usize;
    let h: usize = img.height as usize;
    let mut out: Vec<Option<u8>> = Vec::new();
    let mut k: usize = 0;
    while k < n
        invariant
            n == 3 * plane,
            plane == rows * cols,
            dl == img.data@.len(),
            w == img.width,
            h == img.height,
            img.wf(),
            h <= rows,
            w <= cols,
            k <= n,
            spec_r == layout_spec(img.data@, w as int, h as int, rows as int, cols as int),
            spec_r.len() == n,
            out@ == spec_r.subrange(0, k as int),
        decreases n - k,
    {
        proof {
            assert(plane > 0 && cols > 0 && rows > 0) by (nonlinear_arith)
                requires
                    k < n,
                    n == 3 * plane,
                    plane == rows * cols,
                    rows >= 0,
                    cols >= 0,
            ;
            lemma_multiply_divide_lt(k as int, plane as int, 3);
            lemma_mod_bound(k as int, cols as int);
            assert(0 <= k as int / cols as int);
            lemma_mod_bound(k as int / cols as int, rows as int);
        }
        let c: usize = k / plane;
        let y: usize = (k / cols) % rows;
        let x: usize = k % cols;
        let v: Option<u8> = if x < w && y < h {
            proof {
                assert(y * w + x < h * w) by (nonlinear_arith)
                    requires
                        x < w,
                        y < h,
                ;
                assert((y * w + x) * 4 + c < w * h * 4) by (nonlinear_arith)
                    requires
                        y * w + x < h * w,
                        c < 3,
                ;
                assert(y * w <= y * w + x);
            }
            Some(img.data[(y * w + x) * 4 + c])
        } else {
            None
        };
        out.push(v);
        proof {
            assert(out@ =~= spec_r.subrange(0, k + 1));
        }
        k = k + 1;
    }
    proof {
        assert(out@ =~= spec_r);
    }
    out
}

/// The RGBA bytes of the `rw` by `rh` sub-image of a `w`-wide image whose
/// top-left corner is at (`left`, `top`), row by row.
pub open spec fn crop_spec(data: Seq<u8>, w: int, left: int, top: int, rw: int, rh: int) -> Seq<u8> {
    Seq::new(
        (rw * rh * 4) as nat,
        |k: int|
            {
                let p = k / 4;
                data[((top + p / rw) * w + left + p % rw) * 4 + k % 4]
            },
    )
}

impl Bitmap {
    /// The `rw` by `rh` sub-image whose top-left corner is at (`left`, `top`).
    pub fn crop(&self, left: u32, top: u32, rw: u32, rh: u32) -> (r: Bitmap)
        requires
            self.wf(),
            left as int + rw <= self.width,
            top as int + rh <= self.height,
        ensures
            r.wf(),
            r.width == rw,
            r.height == rh,
            r.data@ == crop_spec(self.data@, self.width as int, left as int, top as int, rw as int, rh as int),
    {
        let ghost spec_r = crop_spec(self.data@, self.width as int, left as int, top as int, rw as int, rh as int);
        let w: usize = self.width as usize;
        let h: usize = self.height as usize;
        let dl: usize = self.data.len();
        let cw: usize = rw as usize;
        let ch: usize = rh as usize;
        assert(cw * ch * 4 <= w * h * 4) by (nonlinear_arith)
            requires
                cw <= w,
                ch <= h,
        ;
        let n: usize = cw * ch * 4;
        let mut out: Vec<u8> = Vec::new();
        let mut k: usize = 0;
        while k < n
            invariant
                self.wf(),
                w == self.width,
                h == self.height,
                dl == self.data@.len(),
                left + cw <= w,
                top + ch <= h,
                n == cw * ch * 4,
                k <= n,
                spec_r == crop_spec(self.data@, w as int, left as int, top as int, cw as int, ch as int),
                spec_r.len() == n,
                out@ == spec_r.subrange(0, k as int),
            decreases n - k,
        {
            let p: usize = k / 4;
            proof {
                assert(cw > 0) by (nonlinear_arith)
                    requires
                        k < n,
                        n == cw * ch * 4,
                ;
                assert(p < cw * ch) by (nonlinear_arith)
                    requires
                        k < cw * ch * 4,
                        p == k / 4,
                ;
                lemma_multiply_divide_lt(p as int, cw as int, ch as int);
                lemma_mod_bound(p as int, cw as int);
            }
            let x: usize = left as usize + p % cw;
            let y: usize = top as usize + p / cw;
            let c: usize = k % 4;
            proof {
                assert(y * w + x < h * w) by (nonlinear_arith)
                    requires
                        x < w,
                        y < h,
                ;
                assert((y * w + x) * 4 + c < w * h * 4) by (nonlinear_arith)
                    requires
                        y * w + x < h * w,
                        c < 4,
                ;
                assert(y * w <= y * w + x);
            }
            out.push(self.data[(y * w + x) * 4 + c]);
            proof {
                assert(out@ =~= spec_r.subrange(0, k + 1));
            }
            k = k + 1;
        }
        proof {
            assert(out@ =~= spec_r);
        }
        Bitmap { width: rw, height: rh, data: out }
    }
}

} // verus!
