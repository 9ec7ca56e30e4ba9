use crate::tensor::{crop_spec, layout_spec, tensor_layout, Bitmap};
use vstd::arithmetic::div_mod::{lemma_mod_bound, lemma_multiply_divide_lt};
use vstd::prelude::*;

verus! {

/// Tensor sides are padded up to a multiple of this.
pub const PAD_UNIT: u32 = 32;

/// Border, in pixels, added around each detected text box by default.
pub const RECT_BORDER_SIZE: u32 = 8;

/// Probability-map pixels at least this bright count as text.
pub const FOREGROUND_MIN: u8 = 200;

/// Boxes whose raw width or height is at most this are noise.
pub const MIN_BOX_SIDE: u32 = 5;

/// `n` rounded up to the next multiple of the padding unit.
pub open spec fn pad_spec(n: int) -> int {
    if n % 32 == 0 {
        n
    } else {
        n + (32 - n % 32)
    }
}

/// Padding leaves a multiple of the unit alone, and moves any other length up
/// by less than one unit to a multiple of it.
pub proof fn lemma_pad_length(n: nat)
    ensures
        n % 32 == 0 ==> pad_spec(n as int) == n,
        n % 32 != 0 ==> pad_spec(n as int) % 32 == 0 && 0 < pad_spec(n as int) - n < 32,
{
}

/// An axis-aligned rectangle in pixel coordinates.
#[derive(Clone, Copy, Debug, PartialEq, Eq, Structural)]
pub struct Rect {
    pub left: u32,
    pub top: u32,
    pub width: u32,
    pub height: u32,
}

impl Rect {
    pub fn left(&self) -> (r: u32)
        ensures
            r == self.left,
    {
        self.left
    }

    pub fn top(&self) -> (r: u32)
        ensures
            r == self.top,
    {
        self.top
    }

    pub fn width(&self) -> (r: u32)
        ensures
            r == self.width,
    {
        self.width
    }

    pub fn height(&self) -> (r: u32)
        ensures
            r == self.height,
    {
        self.height
    }
}

/// A closed border traced in the thresholded probability map.
pub struct Contour {
    /// The border's points, as (x, y).
    pub points: Vec<(u32, u32)>,
    /// Index, in the list the contour came in, of the border enclosing it.
    pub parent: Option<usize>,
}

impl View for Contour {
    type V = (Seq<(u32, u32)>, Option<usize>);

    open spec fn view(&self) -> Self::V {
        (self.points@, self.parent)
    }
}

pub open spec fn contour_views(cs: Seq<Contour>) -> Seq<(Seq<(u32, u32)>, Option<usize>)> {
    cs.map_values(|c: Contour| c@)
}

/// Every point of every contour lies inside a `w` by `h` image.
pub open spec fn contours_in(cs: Seq<(Seq<(u32, u32)>, Option<usize>)>, w: int, h: int) -> bool {
    forall|i: int, j: int|
        0 <= i < cs.len() && 0 <= j < cs[i].0.len() ==> (#[trigger] cs[i].0[j]).0 < w && cs[i].0[j].1 < h
}

/// The borders that imageproc's contour search finds in a `width` by `height`
/// grayscale map, counting pixels brighter than `threshold` as foreground.
pub uninterp spec fn contours_of(width: u32, height: u32, luma: Seq<u8>, threshold: u8) -> Seq<(Seq<(u32, u32)>, Option<usize>)>;

/// Relies on imageproc::contours::find_contours_with_threshold: the borders
/// of the regions brighter than `threshold`, each with the index of its
/// parent border; every point it records is a pixel of the image.
#[verifier::external_body]
fn find_contours(width: u32, height: u32, luma: &Vec<u8>, threshold: u8) -> (r: Vec<Contour>)
    requires
        luma@.len() == width as int * height as int,
    ensures
        contour_views(r@) == contours_of(width, height, luma@, threshold),
        contours_in(contour_views(r@), width as int, height as int),
{
    let img = image::GrayImage::from_raw(width, height, luma.clone()).unwrap();
    imageproc::contours::find_contours_with_threshold::<u32>(&img, threshold)
        .into_iter()
        .map(|c| Contour { points: c.points.iter().map(|p| (p.x, p.y)).collect(), parent: c.parent })
        .collect()
}

/// (min x, max x, min y, max y) over a non-empty list of points.
pub open spec fn bbox(pts: Seq<(u32, u32)>) -> (u32, u32, u32, u32)
    decreases pts.len(),
{
    if pts.len() <= 1 {
        (pts[0].0, pts[0].0, pts[0].1, pts[0].1)
    } else {
        let b = bbox(pts.drop_last());
        let p = pts.last();
        (
            if p.0 < b.0 { p.0 } else { b.0 },
            if p.0 > b.1 { p.0 } else { b.1 },
            if p.1 < b.2 { p.1 } else { b.2 },
            if p.1 > b.3 { p.1 } else { b.3 },
        )
    }
}

/// The bounding box of a contour before any border is added, or `None` for
/// an empty contour or one whose box is at most the noise size on a side.
pub open spec fn raw_rect(pts: Seq<(u32, u32)>) -> Option<Rect> {
    if pts.len() == 0 {
        None
    } else {
        let b = bbox(pts);
        let w = b.1 - b.0;
        let h = b.3 - b.2;
        if w <= 5 || h <= 5 {
            None
        } else {
            Some(Rect { left: b.0, top: b.2, width: w as u32, height: h as u32 })
        }
    }
}

/// `r` grown by `border` on every side and clipped to a `w` by `h` image.
pub open spec fn expand_spec(r: Rect, w: int, h: int, border: int) -> Rect {
    let left = if r.left >= border { r.left - border } else { 0 };
    let top = if r.top >= border { r.top - border } else { 0 };
    let gw = r.width + 2 * border;
    let gh = r.height + 2 * border;
    Rect {
        left: left as u32,
        top: top as u32,
        width: (if gw < w - left { gw } else { w - left }) as u32,
        height: (if gh < h - top { gh } else { h - top }) as u32,
    }
}

/// The rectangle that one contour contributes: only an outer border (one
/// without a parent) whose box passes the noise filter contributes.
pub open spec fn contour_rect(c: (Seq<(u32, u32)>, Option<usize>), w: int, h: int, border: int) -> Option<Rect> {
    if c.1 is Some {
        None
    } else {
        match raw_rect(c.0) {
            Some(r) => Some(expand_spec(r, w, h, border)),
            None => None,
        }
    }
}

/// The rectangles of a list of contours, in contour order.
pub open spec fn boxes_spec(cs: Seq<(Seq<(u32, u32)>, Option<usize>)>, w: int, h: int, border: int) -> Seq<Rect>
    decreases cs.len(),
{
    if cs.len() == 0 {
        Seq::empty()
    } else {
        let prev = boxes_spec(cs.drop_last(), w, h, border);
        match contour_rect(cs.last(), w, h, border) {
            Some(r) => prev.push(r),
            None => prev,
        }
    }
}

/// The grayscale map of a `w` by `h` image, row by row, read from the
/// detector's output, which is stored column by column over the padded height.
pub open spec fn luma_spec(output: Seq<u8>, w: int, h: int) -> Seq<u8> {
    Seq::new((w * h) as nat, |k: int| output[(k % w) * pad_spec(h) + k / w])
}

proof fn lemma_bbox_within(pts: Seq<(u32, u32)>, w: int, h: int)
    requires
        pts.len() > 0,
        forall|j: int| 0 <= j < pts.len() ==> (#[trigger] pts[j]).0 < w && pts[j].1 < h,
    ensures
        bbox(pts).0 <= bbox(pts).1 < w,
        bbox(pts).2 <= bbox(pts).3 < h,
    decreases pts.len(),
{
    if pts.len() > 1 {
        let d = pts.drop_last();
        assert forall|j: int| 0 <= j < d.len() implies (#[trigger] d[j]).0 < w && d[j].1 < h by {
            assert(d[j] == pts[j]);
        }
        lemma_bbox_within(d, w, h);
        assert(pts.last() == pts[pts.len() - 1]);
    }
}

/// Every rectangle lies inside the image, provided the contours do.
pub proof fn lemma_boxes_within_image(cs: Seq<(Seq<(u32, u32)>, Option<usize>)>, w: u32, h: u32, border: u32)
    requires
        contours_in(cs, w as int, h as int),
    ensures
        forall|k: int|
            0 <= k < boxes_spec(cs, w as int, h as int, border as int).len() ==> {
                let r = #[trigger] boxes_spec(cs, w as int, h as int, border as int)[k];
                r.left + r.width <= w && r.top + r.height <= h
            },
    decreases cs.len(),
{
    if cs.len() > 0 {
        let d = cs.drop_last();
        assert forall|i: int, j: int| 0 <= i < d.len() && 0 <= j < d[i].0.len() implies (#[trigger] d[i].0[j]).0 < w
            && d[i].0[j].1 < h by {
            assert(d[i] == cs[i]);
        }
        lemma_boxes_within_image(d, w, h, border);
        let c = cs.last();
        assert(c == cs[cs.len() - 1]);
        if c.1 is None && c.0.len() > 0 {
            assert forall|j: int| 0 <= j < c.0.len() implies (#[trigger] c.0[j]).0 < w && c.0[j].1 < h by {
                assert(c.0[j] == cs[cs.len() - 1].0[j]);
            }
            lemma_bbox_within(c.0, w as int, h as int);
        }
        let bs = boxes_spec(cs, w as int, h as int, border as int);
        let ps = boxes_spec(d, w as int, h as int, border as int);
        assert forall|k: int| 0 <= k < bs.len() implies {
            let r = #[trigger] bs[k];
            r.left + r.width <= w && r.top + r.height <= h
        } by {
            if k < ps.len() {
                assert(bs[k] == ps[k]);
            }
        }
    }
}

/// Some outer contour (one without a parent) of `cs`, whose raw box is wider
/// and taller than the noise size, grows into `r`.
pub open spec fn from_outer_large_contour(
    cs: Seq<(Seq<(u32, u32)>, Option<usize>)>,
    r: Rect,
    w: int,
    h: int,
    border: int,
) -> bool {
    exists|j: int|
        0 <= j < cs.len() && (#[trigger] cs[j]).1 is None && raw_rect(cs[j].0) is Some
            && raw_rect(cs[j].0)->0.width > 5 && raw_rect(cs[j].0)->0.height > 5
            && r == expand_spec(raw_rect(cs[j].0)->0, w, h, border)
}

/// Every rectangle comes from an outer contour whose raw box is wider and
/// taller than the noise size, grown by the border.
pub proof fn lemma_boxes_come_from_outer_large_contours(
    cs: Seq<(Seq<(u32, u32)>, Option<usize>)>,
    w: u32,
    h: u32,
    border: u32,
)
    ensures
        forall|k: int|
            0 <= k < boxes_spec(cs, w as int, h as int, border as int).len() ==> from_outer_large_contour(
                cs,
                #[trigger] boxes_spec(cs, w as int, h as int, border as int)[k],
                w as int,
                h as int,
                border as int,
            ),
    decreases cs.len(),
{
    if cs.len() > 0 {
        let d = cs.drop_last();
        lemma_boxes_come_from_outer_large_contours(d, w, h, border);
        let bs = boxes_spec(cs, w as int, h as int, border as int);
        let ps = boxes_spec(d, w as int, h as int, border as int);
        assert forall|k: int| 0 <= k < bs.len() implies from_outer_large_contour(
            cs,
            #[trigger] bs[k],
            w as int,
            h as int,
            border as int,
        ) by {
            if k < ps.len() {
                assert(from_outer_large_contour(d, ps[k], w as int, h as int, border as int));
                let j = choose|j: int|
                    0 <= j < d.len() && (#[trigger] d[j]).1 is None && raw_rect(d[j].0) is Some
                        && raw_rect(d[j].0)->0.width > 5 && raw_rect(d[j].0)->0.height > 5
                        && ps[k] == expand_spec(raw_rect(d[j].0)->0, w as int, h as int, border as int);
                assert(d[j] == cs[j]);
                assert(bs[k] == ps[k]);
            } else {
                let j = cs.len() - 1;
                assert(cs.last() == cs[j]);
            }
        }
    }
}

/// The text-region detector's configuration and its numeric stages.
pub struct Det {
    pub rect_border_size: u32,
}

impl Det {
    /// A detector with the default border size.
    pub fn new() -> (r: Self)
        ensures
            r.rect_border_size == RECT_BORDER_SIZE,
    {
        Det { rect_border_size: RECT_BORDER_SIZE }
    }

    /// The same detector with another border size.
    pub fn with_rect_border_size(self, rect_border_size: u32) -> (r: Self)
        ensures
            r.rect_border_size == rect_border_size,
    {
        Det { rect_border_size }
    }

    /// `length` rounded up to the next multiple of the padding unit.
    pub fn get_pad_length(length: u32) -> (r: u64)
        ensures
            r == pad_spec(length as int),
    {
        let i: u32 = length % PAD_UNIT;
        if i == 0 {
            length as u64
        } else {
            length as u64 + (PAD_UNIT - i) as u64
        }
    }
}

impl Det {
    /// The raw bounding box of `points`, or `None` where the contour is
    /// empty or its box is at most the noise size on a side.
    pub fn bounding_rect(points: &Vec<(u32, u32)>) -> (r: Option<Rect>)
        ensures
            r == raw_rect(points@),
    {
        if points.len() == 0 {
            return None;
        }
        let mut x_min: u32 = points[0].0;
        let mut x_max: u32 = points[0].0;
        let mut y_min: u32 = points[0].1;
        let mut y_max: u32 = points[0].1;
        let mut i: usize = 1;
        proof {
            assert(points@.subrange(0, 1).len() == 1);
        }
        while i < points.len()
            invariant
                1 <= i <= points@.len(),
                (x_min, x_max, y_min, y_max) == bbox(points@.subrange(0, i as int)),
                x_min <= x_max,
                y_min <= y_max,
            decreases points@.len() - i,
        {
            let p = points[i];
            proof {
                let s = points@.subrange(0, i + 1);
                assert(s.drop_last() =~= points@.subrange(0, i as int));
                assert(s.last() == p);
            }
            if p.0 < x_min {
                x_min = p.0;
            }
            if p.0 > x_max {
                x_max = p.0;
            }
            if p.1 < y_min {
                y_min = p.1;
            }
            if p.1 > y_max {
                y_max = p.1;
            }
            i = i + 1;
        }
        proof {
            assert(points@.subrange(0, i as int) =~= points@);
        }
        let width: u32 = x_max - x_min;
        let height: u32 = y_max - y_min;
        if width <= MIN_BOX_SIDE || height <= MIN_BOX_SIDE {
            return None;
        }
        Some(Rect { left: x_min, top: y_min, width, height })
    }

    /// Grows `r` by the border on every side and clips it to a `w` by `h`
    /// image.
    fn expand_rect(&self, r: Rect, w: u32, h: u32) -> (e: Rect)
        requires
            r.left < w,
            r.top < h,
        ensures
            e == expand_spec(r, w as int, h as int, self.rect_border_size as int),
    {
        let b: u32 = self.rect_border_size;
        let left: u32 = if r.left >= b { r.left - b } else { 0 };
        let top: u32 = if r.top >= b { r.top - b } else { 0 };
        let gw: u64 = r.width as u64 + 2 * (b as u64);
        let gh: u64 = r.height as u64 + 2 * (b as u64);
        let room_w: u32 = w - left;
        let room_h: u32 = h - top;
        let width: u32 = if gw < room_w as u64 { gw as u32 } else { room_w };
        let height: u32 = if gh < room_h as u64 { gh as u32 } else { room_h };
        Rect { left, top, width, height }
    }

    /// The text rectangles of a list of contours found in a `w` by `h`
    /// image, in contour order.
    pub fn boxes_from_contours(&self, contours: &Vec<Contour>, w: u32, h: u32) -> (r: Vec<Rect>)
        requires
            contours_in(contour_views(contours@), w as int, h as int),
        ensures
            r@ == boxes_spec(contour_views(contours@), w as int, h as int, self.rect_border_size as int),
    {
        let ghost cs = contour_views(contours@);
        let mut out: Vec<Rect> = Vec::new();
        let mut i: usize = 0;
        while i < contours.len()
            invariant
                i <= contours@.len(),
                cs == contour_views(contours@),
                cs.len() == contours@.len(),
                contours_in(cs, w as int, h as int),
                out@ == boxes_spec(cs.subrange(0, i as int), w as int, h as int, self.rect_border_size as int),
            decreases contours@.len() - i,
        {
            let c = &contours[i];
            proof {
                let s = cs.subrange(0, i + 1);
                assert(s.drop_last() =~= cs.subrange(0, i as int));
                assert(s.last() == cs[i as int]);
                assert(cs[i as int] == c@);
            }
            if c.parent.is_none() {
                let raw = Det::bounding_rect(&c.points);
                match raw {
                    Some(r) => {
                        proof {
                            assert forall|j: int| 0 <= j < c.points@.len() implies (#[trigger] c.points@[j]).0 < w
                                && c.points@[j].1 < h by {
                                assert(c.points@[j] == cs[i as int].0[j]);
                            }
                            lemma_bbox_within(c.points@, w as int, h as int);
                        }
                        let e = self.expand_rect(r, w, h);
                        out.push(e);
                    },
                    None => {},
                }
            }
            i = i + 1;
        }
        proof {
            assert(cs.subrange(0, i as int) =~= cs);
        }
        out
    }

    /// The text rectangles of a `w` by `h` grayscale probability map stored
    /// row by row: the outer borders of its regions of pixels at least
    /// [`FOREGROUND_MIN`] bright, each boxed, filtered and grown.
    pub fn find_box(&self, luma: &Vec<u8>, w: u32, h: u32) -> (r: Vec<Rect>)
        requires
            luma@.len() == w as int * h as int,
        ensures
            r@ == boxes_spec(
                contours_of(w, h, luma@, (FOREGROUND_MIN - 1) as u8),
                w as int,
                h as int,
                self.rect_border_size as int,
            ),
            forall|k: int|
                0 <= k < r@.len() ==> (#[trigger] r@[k]).left + r@[k].width <= w && r@[k].top + r@[k].height <= h,
    {
        let contours = find_contours(w, h, luma, FOREGROUND_MIN - 1);
        proof {
            lemma_boxes_within_image(contour_views(contours@), w, h, self.rect_border_size);
        }
        self.boxes_from_contours(&contours, w, h)
    }

    /// Reads the grayscale map of a `width` by `height` image out of the
    /// detector's output, held column by column over the padded height.
    pub fn luma_map(output: &Vec<u8>, width: u32, height: u32) -> (r: Vec<u8>)
        requires
            output@.len() >= width as int * pad_spec(height as int),
        ensures
            r@ == luma_spec(output@, width as int, height as int),
    {
        let ghost spec_r = luma_spec(output@, width as int, height as int);
        let ph: u64 = Det::get_pad_length(height);
        let w: u64 = width as u64;
        let h: u64 = height as u64;
        let ol: usize = output.len();
        assert(w * h <= w * ph) by (nonlinear_arith)
            requires
                h <= ph,
        ;
        let n: u64 = w * h;
        let mut out: Vec<u8> = Vec::new();
        let mut k: u64 = 0;
        while k < n
            invariant
                n == w * h,
                w == width,
                h == height,
                ph == pad_spec(h as int),
                h <= ph,
                ol == output@.len(),
                ol >= w * ph,
                k <= n,
                spec_r == luma_spec(output@, w as int, h as int),
                out@ == spec_r.subrange(0, k as int),
            decreases n - k,
        {
            proof {
                assert(w > 0) by (nonlinear_arith)
                    requires
                        k < n,
                        n == w * h,
                ;
                lemma_multiply_divide_lt(k as int, w as int, h as int);
                lemma_mod_bound(k as int, w as int);
            }
            let x: u64 = k % w;
            let y: u64 = k / w;
            assert(x * ph + y < w * ph) by (nonlinear_arith)
                requires
                    x < w,
                    y < h,
                    h <= ph,
            ;
            out.push(output[(x * ph + y) as usize]);
            proof {
                assert(out@ =~= spec_r.subrange(0, k + 1));
            }
            k = k + 1;
        }
        proof {
            assert(out@ =~= spec_r);
        }
        out
    }

    /// The detector's input tensor for `img`: its sides padded up to a
    /// multiple of the padding unit, the padding band left empty.
    pub fn preprocess(img: &Bitmap) -> (r: Vec<Option<u8>>)
        requires
            img.wf(),
            pad_spec(img.height as int) <= usize::MAX,
            pad_spec(img.width as int) <= usize::MAX,
            3 * pad_spec(img.height as int) * pad_spec(img.width as int) <= usize::MAX,
        ensures
            r@ == layout_spec(
                img.data@,
                img.width as int,
                img.height as int,
                pad_spec(img.height as int),
                pad_spec(img.width as int),
            ),
            forall|k: int|
                0 <= k < r@.len() ==> ((k % pad_spec(img.width as int) >= img.width || (k / pad_spec(
                    img.width as int,
                )) % pad_spec(img.height as int) >= img.height) ==> (#[trigger] r@[k]) is None),
    {
        let ph: u64 = Det::get_pad_length(img.height);
        let pw: u64 = Det::get_pad_length(img.width);
        tensor_layout(img, ph as usize, pw as usize)
    }
}

impl Det {
    /// The text rectangles of a `width` by `height` image, from the
    /// detector's output held column by column over the padded height.
    pub fn rects_from_output(&self, output: &Vec<u8>, width: u32, height: u32) -> (r: Vec<Rect>)
        requires
            output@.len() >= width as int * pad_spec(height as int),
        ensures
            r@ == boxes_spec(
                contours_of(width, height, luma_spec(output@, width as int, height as int), (FOREGROUND_MIN - 1) as u8),
                width as int,
                height as int,
                self.rect_border_size as int,
            ),
            forall|k: int|
                0 <= k < r@.len() ==> (#[trigger] r@[k]).left + r@[k].width <= width && r@[k].top + r@[k].height
                    <= height,
    {
        let luma = Det::luma_map(output, width, height);
        self.find_box(&luma, width, height)
    }

    /// The sub-images of `img` under each of `rects`, in order.
    pub fn crop_regions(img: &Bitmap, rects: &Vec<Rect>) -> (r: Vec<Bitmap>)
        requires
            img.wf(),
            forall|k: int|
                0 <= k < rects@.len() ==> (#[trigger] rects@[k]).left + rects@[k].width <= img.width
                    && rects@[k].top + rects@[k].height <= img.height,
        ensures
            r@.len() == rects@.len(),
            forall|k: int|
                0 <= k < r@.len() ==> {
                    let c = #[trigger] r@[k];
                    let b = rects@[k];
                    c.wf() && c.width == b.width && c.height == b.height && c.data@ == crop_spec(
                        img.data@,
                        img.width as int,
                        b.left as int,
                        b.top as int,
                        b.width as int,
                        b.height as int,
                    )
                },
    {
        let mut out: Vec<Bitmap> = Vec::new();
        let mut i: usize = 0;
        while i < rects.len()
            invariant
                img.wf(),
                forall|k: int|
                    0 <= k < rects@.len() ==> (#[trigger] rects@[k]).left + rects@[k].width <= img.width
                        && rects@[k].top + rects@[k].height <= img.height,
                i <= rects@.len(),
                out@.len() == i,
                forall|k: int|
                    0 <= k < i ==> {
                        let c = #[trigger] out@[k];
                        let b = rects@[k];
                        c.wf() && c.width == b.width && c.height == b.height && c.data@ == crop_spec(
                            img.data@,
                            img.width as int,
                            b.left as int,
                            b.top as int,
                            b.width as int,
                            b.height as int,
                        )
                    },
            decreases rects@.len() - i,
        {
            let b = rects[i];
            proof {
                assert(b == rects@[i as int]);
            }
            out.push(img.crop(b.left, b.top, b.width, b.height));
            i = i + 1;
        }
        out
    }

    /// The text sub-images of `img`, from the detector's output for it held
    /// column by column over the padded height.
    pub fn crops_from_output(&self, img: &Bitmap, output: &Vec<u8>) -> (r: Vec<Bitmap>)
        requires
            img.wf(),
            output@.len() >= img.width as int * pad_spec(img.height as int),
        ensures
            ({
                let rects = boxes_spec(
                    contours_of(
                        img.width,
                        img.height,
                        luma_spec(output@, img.width as int, img.height as int),
                        (FOREGROUND_MIN - 1) as u8,
                    ),
                    img.width as int,
                    img.height as int,
                    self.rect_border_size as int,
                );
                r@.len() == rects.len() && forall|k: int|
                    0 <= k < r@.len() ==> {
                        let c = #[trigger] r@[k];
                        let b = rects[k];
                        c.width == b.width && c.height == b.height && c.data@ == crop_spec(
                            img.data@,
                            img.width as int,
                            b.left as int,
                            b.top as int,
                            b.width as int,
                            b.height as int,
                        )
                    }
            }),
    {
        let rects = self.rects_from_output(output, img.width, img.height);
        Det::crop_regions(img, &rects)
    }
}

} // verus!
