use crate::tensor::{layout_spec, tensor_layout, Bitmap};
use vstd::prelude::*;
use vstd::string::StrSliceExecFns;

verus! {

/// Height, in pixels, of the recognizer's input.
pub const REC_HEIGHT: u32 = 48;

/// The bit pattern of the 32-bit float 0.8, the default minimum score.
pub const MIN_SCORE_DEFAULT: u32 = 0x3F4C_CCCD;

/// Whether the 32-bit float with bit pattern `b` is a NaN.
pub open spec fn is_nan_bits(b: u32) -> bool {
    b % 0x8000_0000 > 0x7F80_0000
}

/// Whether the 32-bit float with bit pattern `b` is a zero of either sign.
pub open spec fn is_zero_bits(b: u32) -> bool {
    b % 0x8000_0000 == 0
}

/// A key whose integer order is the IEEE 754 total order of 32-bit floats
/// given by their bit patterns.
pub open spec fn total_key(b: u32) -> int {
    if b >= 0x8000_0000 {
        0xFFFF_FFFF - b
    } else {
        b + 0x8000_0000
    }
}

/// The float comparison `a > b` on bit patterns: false where either is a NaN
/// or both are zeros, else the total order.
pub open spec fn float_gt(a: u32, b: u32) -> bool {
    !is_nan_bits(a) && !is_nan_bits(b) && !(is_zero_bits(a) && is_zero_bits(b)) && total_key(a)
        > total_key(b)
}

/// The first position holding a greatest score of `row` in the total order,
/// with that score; `None` for an empty row.
pub open spec fn argmax_spec(row: Seq<u32>) -> Option<(int, u32)>
    decreases row.len(),
{
    if row.len() == 0 {
        None
    } else {
        let last = row.last();
        match argmax_spec(row.drop_last()) {
            None => Some((row.len() - 1, last)),
            Some(best) => if total_key(last) > total_key(best.1) {
                Some((row.len() - 1, last))
            } else {
                Some(best)
            },
        }
    }
}

/// The character and score that one time step yields: its best index, unless
/// that index is the blank, its score does not exceed `min_score`, or the
/// table has no character there.
pub open spec fn step_spec(row: Seq<u32>, keys: Seq<char>, min_score: u32) -> Option<(char, u32)> {
    match argmax_spec(row) {
        Some(best) => if best.0 != 0 && float_gt(best.1, min_score) && best.0 < keys.len() {
            Some((keys[best.0], best.1))
        } else {
            None
        },
        None => None,
    }
}

/// The pairs that a sequence of time steps decodes to, in time order.
pub open spec fn decode_spec(rows: Seq<Seq<u32>>, keys: Seq<char>, min_score: u32) -> Seq<(char, u32)>
    decreases rows.len(),
{
    if rows.len() == 0 {
        Seq::empty()
    } else {
        let prev = decode_spec(rows.drop_last(), keys, min_score);
        match step_spec(rows.last(), keys, min_score) {
            Some(p) => prev.push(p),
            None => prev,
        }
    }
}

/// `s` without its line feeds.
pub open spec fn strip_newlines(s: Seq<char>) -> Seq<char>
    decreases s.len(),
{
    if s.len() == 0 {
        Seq::empty()
    } else {
        let prev = strip_newlines(s.drop_last());
        if s.last() == '\n' {
            prev
        } else {
            prev.push(s.last())
        }
    }
}

/// The character table for a vocabulary text: a blank, the text's
/// characters without line feeds, and a closing blank.
pub open spec fn keys_spec(text: Seq<char>) -> Seq<char> {
    seq![' '] + strip_newlines(text) + seq![' ']
}

/// Some time step of `rows` has a best index other than the blank, inside
/// the table, and yields `p`.
pub open spec fn from_nonblank_step(rows: Seq<Seq<u32>>, keys: Seq<char>, p: (char, u32)) -> bool {
    exists|t: int|
        0 <= t < rows.len() && (#[trigger] argmax_spec(rows[t])) is Some && (argmax_spec(rows[t])->0).0 != 0
            && (argmax_spec(rows[t])->0).0 < keys.len() && p == (
            keys[(argmax_spec(rows[t])->0).0],
            (argmax_spec(rows[t])->0).1,
        )
}

/// Every decoded character is the table's character at a non-blank index
/// chosen by some time step, paired with that step's score.
pub proof fn lemma_decode_skips_blank(rows: Seq<Seq<u32>>, keys: Seq<char>, min_score: u32)
    ensures
        forall|k: int|
            0 <= k < decode_spec(rows, keys, min_score).len() ==> from_nonblank_step(
                rows,
                keys,
                #[trigger] decode_spec(rows, keys, min_score)[k],
            ),
    decreases rows.len(),
{
    if rows.len() > 0 {
        let d = rows.drop_last();
        lemma_decode_skips_blank(d, keys, min_score);
        let all = decode_spec(rows, keys, min_score);
        let prev = decode_spec(d, keys, min_score);
        assert forall|k: int| 0 <= k < all.len() implies from_nonblank_step(rows, keys, #[trigger] all[k]) by {
            if k < prev.len() {
                assert(from_nonblank_step(d, keys, prev[k]));
                let t = choose|t: int|
                    0 <= t < d.len() && (#[trigger] argmax_spec(d[t])) is Some && (argmax_spec(d[t])->0).0 != 0
                        && (argmax_spec(d[t])->0).0 < keys.len() && prev[k] == (
                        keys[(argmax_spec(d[t])->0).0],
                        (argmax_spec(d[t])->0).1,
                    );
                assert(d[t] == rows[t]);
                assert(all[k] == prev[k]);
            } else {
                assert(rows.last() == rows[rows.len() - 1]);
            }
        }
    }
}

/// Every decoded score exceeds the minimum score.
pub proof fn lemma_decode_exceeds_min_score(rows: Seq<Seq<u32>>, keys: Seq<char>, min_score: u32)
    ensures
        forall|k: int|
            0 <= k < decode_spec(rows, keys, min_score).len() ==> float_gt(
                (#[trigger] decode_spec(rows, keys, min_score)[k]).1,
                min_score,
            ),
    decreases rows.len(),
{
    if rows.len() > 0 {
        let d = rows.drop_last();
        lemma_decode_exceeds_min_score(d, keys, min_score);
        let all = decode_spec(rows, keys, min_score);
        let prev = decode_spec(d, keys, min_score);
        assert forall|k: int| 0 <= k < all.len() implies float_gt((#[trigger] all[k]).1, min_score) by {
            if k < prev.len() {
                assert(all[k] == prev[k]);
            }
        }
    }
}

/// The RGBA bytes of an image of `width` by `height` resized by the image
/// crate's Catmull-Rom filter to `width` by `new_height`.
pub uninterp spec fn resized_of(width: u32, height: u32, data: Seq<u8>, new_height: u32) -> Seq<u8>;

/// Relies on image::imageops::resize with the Catmull-Rom filter: it returns
/// an image of exactly the requested size, its pixels a function of the input.
#[verifier::external_body]
fn resize_height(img: &Bitmap, new_height: u32) -> (r: Bitmap)
    requires
        img.wf(),
    ensures
        r.width == img.width,
        r.height == new_height,
        r.wf(),
        r.data@ == resized_of(img.width, img.height, img.data@, new_height),
{
    let buf = image::RgbaImage::from_raw(img.width, img.height, img.data.clone()).unwrap();
    let out = image::imageops::resize(&buf, img.width, new_height, image::imageops::FilterType::CatmullRom);
    Bitmap { width: out.width(), height: out.height(), data: out.into_raw() }
}

/// The RGBA bytes that the recognizer reads for `img`: the image itself where
/// it is at most the input height, else the image resized to that height.
pub open spec fn rec_input_image(img: Bitmap) -> Seq<u8> {
    if img.height <= 48 {
        img.data@
    } else {
        resized_of(img.width, img.height, img.data@, 48)
    }
}

/// The text recognizer's character table and minimum score, and its numeric
/// stages. Scores are 32-bit floats held as their bit patterns.
pub struct Rec {
    /// The character table; index 0 is the blank.
    pub keys: Vec<char>,
    /// Bit pattern of the score that a kept character must exceed.
    pub min_score: u32,
}

impl Rec {
    /// A recognizer over the character table `keys`, with the default
    /// minimum score.
    pub fn new(keys: Vec<char>) -> (r: Self)
        ensures
            r.keys@ == keys@,
            r.min_score == MIN_SCORE_DEFAULT,
    {
        Rec { keys, min_score: MIN_SCORE_DEFAULT }
    }

    /// The character table for a vocabulary text, one symbol per line.
    pub fn keys_from_vocab(text: &str) -> (r: Vec<char>)
        ensures
            r@ == keys_spec(text@),
    {
        let n: usize = text.unicode_len();
        let mut body: Vec<char> = Vec::new();
        let mut i: usize = 0;
        while i < n
            invariant
                n == text@.len(),
                i <= n,
                body@ == strip_newlines(text@.subrange(0, i as int)),
            decreases n - i,
        {
            let c = text.get_char(i);
            proof {
                let s = text@.subrange(0, i + 1);
                assert(s.drop_last() =~= text@.subrange(0, i as int));
                assert(s.last() == c);
            }
            if c != '\n' {
                body.push(c);
            }
            i = i + 1;
        }
        proof {
            assert(text@.subrange(0, i as int) =~= text@);
        }
        let mut keys: Vec<char> = Vec::new();
        keys.push(' ');
        keys.append(&mut body);
        keys.push(' ');
        proof {
            assert(keys@ =~= keys_spec(text@));
        }
        keys
    }

    /// A recognizer whose table is built from a vocabulary text.
    pub fn from_vocab(text: &str) -> (r: Self)
        ensures
            r.keys@ == keys_spec(text@),
            r.min_score == MIN_SCORE_DEFAULT,
    {
        Rec::new(Rec::keys_from_vocab(text))
    }

    /// The same recognizer with another minimum score, given as the bit
    /// pattern of a 32-bit float.
    pub fn with_min_score(self, min_score: u32) -> (r: Self)
        ensures
            r.keys@ == self.keys@,
            r.min_score == min_score,
    {
        Rec { keys: self.keys, min_score }
    }

    /// The float `a > b` on bit patterns.
    fn score_gt(a: u32, b: u32) -> (r: bool)
        ensures
            r == float_gt(a, b),
    {
        let a_nan = a % 0x8000_0000 > 0x7F80_0000;
        let b_nan = b % 0x8000_0000 > 0x7F80_0000;
        let both_zero = a % 0x8000_0000 == 0 && b % 0x8000_0000 == 0;
        !a_nan && !b_nan && !both_zero && Rec::order_key(a) > Rec::order_key(b)
    }

    /// The position of `b` in the total order of 32-bit floats.
    fn order_key(b: u32) -> (r: u32)
        ensures
            r == total_key(b),
    {
        if b >= 0x8000_0000 {
            0xFFFF_FFFF - b
        } else {
            b + 0x8000_0000
        }
    }

    /// The first position of a greatest score of `row`, with that score.
    pub fn argmax(row: &Vec<u32>) -> (r: Option<(usize, u32)>)
        ensures
            r is None <==> argmax_spec(row@) is None,
            r is Some ==> argmax_spec(row@) == Some(((r->0).0 as int, (r->0).1)),
    {
        let mut best: Option<(usize, u32)> = None;
        let mut i: usize = 0;
        while i < row.len()
            invariant
                i <= row@.len(),
                best is None <==> argmax_spec(row@.subrange(0, i as int)) is None,
                best is Some ==> argmax_spec(row@.subrange(0, i as int)) == Some(((best->0).0 as int, (best->0).1)),
            decreases row@.len() - i,
        {
            let v = row[i];
            proof {
                let s = row@.subrange(0, i + 1);
                assert(s.drop_last() =~= row@.subrange(0, i as int));
                assert(s.last() == v);
            }
            best = match best {
                None => Some((i, v)),
                Some((j, s)) => if Rec::order_key(v) > Rec::order_key(s) {
                    Some((i, v))
                } else {
                    Some((j, s))
                },
            };
            i = i + 1;
        }
        proof {
            assert(row@.subrange(0, i as int) =~= row@);
        }
        best
    }

    /// Greedy decoding of the recognizer's scores, one row of scores per time
    /// step: each step yields its best character where that is not the blank
    /// and its score exceeds the minimum score.
    pub fn decode(&self, rows: &Vec<Vec<u32>>) -> (r: Vec<(char, u32)>)
        ensures
            r@ == decode_spec(rows@.map_values(|row: Vec<u32>| row@), self.keys@, self.min_score),
    {
        let ghost rs = rows@.map_values(|row: Vec<u32>| row@);
        let mut out: Vec<(char, u32)> = Vec::new();
        let mut t: usize = 0;
        while t < rows.len()
            invariant
                t <= rows@.len(),
                rs == rows@.map_values(|row: Vec<u32>| row@),
                rs.len() == rows@.len(),
                out@ == decode_spec(rs.subrange(0, t as int), self.keys@, self.min_score),
            decreases rows@.len() - t,
        {
            let row = &rows[t];
            proof {
                let s = rs.subrange(0, t + 1);
                assert(s.drop_last() =~= rs.subrange(0, t as int));
                assert(s.last() == row@);
            }
            match Rec::argmax(row) {
                Some((index, score)) => {
                    if index != 0 && Rec::score_gt(score, self.min_score) && index < self.keys.len() {
                        out.push((self.keys[index], score));
                    }
                },
                None => {},
            }
            t = t + 1;
        }
        proof {
            assert(rs.subrange(0, t as int) =~= rs);
        }
        out
    }

    /// The recognizer's input tensor for `img`: the input height by the
    /// image's width, the image resized to that height where it is taller.
    pub fn preprocess(img: &Bitmap) -> (r: Vec<Option<u8>>)
        requires
            img.wf(),
            3 * 48 * img.width <= usize::MAX,
        ensures
            r@ == layout_spec(
                rec_input_image(*img),
                img.width as int,
                if img.height <= 48 { img.height as int } else { 48 },
                48,
                img.width as int,
            ),
    {
        if img.height <= REC_HEIGHT {
            tensor_layout(img, REC_HEIGHT as usize, img.width as usize)
        } else {
            let resized = resize_height(img, REC_HEIGHT);
            tensor_layout(&resized, REC_HEIGHT as usize, img.width as usize)
        }
    }
}

} // verus!
