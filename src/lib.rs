//! Numeric pre- and post-processing around a text detector and a text
//! recognizer: image-to-tensor layout with size padding, extraction of text
//! rectangles from a probability map, and greedy decoding of per-step scores.
//!
//! The networks themselves run outside this library. Tensors are handed out
//! as raw channel bytes (`None` marks padding), and the networks' float
//! outputs come back as 8-bit luma values (detector) or as the bit patterns
//! of 32-bit floats (recognizer).
mod det;
mod rec;
mod tensor;

pub use det::{
    bbox, boxes_spec, contour_rect, contour_views, contours_in, contours_of, expand_spec,
    from_outer_large_contour, lemma_boxes_come_from_outer_large_contours,
    lemma_boxes_within_image, lemma_pad_length, luma_spec, pad_spec, raw_rect, Contour, Det,
    Rect, FOREGROUND_MIN, MIN_BOX_SIDE, PAD_UNIT, RECT_BORDER_SIZE,
};
pub use rec::{
    argmax_spec, decode_spec, float_gt, from_nonblank_step, is_nan_bits, is_zero_bits,
    keys_spec, lemma_decode_exceeds_min_score, lemma_decode_skips_blank, rec_input_image,
    resized_of, step_spec, strip_newlines, total_key, Rec, MIN_SCORE_DEFAULT, REC_HEIGHT,
};
pub use tensor::{crop_spec, layout_spec, lemma_full_image_has_no_padding, Bitmap};
