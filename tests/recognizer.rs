use paddle_ocr::{Bitmap, Rec, MIN_SCORE_DEFAULT};

fn keys() -> Vec<char> {
    vec![' ', 'a', 'b', 'c', ' ']
}

fn row(scores: &[f32]) -> Vec<u32> {
    scores.iter().map(|s| s.to_bits()).collect()
}

#[test]
fn default_min_score_is_0_8() {
    assert_eq!(f32::from_bits(MIN_SCORE_DEFAULT), 0.8f32);
    assert_eq!(Rec::new(keys()).min_score, 0.8f32.to_bits());
}

#[test]
fn keys_are_wrapped_in_blanks() {
    assert_eq!(Rec::keys_from_vocab("ab\nc\n"), vec![' ', 'a', 'b', 'c', ' ']);
    assert_eq!(Rec::keys_from_vocab(""), vec![' ', ' ']);
    let rec = Rec::from_vocab("x\ny");
    assert_eq!(rec.keys, vec![' ', 'x', 'y', ' ']);
}

#[test]
fn decode_picks_best_character_per_step() {
    let rec = Rec::new(keys());
    let rows = vec![
        row(&[0.0, 0.9, 0.05, 0.05, 0.0]),
        row(&[0.0, 0.05, 0.05, 0.95, 0.0]),
        row(&[0.0, 0.9, 0.05, 0.05, 0.0]),
    ];
    let out = rec.decode(&rows);
    assert_eq!(out, vec![('a', 0.9f32.to_bits()), ('c', 0.95f32.to_bits()), ('a', 0.9f32.to_bits())]);
}

#[test]
fn decode_drops_blank_steps() {
    let rec = Rec::new(keys());
    let rows = vec![row(&[0.99, 0.0, 0.0, 0.0, 0.0]), row(&[0.0, 0.0, 0.99, 0.0, 0.0])];
    assert_eq!(rec.decode(&rows), vec![('b', 0.99f32.to_bits())]);
}

#[test]
fn decode_threshold_is_exclusive() {
    let rec = Rec::new(keys());
    let rows: Vec<Vec<u32>> = (0..10).map(|_| row(&[0.1, 0.8, 0.05, 0.05, 0.0])).collect();
    assert!(rec.decode(&rows).is_empty());
}

#[test]
fn decode_with_custom_min_score() {
    let rec = Rec::new(keys()).with_min_score(0.5f32.to_bits());
    let rows = vec![row(&[0.1, 0.6, 0.05, 0.05, 0.0]), row(&[0.1, 0.4, 0.05, 0.05, 0.0])];
    assert_eq!(rec.decode(&rows), vec![('a', 0.6f32.to_bits())]);
}

#[test]
fn decode_ties_go_to_the_first_index() {
    let rec = Rec::new(keys());
    let rows = vec![row(&[0.0, 0.0, 0.9, 0.9, 0.0])];
    assert_eq!(rec.decode(&rows), vec![('b', 0.9f32.to_bits())]);
    assert_eq!(Rec::argmax(&row(&[0.3, 0.9, 0.9])), Some((1, 0.9f32.to_bits())));
    assert_eq!(Rec::argmax(&vec![]), None);
}

#[test]
fn decode_drops_indices_past_the_table() {
    let rec = Rec::new(vec![' ', 'a']);
    let rows = vec![row(&[0.0, 0.0, 0.99]), row(&[0.0, 0.99, 0.0])];
    assert_eq!(rec.decode(&rows), vec![('a', 0.99f32.to_bits())]);
    assert!(rec.decode(&vec![vec![]]).is_empty());
}

#[test]
fn decode_compares_scores_as_floats() {
    let rec = Rec::new(keys()).with_min_score(0.0f32.to_bits());
    assert!(rec.decode(&vec![row(&[-1.0, -0.0, -2.0])]).is_empty());
    assert!(rec.decode(&vec![row(&[-1.0, f32::NAN, -2.0])]).is_empty());
    assert_eq!(rec.decode(&vec![row(&[-1.0, 0.5, -2.0])]), vec![('a', 0.5f32.to_bits())]);
    assert_eq!(rec.decode(&vec![row(&[-1.0, -0.5, -0.25])]), Vec::new());
    assert_eq!(Rec::argmax(&row(&[-3.0, -0.5, -0.25, -1.0])), Some((2, (-0.25f32).to_bits())));
}

#[test]
fn short_image_keeps_its_rows() {
    let img = Bitmap { width: 2, height: 1, data: vec![10, 20, 30, 255, 40, 50, 60, 255] };
    let t = Rec::preprocess(&img);
    assert_eq!(t.len(), 3 * 48 * 2);
    assert_eq!(t[0], Some(10));
    assert_eq!(t[1], Some(40));
    assert_eq!(t[48 * 2 + 1], Some(50));
    assert_eq!(t[2 * 48 * 2], Some(30));
    assert_eq!(t[2], None);
    assert!(t.iter().filter(|v| v.is_some()).count() == 6);
}

#[test]
fn tall_image_is_resized_to_48_rows() {
    let (w, h) = (3u32, 60u32);
    let mut data = Vec::new();
    for y in 0..h {
        for _ in 0..w {
            let v = (y * 4) as u8;
            data.extend_from_slice(&[v, v, v, 255]);
        }
    }
    let img = Bitmap { width: w, height: h, data };
    let t = Rec::preprocess(&img);
    assert_eq!(t.len(), 3 * 48 * 3);
    assert!(t.iter().all(|v| v.is_some()));
    let last_row = t[47 * 3].unwrap();
    assert!(last_row > 200, "{}", last_row);
    assert!(t[0].unwrap() < 10);
}
