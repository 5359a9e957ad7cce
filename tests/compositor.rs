use editor::compositor::{composite_color, composite_scalar, composite_wide};

/// A small linear congruential generator, so that the samples are fixed.
struct Lcg(u64);

impl Lcg {
    fn next_byte(&mut self) -> u8 {
        self.0 = self.0.wrapping_mul(6364136223846793005).wrapping_add(1442695040888963407);
        (self.0 >> 33) as u8
    }
}

fn by_formula(mask: &[u8], textcolor: [u8; 4], destcolor: [u8; 4]) -> Vec<u8> {
    mask.iter()
        .enumerate()
        .map(|(i, &m)| composite_color(textcolor[i % 4], textcolor[3], m, destcolor[i % 4]))
        .collect()
}

fn both_paths(mask: &[u8], textcolor: [u8; 4], destcolor: [u8; 4]) -> (Vec<u8>, Vec<u8>) {
    let mut scalar = mask.to_vec();
    composite_scalar(&mut scalar, textcolor, destcolor);
    let mut wide = mask.to_vec();
    composite_wide(&mut wide, textcolor, destcolor);
    (scalar, wide)
}

#[test]
fn formula_exact_values() {
    assert_eq!(composite_color(30, 255, 255, 230), 29);
    assert_eq!(composite_color(30, 255, 0, 230), 229);
    assert_eq!(composite_color(0, 255, 128, 230), 114);
    assert_eq!(composite_color(200, 100, 77, 13), 71);
    assert_eq!(composite_color(255, 255, 255, 255), 254);
    assert_eq!(composite_color(0, 0, 0, 0), 0);
}

#[test]
fn formula_narrows_a_sum_past_sixteen_bits() {
    // 255 * 255 + 255 * 255 = 130050; 130050 >> 8 = 508, narrowed to 252.
    assert_eq!(composite_color(255, 0, 255, 255), 252);
}

#[test]
fn boundary_zero_coverage_and_full_coverage() {
    for v in 0..=255u8 {
        let lowered = if v == 0 { 0 } else { v - 1 };
        for textalpha in [0u8, 1, 128, 255] {
            assert_eq!(composite_color(77, textalpha, 0, v), lowered);
        }
        assert_eq!(composite_color(v, 255, 255, 200), lowered);
    }
    assert_eq!(composite_color(9, 40, 0, 0), 0);
    assert_eq!(composite_color(0, 255, 255, 31), 0);
}

#[test]
fn wide_and_scalar_agree_on_extremes_and_samples() {
    let extremes = [0u8, 255];
    let mut cases: Vec<(u8, u8, u8, u8)> = Vec::new();
    for &a in &extremes {
        for &b in &extremes {
            for &m in &extremes {
                for &t in &extremes {
                    cases.push((a, b, m, t));
                }
            }
        }
    }
    let mut rng = Lcg(0x5eed);
    for _ in 0..200 {
        cases.push((rng.next_byte(), rng.next_byte(), rng.next_byte(), rng.next_byte()));
    }
    for (a, b, m, t) in cases {
        let textcolor = [a, a, a, t];
        let destcolor = [b, b, b, b];
        let mask = [m; 16];
        let (scalar, wide) = both_paths(&mask, textcolor, destcolor);
        assert_eq!(scalar, wide);
        assert_eq!(scalar, by_formula(&mask, textcolor, destcolor));
        assert_eq!(scalar[0], composite_color(a, t, m, b));
        assert_eq!(scalar[3], composite_color(t, t, m, b));
    }
}

#[test]
fn wide_and_scalar_agree_on_mixed_masks() {
    let mut rng = Lcg(7);
    for len in [16usize, 32, 48, 64] {
        let mask: Vec<u8> = (0..len).map(|_| rng.next_byte()).collect();
        let textcolor = [rng.next_byte(), rng.next_byte(), rng.next_byte(), rng.next_byte()];
        let destcolor = [rng.next_byte(), rng.next_byte(), rng.next_byte(), rng.next_byte()];
        let (scalar, wide) = both_paths(&mask, textcolor, destcolor);
        assert_eq!(scalar, wide);
        assert_eq!(wide, by_formula(&mask, textcolor, destcolor));
    }
}

#[test]
fn tails_of_one_three_and_five_pixels() {
    let mut rng = Lcg(99);
    let textcolor = [30, 30, 30, 255];
    let destcolor = [230, 230, 230, 255];
    for width in [1usize, 3, 5] {
        let mask: Vec<u8> = (0..width * 4).map(|_| rng.next_byte()).collect();
        let (scalar, wide) = both_paths(&mask, textcolor, destcolor);
        assert_eq!(wide.len(), width * 4);
        assert_eq!(scalar, wide);
        assert_eq!(wide, by_formula(&mask, textcolor, destcolor));
    }
}

#[test]
fn tail_after_whole_blocks() {
    let mut rng = Lcg(3);
    for len in [17usize, 20, 31, 36] {
        let mask: Vec<u8> = (0..len).map(|_| rng.next_byte()).collect();
        let (scalar, wide) = both_paths(&mask, [10, 20, 30, 200], [250, 240, 230, 255]);
        assert_eq!(scalar, wide);
        assert_eq!(wide, by_formula(&mask, [10, 20, 30, 200], [250, 240, 230, 255]));
    }
}

#[test]
fn empty_mask_stays_empty() {
    let (scalar, wide) = both_paths(&[], [1, 2, 3, 4], [5, 6, 7, 8]);
    assert!(scalar.is_empty());
    assert!(wide.is_empty());
}

#[test]
fn one_pixel_exact_bytes() {
    let mut px = vec![255, 0, 128, 255];
    composite_wide(&mut px, [30, 30, 30, 255], [230, 230, 230, 255]);
    assert_eq!(px, vec![29, 229, 129, 254]);
}
