use geronimo_captcha::noise::{put_pixel, stamp_mark, stamp_marks, watermark_with_noise, Rgba};
use geronimo_captcha::{NoiseOptions, NoisePattern, RgbaCanvas};

const WHITE: Rgba = (255, 255, 255, 255);
const INK: Rgba = (1, 2, 3, 4);

fn canvas(width: u32, height: u32) -> RgbaCanvas {
    RgbaCanvas { width, height, pixels: vec![WHITE; (width * height) as usize] }
}

fn inked(c: &RgbaCanvas) -> Vec<(u32, u32)> {
    (0..c.pixels.len())
        .filter(|&p| c.pixels[p] == INK)
        .map(|p| (p as u32 % c.width, p as u32 / c.width))
        .collect()
}

#[test]
fn default_noise_options() {
    let o = NoiseOptions::default();
    assert_eq!(o.count, 2700);
    assert_eq!(o.size, 2);
    assert_eq!(o.alpha, 100);
    assert_eq!(o.color_range, (0, 255));
    assert_eq!(o.shape, NoisePattern::Grid);
    assert_eq!(o.blur_sigma_millis, 700);
    assert!(o.red && o.green && o.blue);
    assert_eq!(NoisePattern::default(), NoisePattern::Grid);
}

#[test]
fn put_pixel_sets_one_pixel() {
    let mut c = canvas(4, 3);
    put_pixel(&mut c, 3, 2, INK);
    assert_eq!(inked(&c), vec![(3, 2)]);
}

#[test]
fn dot_mark_is_one_pixel() {
    let mut c = canvas(5, 5);
    stamp_mark(&mut c, 2, 1, INK, NoisePattern::Dots, 3);
    assert_eq!(inked(&c), vec![(2, 1)]);
}

#[test]
fn line_mark_is_clipped_at_width() {
    let mut c = canvas(5, 3);
    stamp_mark(&mut c, 3, 1, INK, NoisePattern::Lines, 4);
    assert_eq!(inked(&c), vec![(3, 1), (4, 1)]);
}

#[test]
fn grid_mark_is_clipped_at_both_edges() {
    let mut c = canvas(5, 4);
    stamp_mark(&mut c, 3, 2, INK, NoisePattern::Grid, 3);
    assert_eq!(inked(&c), vec![(3, 2), (4, 2), (3, 3), (4, 3)]);
    let mut d = canvas(5, 5);
    stamp_mark(&mut d, 0, 0, INK, NoisePattern::Grid, 2);
    assert_eq!(inked(&d), vec![(0, 0), (1, 0), (0, 1), (1, 1)]);
}

#[test]
fn noise_colours_obey_options() {
    let mut c = canvas(30, 20);
    let opts = NoiseOptions {
        count: 200,
        size: 2,
        blur_sigma_millis: 0,
        alpha: 77,
        color_range: (10, 20),
        shape: NoisePattern::Grid,
        red: true,
        green: false,
        blue: true,
    };
    watermark_with_noise(&mut c, opts);
    assert_eq!(c.pixels.len(), 600);
    let marked: Vec<&Rgba> = c.pixels.iter().filter(|p| **p != WHITE).collect();
    assert!(!marked.is_empty());
    for p in marked {
        assert!((10..=20).contains(&p.0) && p.1 == 0 && (10..=20).contains(&p.2) && p.3 == 77);
    }
}

#[test]
fn noise_on_empty_canvas_does_nothing() {
    let mut c = canvas(0, 7);
    watermark_with_noise(&mut c, NoiseOptions::default());
    assert!(c.pixels.is_empty());
}

#[test]
fn zero_marks_leave_the_canvas_unchanged() {
    let mut c = canvas(6, 4);
    c.pixels[5] = INK;
    let before = c.pixels.clone();
    let opts = NoiseOptions { count: 0, ..NoiseOptions::default() };
    watermark_with_noise(&mut c, opts);
    assert_eq!(c.pixels, before);
}

#[test]
fn later_marks_cover_earlier_ones() {
    let mut c = canvas(4, 4);
    let other: Rgba = (9, 9, 9, 9);
    stamp_marks(&mut c, &vec![(0, 0, INK), (1, 1, other)], NoisePattern::Grid, 2);
    assert_eq!(inked(&c), vec![(0, 0), (1, 0), (0, 1)]);
    assert_eq!(c.pixels[5], other);
    assert_eq!(c.pixels.iter().filter(|p| **p == other).count(), 4);
}

#[test]
fn marks_bound_the_changed_pixels() {
    let mut c = canvas(40, 40);
    let opts = NoiseOptions { count: 5, size: 3, ..NoiseOptions::default() };
    watermark_with_noise(&mut c, opts);
    let changed = c.pixels.iter().filter(|p| **p != WHITE).count();
    assert!(changed <= 5 * 9);
}
