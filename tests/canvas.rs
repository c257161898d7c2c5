use attractor::canvas::{ONE, UNSET_MAX, UNSET_MIN};
use attractor::{AttractorObj, CanvasError, FrameBudget, Point, Rgba, BATCH};

const A: f64 = -2.3983540752995394;
const B: f64 = -1.8137134453341095;
const C: f64 = 0.010788338377923257;
const D: f64 = 1.0113015602664608;

fn to_fixed(v: f64) -> i64 {
    (v * ONE as f64).round() as i64
}

fn orbit(n: usize) -> Vec<Point> {
    let (mut x, mut y) = (0.1f64, 0.1f64);
    let mut out = Vec::new();
    for _ in 0..n {
        out.push(Point(to_fixed(x), to_fixed(y)));
        let nx = (B * y).sin() - C * (B * x).sin();
        let ny = (A * x).sin() + D * (A * y).cos();
        x = nx;
        y = ny;
    }
    out
}

fn canvas(w: u32, h: u32) -> AttractorObj {
    match AttractorObj::new(w, h) {
        Ok(c) => c,
        Err(e) => panic!("canvas refused: {:?}", e),
    }
}

/// A canvas whose window is [0, 1] on both axes.
fn unit_canvas(w: u32, h: u32) -> AttractorObj {
    let mut c = canvas(w, h);
    c.calibrate(&[Point(0, 0), Point(ONE, ONE)]);
    c
}

fn level(c: &AttractorObj, col: u32, row: u32) -> u8 {
    c.pixels()[(row * c.width() + col) as usize].r
}

#[test]
fn new_refuses_empty_canvas() {
    assert_eq!(AttractorObj::new(0, 5).err(), Some(CanvasError::EmptyCanvas));
    assert_eq!(AttractorObj::new(5, 0).err(), Some(CanvasError::EmptyCanvas));
    assert_eq!(AttractorObj::new(0, 0).err(), Some(CanvasError::EmptyCanvas));
}

#[test]
fn fresh_canvas_is_white_and_unset() {
    let c = canvas(4, 3);
    assert_eq!(c.width(), 4);
    assert_eq!(c.height(), 3);
    assert_eq!(c.pixels().len(), 12);
    let white = Rgba { r: 255, g: 255, b: 255, alpha: 255 };
    assert!(c.pixels().iter().all(|p| *p == white));
    assert_eq!(c.getn_touched(), 0);
    assert_eq!(c.getn_maxed(), 0);
    assert_eq!(c.iters(), 0);
    assert_eq!(c.bounds(), (UNSET_MIN, UNSET_MAX, UNSET_MIN, UNSET_MAX));
    assert_eq!(UNSET_MIN, 10 * ONE);
    assert!(!c.is_calibrated());
}

#[test]
fn render_before_calibration_fails() {
    let mut c = canvas(4, 4);
    assert_eq!(c.render(&[Point(0, 0)]), Err(CanvasError::NotCalibrated));
    assert_eq!(c.getn_touched(), 0);
    assert!(c.pixels().iter().all(|p| p.r == 255));
}

#[test]
fn calibration_without_spread_is_not_enough() {
    let mut c = canvas(4, 4);
    c.calibrate(&[]);
    assert_eq!(c.render(&[Point(0, 0)]), Err(CanvasError::NotCalibrated));
    c.calibrate(&[Point(0, 0)]);
    assert_eq!(c.bounds(), (0, 0, 0, 0));
    assert_eq!(c.render(&[Point(0, 0)]), Err(CanvasError::NotCalibrated));
    c.calibrate(&[Point(ONE, 0)]);
    assert_eq!(c.render(&[Point(0, 0)]), Err(CanvasError::NotCalibrated));
    c.calibrate(&[Point(0, ONE)]);
    assert!(c.is_calibrated());
    assert_eq!(c.render(&[Point(0, 0)]), Ok(()));
}

#[test]
fn calibration_takes_extremes_and_keeps_widening() {
    let mut c = canvas(2, 2);
    c.calibrate(&[Point(3, -7), Point(-5, 2), Point(1, 9)]);
    assert_eq!(c.bounds(), (-5, 3, -7, 9));
    c.calibrate(&[Point(0, 0), Point(4, 1)]);
    assert_eq!(c.bounds(), (-5, 4, -7, 9));
    assert!(c.pixels().iter().all(|p| p.r == 255));
    assert_eq!(c.getn_touched(), 0);
}

#[test]
fn sentinel_bound_stays_when_no_sample_passes_it() {
    let mut c = canvas(2, 2);
    c.calibrate(&[Point(20 * ONE, 0), Point(30 * ONE, ONE)]);
    assert_eq!(c.bounds(), (10 * ONE, 30 * ONE, 0, ONE));
}

#[test]
fn bounding_box_of_ten_thousand_samples() {
    let mut c = canvas(100, 100);
    c.calibrate(&orbit(10_000));
    let (xmin, xmax, ymin, ymax) = c.bounds();
    let real = |v: i64| v as f64 / ONE as f64;
    assert!((real(xmin) - (-1.0108)).abs() <= 1e-3);
    assert!((real(xmax) - 1.0107).abs() <= 1e-3);
    assert!((real(ymin) - (-2.0113)).abs() <= 1e-3);
    assert!((real(ymax) - 2.0110).abs() <= 1e-3);
}

#[test]
fn mapping_boundaries() {
    let c = unit_canvas(10, 5);
    assert_eq!(c.pixelx(ONE), 9);
    assert_eq!(c.pixely(ONE), 4);
    assert_eq!(c.pixelx(0), 0);
    assert_eq!(c.pixely(0), 0);
    assert_eq!(c.pixelx(-ONE), 0);
    assert_eq!(c.pixely(-3 * ONE), 0);
    assert_eq!(c.pixelx(5 * ONE), 9);
    assert_eq!(c.pixely(i64::MAX), 4);
    assert_eq!(c.pixelx(i64::MIN), 0);
}

#[test]
fn mapping_formula_values() {
    let c = unit_canvas(10, 5);
    // floor(0.55 * 10) = 5, floor(0.55 * 5) = 2
    let v = ONE / 100 * 55;
    assert_eq!(c.pixelx(v), 5);
    assert_eq!(c.pixely(v), 2);
    // just below a cell border stays in the cell before it
    assert_eq!(c.pixelx(3 * ONE / 10), 2);
    assert_eq!(c.pixelx(3 * ONE / 10 + 1), 3);
    let mut d = canvas(8, 8);
    d.calibrate(&[Point(-2 * ONE, -ONE), Point(2 * ONE, ONE)]);
    assert_eq!(d.pixelx(0), 4);
    assert_eq!(d.pixely(-ONE / 2), 2);
}

#[test]
fn decay_counts_touched_and_maxed() {
    let mut c = unit_canvas(3, 2);
    c.dec_pixel(2, 1);
    assert_eq!(level(&c, 2, 1), 254);
    assert_eq!(c.getn_touched(), 1);
    assert_eq!(c.getn_maxed(), 0);
    for _ in 0..253 {
        c.dec_pixel(2, 1);
    }
    assert_eq!(level(&c, 2, 1), 1);
    assert_eq!(c.getn_touched(), 1);
    assert_eq!(c.getn_maxed(), 0);
    c.dec_pixel(2, 1);
    assert_eq!(level(&c, 2, 1), 0);
    assert_eq!(c.getn_maxed(), 1);
    let p = c.pixels()[5];
    assert_eq!(p, Rgba { r: 0, g: 0, b: 0, alpha: 255 });
    c.dec_pixel(2, 1);
    assert_eq!(level(&c, 2, 1), 0);
    assert_eq!(c.getn_touched(), 1);
    assert_eq!(c.getn_maxed(), 1);
    c.dec_pixel(0, 0);
    assert_eq!(c.getn_touched(), 2);
    assert_eq!(c.getn_maxed(), 1);
    assert_eq!(level(&c, 0, 0), 254);
}

#[test]
fn render_paints_the_mapped_pixels() {
    let mut c = unit_canvas(4, 4);
    let pts = [Point(ONE, ONE), Point(ONE, ONE), Point(0, 0), Point(ONE / 2, ONE / 4)];
    assert_eq!(c.render(&pts), Ok(()));
    assert_eq!(level(&c, 3, 3), 253);
    assert_eq!(level(&c, 0, 0), 254);
    assert_eq!(level(&c, 2, 1), 254);
    assert_eq!(c.getn_touched(), 3);
    assert_eq!(c.getn_maxed(), 0);
    let untouched = c.pixels().iter().filter(|p| p.r == 255).count();
    assert_eq!(untouched, 13);
    assert!(c.pixels().iter().all(|p| p.r == p.g && p.g == p.b && p.alpha == 255));
}

#[test]
fn levels_never_rise_over_renders() {
    let mut c = canvas(16, 16);
    let pts = orbit(20_000);
    c.calibrate(&pts[..5_000]);
    let mut prev: Vec<u8> = c.pixels().iter().map(|p| p.r).collect();
    let (mut touched, mut maxed) = (0, 0);
    for chunk in pts[5_000..].chunks(1_500) {
        assert_eq!(c.render(chunk), Ok(()));
        let now: Vec<u8> = c.pixels().iter().map(|p| p.r).collect();
        for (a, b) in prev.iter().zip(now.iter()) {
            assert!(b <= a);
        }
        assert!(c.getn_touched() >= touched);
        assert!(c.getn_maxed() >= maxed);
        assert!(c.getn_maxed() <= c.getn_touched());
        assert!(c.getn_touched() <= 16 * 16);
        touched = c.getn_touched();
        maxed = c.getn_maxed();
        prev = now;
    }
    assert!(maxed > 0);
    assert_eq!(touched as usize, prev.iter().filter(|r| **r < 255).count());
    assert_eq!(maxed as usize, prev.iter().filter(|r| **r == 0).count());
}

#[test]
fn iteration_count_is_the_callers() {
    let mut c = canvas(2, 2);
    c.set_iters(4096);
    assert_eq!(c.iters(), 4096);
    assert_eq!(c.getn_touched(), 0);
    assert!(c.free_pixels());
    assert_eq!(c.pixels().len(), 4);
}

#[test]
fn frame_budget_stops_when_time_is_spent() {
    let mut f = FrameBudget::new(10);
    assert_eq!(f.loop_count(), 0);
    assert!(f.batch_done(3));
    assert_eq!(f.loop_count(), BATCH);
    assert!(f.batch_done(9));
    assert!(!f.batch_done(10));
    assert_eq!(f.loop_count(), 3 * 1024);
}

#[test]
fn frame_budget_counts_one_batch_on_no_budget() {
    let mut f = FrameBudget::new(0);
    assert!(!f.batch_done(0));
    assert_eq!(f.loop_count(), 1024);
    let mut g = FrameBudget::new(-5);
    assert!(!g.batch_done(0));
    assert_eq!(g.loop_count(), 1024);
}

#[test]
fn frame_budget_count_never_wraps() {
    let mut f = FrameBudget::new(i32::MAX);
    let mut batches = 0u32;
    while f.batch_done(0) {
        batches += 1;
    }
    assert_eq!(batches, (i32::MAX / 1024) as u32 - 1);
    assert_eq!(f.loop_count(), i32::MAX / 1024 * 1024);
    assert!(!f.batch_done(0));
    assert_eq!(f.loop_count(), i32::MAX);
}
