use mandelbrot::fixed::ONE;
use mandelbrot::kernel::mandelbrot_iter_fast;

fn fixed(x: f64) -> i64 {
    (x * ONE as f64) as i64
}

fn float_kernel(cx: f64, cy: f64, max_iter: u32) -> u32 {
    let (mut zx, mut zy) = (0.0f64, 0.0f64);
    for i in 0..max_iter {
        let next_x = zx * zx - zy * zy + cx;
        let next_y = 2.0 * zx * zy + cy;
        zx = next_x;
        zy = next_y;
        if zx * zx + zy * zy > 4.0 {
            return i;
        }
    }
    max_iter
}

#[test]
fn origin_is_interior() {
    assert_eq!(mandelbrot_iter_fast(0, 0, 256), 256);
    assert_eq!(mandelbrot_iter_fast(0, 0, 1), 1);
    assert_eq!(mandelbrot_iter_fast(0, 0, 0), 0);
}

#[test]
fn far_points_escape_at_once() {
    assert_eq!(mandelbrot_iter_fast(2 * ONE, 2 * ONE, 256), 0);
    assert_eq!(mandelbrot_iter_fast(3 * ONE, 0, 256), 0);
    assert_eq!(mandelbrot_iter_fast(0, -3 * ONE, 256), 0);
    assert_eq!(mandelbrot_iter_fast(2 * ONE + 1, 0, 256), 0);
    assert_eq!(mandelbrot_iter_fast(i64::MAX, i64::MIN, 256), 0);
    assert_eq!(mandelbrot_iter_fast(i64::MIN, i64::MIN, 1), 0);
    // just outside the disc, with both coordinates below 2
    assert_eq!(mandelbrot_iter_fast(fixed(1.5), fixed(1.5), 256), 0);
}

#[test]
fn the_bailout_is_strict() {
    // |z| = 2 is still inside: -2 goes to 2 and stays there.
    assert_eq!(mandelbrot_iter_fast(-2 * ONE, 0, 256), 256);
    // 2 goes to 6 with the second step.
    assert_eq!(mandelbrot_iter_fast(2 * ONE, 0, 256), 1);
}

#[test]
fn known_escape_times() {
    // 1 -> 2 -> 5
    assert_eq!(mandelbrot_iter_fast(ONE, 0, 256), 2);
    // 0.5 -> 0.75 -> 1.0625 -> 1.62890625 -> 3.15...
    assert_eq!(mandelbrot_iter_fast(ONE / 2, 0, 256), 4);
    // the limit cuts the orbit short
    assert_eq!(mandelbrot_iter_fast(ONE / 2, 0, 4), 4);
    assert_eq!(mandelbrot_iter_fast(ONE / 2, 0, 3), 3);
    assert_eq!(mandelbrot_iter_fast(ONE / 2, 0, 5), 4);
}

#[test]
fn known_interior_points() {
    assert_eq!(mandelbrot_iter_fast(-ONE, 0, 256), 256);
    assert_eq!(mandelbrot_iter_fast(0, ONE, 256), 256);
    assert_eq!(mandelbrot_iter_fast(ONE / 4, 0, 256), 256);
    assert_eq!(mandelbrot_iter_fast(fixed(-0.125), fixed(0.5), 1000), 1000);
}

#[test]
fn conjugate_points_agree() {
    for &(x, y) in &[(0.3, 0.5), (-0.75, 0.1), (-1.25, 0.3), (0.28, 0.53), (-0.1, 0.9)] {
        let up = mandelbrot_iter_fast(fixed(x), fixed(y), 256);
        let down = mandelbrot_iter_fast(fixed(x), -fixed(y), 256);
        assert_eq!(up, down);
    }
}

#[test]
fn agrees_with_floating_point_where_both_are_exact() {
    // On a grid of quarters the first four steps are exact in both
    // representations.
    for ix in -12..=12 {
        for iy in -12..=12 {
            let (cx, cy) = (ix as f64 / 4.0, iy as f64 / 4.0);
            for max_iter in 0..=4 {
                assert_eq!(
                    mandelbrot_iter_fast(fixed(cx), fixed(cy), max_iter),
                    float_kernel(cx, cy, max_iter),
                    "c = ({}, {}), limit {}",
                    cx,
                    cy,
                    max_iter
                );
            }
        }
    }
}

#[test]
fn agrees_with_floating_point_away_from_the_boundary() {
    let points = [
        (0.0, 0.0),
        (-1.0, 0.0),
        (-0.5, 0.5),
        (0.3, 0.0),
        (0.5, 0.5),
        (-2.2, 0.3),
        (1.0, 1.0),
        (0.4, 0.4),
        (-0.7, 0.5),
        (-1.6, 0.3),
    ];
    for &(cx, cy) in &points {
        assert_eq!(
            mandelbrot_iter_fast(fixed(cx), fixed(cy), 256),
            float_kernel(fixed(cx) as f64 / ONE as f64, fixed(cy) as f64 / ONE as f64, 256),
            "c = ({}, {})",
            cx,
            cy
        );
    }
}
