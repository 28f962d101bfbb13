use mandelbrot::fixed::{EXTENT, ONE};
use mandelbrot::policy::{select_mode, ComputeMode};
use mandelbrot::viewport::{
    Viewport, DEFAULT_X_MAX, DEFAULT_X_MIN, DEFAULT_Y_MAX, DEFAULT_Y_MIN, REFERENCE_WIDTH,
};

fn zoom_value(view: &Viewport) -> f64 {
    let z = view.zoom_factor();
    z.numerator as f64 / z.denominator as f64
}

#[test]
fn initial_view() {
    let view = Viewport::new();
    assert_eq!(view.x_min as f64 / ONE as f64, -2.5);
    assert_eq!(view.x_max as f64 / ONE as f64, 1.0);
    assert_eq!(view.y_min as f64 / ONE as f64, -1.5);
    assert_eq!(view.y_max as f64 / ONE as f64, 1.5);
    assert_eq!(view.precision, 128);
    assert_eq!(view.width(), 7 * (ONE / 2));
    assert_eq!(view.height(), 3 * ONE);
    assert_eq!(view.center(), (-3 * (ONE / 4), 0));
    let zoom = view.zoom_factor();
    assert_eq!((zoom.numerator, zoom.denominator), (REFERENCE_WIDTH, REFERENCE_WIDTH));
    assert_eq!(REFERENCE_WIDTH as i64, DEFAULT_X_MAX - DEFAULT_X_MIN);
    assert_eq!(DEFAULT_Y_MAX, -DEFAULT_Y_MIN);
}

#[test]
fn pixels_interpolate_between_the_bounds() {
    let view = Viewport::new();
    assert_eq!(view.pixel_to_plane(0, 0, 800, 600), (view.x_min, view.y_max));
    assert_eq!(view.pixel_to_plane(800, 600, 800, 600), (view.x_max, view.y_min));
    assert_eq!(view.pixel_to_plane(400, 300, 800, 600), (-3 * (ONE / 4), 0));
    assert_eq!(view.pixel_to_plane(100, 75, 200, 150), (-3 * (ONE / 4), 0));
    assert_eq!(
        view.pixel_to_plane(1, 1, 800, 600),
        (-179828733120903906, 107726103086702265)
    );
    assert_eq!(view.pixel_to_plane(343, 300, 800, 600), (-72012558041654232, 0));
}

#[test]
fn zoom_recentres_and_scales() {
    let mut view = Viewport::new();
    view.zoom(-ONE, 0, 4, 5);
    assert_eq!(
        view,
        Viewport {
            x_min: -172938225691027046,
            x_max: 28823037615171174,
            y_min: -86469112845513523,
            y_max: 86469112845513523,
            precision: 128
        }
    );
    assert_eq!(view.center(), (-ONE, 0));
    assert_eq!(zoom_value(&view), 1.25);
}

#[test]
fn zoom_in_then_out_restores_the_view() {
    let start = Viewport::new();
    let (cx, cy) = start.center();
    let mut view = start;
    view.zoom(cx, cy, 1, 2);
    assert_eq!(view.width(), start.width() / 2);
    assert_eq!(view.height(), start.height() / 2);
    view.zoom(cx, cy, 2, 1);
    assert_eq!(view, start);

    let odd = Viewport { x_min: -7, x_max: 8, y_min: 0, y_max: 5, precision: 128 };
    let (cx, cy) = odd.center();
    let mut view = odd;
    view.zoom(cx, cy, 1, 2);
    view.zoom(cx, cy, 2, 1);
    assert_eq!(view.x_min, odd.x_min);
    assert_eq!(view.y_min, odd.y_min);
    assert_eq!(view.x_max, odd.x_max - 1);
    assert_eq!(view.y_max, odd.y_max - 1);
}

#[test]
fn pan_keeps_width_and_height() {
    let mut view = Viewport::new();
    let (w, h) = (view.width(), view.height());
    view.pan(ONE / 3, -ONE / 7);
    assert_eq!(view.width(), w);
    assert_eq!(view.height(), h);
    assert_eq!(view.center(), (ONE / 3, -ONE / 7));
    assert_eq!(view.precision, 128);
    let before = view;
    let (cx, cy) = view.center();
    view.pan(cx, cy);
    assert_eq!(view, before);
}

#[test]
fn reset_restores_the_initial_view() {
    let mut view = Viewport::new();
    for _ in 0..140 {
        view.zoom(-ONE, 0, 4, 5);
    }
    assert_eq!(view.precision, 256);
    view.reset();
    assert_eq!(view, Viewport::new());
}

#[test]
fn changes_that_leave_no_viewport_are_not_made() {
    let start = Viewport::new();
    let mut view = start;
    view.zoom(0, 0, 1, 0);
    assert_eq!(view, start);
    view.zoom(0, 0, 0, 1);
    assert_eq!(view, start);
    view.zoom(EXTENT, 0, 1, 1);
    assert_eq!(view, start);
    view.zoom(0, -EXTENT, 1, 1);
    assert_eq!(view, start);
    view.zoom(i64::MAX, i64::MIN, 1, 1);
    assert_eq!(view, start);
    view.zoom(0, 0, u32::MAX, 1);
    assert_eq!(view, start);
    view.pan(EXTENT, EXTENT);
    assert_eq!(view, start);
    let mut tiny = Viewport { x_min: 0, x_max: 1, y_min: 0, y_max: 1, precision: 128 };
    let before = tiny;
    tiny.zoom(0, 0, 4, 5);
    assert_eq!(tiny, before);
}

#[test]
fn zooming_out_stops_at_the_extent() {
    let mut view = Viewport::new();
    let mut steps = 0;
    loop {
        let before = view;
        view.zoom(0, 0, 5, 4);
        if view == before {
            break;
        }
        steps += 1;
    }
    assert_eq!(steps, 13);
    assert_eq!(view.x_max, 2293760000000000000);
    assert_eq!(view.y_max, 1966080000000000000);
    assert!(view.x_max <= EXTENT && view.x_min >= -EXTENT);
}

#[test]
fn five_steps_in_keep_the_fastest_mode() {
    let mut view = Viewport::new();
    let fastest_with_device = select_mode(view.zoom_factor(), true);
    let fastest_without = select_mode(view.zoom_factor(), false);
    assert_eq!(fastest_with_device, ComputeMode::Gpu);
    assert_eq!(fastest_without, ComputeMode::CpuF64);
    for _ in 0..5 {
        view.zoom(-ONE, 0, 4, 5);
        assert_eq!(select_mode(view.zoom_factor(), true), fastest_with_device);
        assert_eq!(select_mode(view.zoom_factor(), false), fastest_without);
        assert_eq!(view.precision, 128);
    }
    assert_eq!(view.width(), 82641413450218790);
    assert!((zoom_value(&view) - 3.0517578125).abs() < 1e-12);
    assert!(zoom_value(&view) > 1.0);
    assert_eq!(view.x_min, -113378300763037331);
    assert_eq!(view.x_max, -30736887312818541);
}

#[test]
fn deep_zoom_escalates_the_precision() {
    let mut view = Viewport::new();
    let mut last_precision = view.precision;
    let mut steps = 0;
    let mut first_device_loss = 0;
    let mut first_high_precision = 0;
    loop {
        let before = view;
        view.zoom(-ONE, 0, 4, 5);
        if view == before {
            break;
        }
        steps += 1;
        let zoom = zoom_value(&view);
        let mode = select_mode(view.zoom_factor(), true);
        if mode != ComputeMode::Gpu && first_device_loss == 0 {
            first_device_loss = steps;
        }
        if zoom > 1e13 {
            if first_high_precision == 0 {
                first_high_precision = steps;
            }
            assert_eq!(mode, ComputeMode::CpuHighPrecision);
            assert_eq!(select_mode(view.zoom_factor(), false), ComputeMode::CpuHighPrecision);
            assert!(view.precision as f64 >= 64.0 + 3.5 * zoom.log2());
            assert!(view.precision.is_power_of_two());
        } else {
            assert_ne!(mode, ComputeMode::CpuHighPrecision);
            assert_eq!(view.precision, 128);
        }
        assert!(view.precision >= last_precision);
        last_precision = view.precision;
    }
    assert_eq!(first_device_loss, 62);
    assert_eq!(first_high_precision, 135);
    assert_eq!(steps, 174);
    assert_eq!(view.precision, 512);
    assert_eq!(view.width(), 2);
}

#[test]
fn pixels_beyond_the_grid_map_beyond_the_view() {
    let view = Viewport::new();
    assert_eq!(view.pixel_to_plane_unbounded(0, 0, 800, 600), (view.x_min as i128, view.y_max as i128));
    assert_eq!(
        view.pixel_to_plane_unbounded(800, 600, 800, 600),
        (view.x_max as i128, view.y_min as i128)
    );
    assert_eq!(
        view.pixel_to_plane_unbounded(343, 300, 800, 600),
        (-72012558041654232, 0)
    );
    assert_eq!(
        view.pixel_to_plane_unbounded(1600, 1200, 800, 600),
        (view.x_min as i128 + 2 * view.width() as i128, view.y_max as i128 - 2 * view.height() as i128)
    );
    let (re, im) = view.pixel_to_plane_unbounded(u32::MAX, u32::MAX, 1, 1);
    assert_eq!(re, view.x_min as i128 + view.width() as i128 * u32::MAX as i128);
    assert_eq!(im, view.y_max as i128 - view.height() as i128 * u32::MAX as i128);
}

#[test]
fn settling_raises_the_bit_width_and_keeps_the_bounds() {
    let mut view = Viewport { x_min: 0, x_max: 14336, y_min: 0, y_max: 12288, precision: 128 };
    view.settle_precision();
    assert_eq!(view, Viewport { x_min: 0, x_max: 14336, y_min: 0, y_max: 12288, precision: 256 });
    view.settle_precision();
    assert_eq!(view.precision, 256);
    let mut shallow = Viewport::new();
    shallow.settle_precision();
    assert_eq!(shallow, Viewport::new());
    let mut kept = Viewport { precision: 1024, ..view };
    kept.settle_precision();
    assert_eq!(kept.precision, 1024);
}
