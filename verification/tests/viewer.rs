use mandelbrot::colors::iter_to_color_u32;
use mandelbrot::fixed::ONE;
use mandelbrot::legend::draw_colorbar;
use mandelbrot::policy::ComputeMode;
use mandelbrot::render::DeviceParams;
use mandelbrot::viewer::{RenderStep, ViewerState, ZoomDirection};
use mandelbrot::viewport::Viewport;

#[test]
fn a_new_viewer_waits_for_its_first_frame() {
    let state = ViewerState::new(true);
    assert_eq!(state.view, Viewport::new());
    assert_eq!(state.compute_mode, ComputeMode::Gpu);
    assert!(state.needs_redraw);
    assert_eq!(state.mandelbrot_buffer, vec![0u32; 800 * 600]);
    let mut window = vec![0u32; 860 * 600];
    draw_colorbar(&mut window);
    assert_eq!(state.buffer, window);
    assert_eq!(state.current_buffer(), &window);
    assert_eq!(ViewerState::new(false).compute_mode, ComputeMode::CpuF64);
}

#[test]
fn clicks_on_the_legend_are_ignored() {
    let mut state = ViewerState::new(true);
    state.needs_redraw = false;
    assert!(!state.zoom(800, 10, 4, 5));
    assert!(!state.zoom(800, 600, 4, 5));
    assert!(!state.on_pan(859, 300));
    assert!(!state.on_zoom(u32::MAX, 0, ZoomDirection::In));
    assert_eq!(state.view, Viewport::new());
    assert!(!state.needs_redraw);
}

#[test]
fn zoom_recentres_on_the_pixel() {
    let mut state = ViewerState::new(false);
    state.needs_redraw = false;
    let target = state.pixel_to_complex(343, 300);
    assert_eq!(target, (-72012558041654232, 0));
    assert!(!state.zoom(343, 300, 4, 5));
    assert!(state.needs_redraw);
    assert_eq!(state.view.center(), target);
    assert_eq!(state.view.width(), 4 * (7 * (ONE / 2)) / 5);
    let mut expected = Viewport::new();
    expected.zoom(target.0, target.1, 4, 5);
    assert_eq!(state.view, expected);
}

#[test]
fn the_wheel_zooms_by_four_fifths_and_back() {
    let mut state = ViewerState::new(false);
    state.on_zoom(400, 300, ZoomDirection::In);
    assert_eq!(state.view.width(), 4 * (7 * (ONE / 2)) / 5);
    state.on_zoom(400, 300, ZoomDirection::Out);
    let restored = state.view.width();
    assert!((restored - 7 * (ONE / 2)).abs() <= 1);
    let zoom = state.current_zoom();
    assert_eq!(zoom.denominator, restored as u64);
}

#[test]
fn pan_moves_the_centre_only() {
    let mut state = ViewerState::new(true);
    state.needs_redraw = false;
    let target = state.pixel_to_complex(100, 500);
    assert!(!state.on_pan(100, 500));
    assert!(state.needs_redraw);
    assert_eq!(state.view.center(), target);
    assert_eq!(state.view.width(), 7 * (ONE / 2));
    assert_eq!(state.view.height(), 3 * ONE);
    assert_eq!(state.compute_mode, ComputeMode::Gpu);
}

#[test]
fn mode_changes_are_reported() {
    let mut state = ViewerState::new(true);
    let mut changes = Vec::new();
    for step in 1..=140 {
        if state.on_zoom(400, 300, ZoomDirection::In) {
            changes.push((step, state.compute_mode));
        }
    }
    assert_eq!(
        changes,
        vec![(62, ComputeMode::CpuF64), (135, ComputeMode::CpuHighPrecision)]
    );
    let status = state.status();
    assert_eq!(status.mode, ComputeMode::CpuHighPrecision);
    assert_eq!(status.precision_bits, 256);
    assert_eq!(status.center, state.view.center());
    assert_eq!(status.zoom_factor.denominator, state.view.width() as u64);
    assert!(state.on_reset());
    assert_eq!(state.compute_mode, ComputeMode::Gpu);
    assert_eq!(state.view, Viewport::new());
    assert!(state.needs_redraw);
    assert!(!state.on_reset());
}

#[test]
fn the_fixed_width_mode_renders_at_once() {
    let mut state = ViewerState::new(false);
    assert_eq!(state.render_mandelbrot(), RenderStep::Done);
    assert!(!state.needs_redraw);
    assert_eq!(state.mandelbrot_buffer.len(), 800 * 600);
    assert_eq!(state.mandelbrot_buffer[0], iter_to_color_u32(0, 256));
    assert_eq!(state.mandelbrot_buffer[300 * 800 + 400], 0x000000);
    assert_eq!(state.mandelbrot_buffer[300 * 800 + 799], iter_to_color_u32(2, 256));
    for y in [0usize, 17, 300, 599] {
        assert_eq!(
            &state.buffer[y * 860..y * 860 + 800],
            &state.mandelbrot_buffer[y * 800..(y + 1) * 800]
        );
        assert_eq!(state.buffer[y * 860 + 800], 0x404040);
    }
    // rows above and below the real axis mirror each other
    assert_eq!(
        &state.mandelbrot_buffer[200 * 800..201 * 800],
        &state.mandelbrot_buffer[400 * 800..401 * 800]
    );
}

#[test]
fn the_other_modes_wait_for_their_backend() {
    let mut state = ViewerState::new(true);
    let before = state.buffer.clone();
    let view = state.view;
    assert_eq!(
        state.render_mandelbrot(),
        RenderStep::Device {
            params: DeviceParams {
                x_min: view.x_min,
                x_max: view.x_max,
                y_min: view.y_min,
                y_max: view.y_max,
                width: 800,
                height: 600,
                max_iter: 256
            }
        }
    );
    assert!(state.needs_redraw);
    assert_eq!(state.buffer, before);
    let counts: Vec<u32> = (0..800 * 600).map(|i| (i % 300) as u32).collect();
    state.accept_frame(&counts);
    assert!(!state.needs_redraw);
    assert_eq!(state.mandelbrot_buffer[5], iter_to_color_u32(5, 256));
    assert_eq!(state.mandelbrot_buffer[256], 0);
    assert_eq!(state.buffer[860 + 7], iter_to_color_u32(207, 256));
    assert_eq!(state.buffer[800], 0x404040);

    for _ in 0..135 {
        state.on_zoom(400, 300, ZoomDirection::In);
    }
    assert_eq!(
        state.render_mandelbrot(),
        RenderStep::HighPrecision { precision: 256, width: 200, height: 150 }
    );
    assert!(state.needs_redraw);
    let counts = vec![3u32; 200 * 150];
    state.accept_high_precision_frame(&counts);
    assert!(!state.needs_redraw);
    assert_eq!(state.mandelbrot_buffer[0], 0x202020);
    assert_eq!(state.mandelbrot_buffer[300 * 800 + 400], iter_to_color_u32(3, 256));
    assert_eq!(state.buffer[300 * 860 + 400], iter_to_color_u32(3, 256));
    assert_eq!(state.buffer[0], 0x202020);
}

#[test]
fn every_row_of_a_fractal_column_counts() {
    // the row below the last one stands for the lower edge
    let mut state = ViewerState::new(false);
    state.needs_redraw = false;
    assert!(!state.on_pan(400, 600));
    assert!(state.needs_redraw);
    assert_eq!(state.view.center(), (-3 * (ONE / 4), -3 * (ONE / 2)));
    assert_eq!(state.view.width(), 7 * (ONE / 2));
    assert_eq!(state.view.height(), 3 * ONE);
    assert_eq!(state.view.precision, 128);

    let mut state = ViewerState::new(false);
    assert!(!state.zoom(0, 600, 1, 2));
    assert_eq!(state.view.center(), (-5 * (ONE / 2), -3 * (ONE / 2)));
    assert_eq!(state.view.width(), 7 * (ONE / 4));

    // a row far below the grid leads beyond the plane: the view stays, the
    // frame is asked for
    let mut state = ViewerState::new(false);
    state.needs_redraw = false;
    assert!(!state.zoom(10, u32::MAX, 4, 5));
    assert_eq!(state.view, Viewport::new());
    assert!(state.needs_redraw);
    let mut state = ViewerState::new(true);
    assert!(!state.on_pan(799, 100_000));
    assert_eq!(state.view, Viewport::new());
}

#[test]
fn a_refused_change_still_asks_for_a_frame() {
    let mut state = ViewerState::new(false);
    state.needs_redraw = false;
    assert!(!state.zoom(400, 300, 1, 0));
    assert_eq!(state.view, Viewport::new());
    assert!(state.needs_redraw);
}

#[test]
fn update_compute_mode_follows_bounds_that_were_set_directly() {
    // a view of width 3.5 / 2^44: zoom factor 2^44, beyond 10^13
    let mut state = ViewerState::new(true);
    state.view.x_min = 0;
    state.view.x_max = 14336;
    state.view.y_min = 0;
    state.view.y_max = 12288;
    assert_eq!(state.view.precision, 128);
    assert!(state.update_compute_mode());
    assert_eq!(state.compute_mode, ComputeMode::CpuHighPrecision);
    assert_eq!(state.view.precision, 256);
    assert_eq!((state.view.x_min, state.view.x_max), (0, 14336));
    assert_eq!((state.view.y_min, state.view.y_max), (0, 12288));
    assert_eq!(
        state.render_mandelbrot(),
        RenderStep::HighPrecision { precision: 256, width: 200, height: 150 }
    );
    // a second call changes nothing
    assert!(!state.update_compute_mode());
    assert_eq!(state.view.precision, 256);

    // deeper still: 3.5 / 2^55
    state.view.x_max = 7;
    assert!(!state.update_compute_mode());
    assert_eq!(state.view.precision, 512);

    // the bit width does not fall when the view widens again
    state.view.x_max = 14336;
    assert!(!state.update_compute_mode());
    assert_eq!(state.view.precision, 512);
    state.view = Viewport { precision: 512, ..Viewport::new() };
    assert!(state.update_compute_mode());
    assert_eq!(state.compute_mode, ComputeMode::Gpu);
    assert_eq!(state.view.precision, 512);
}

#[test]
fn the_former_mode_has_no_influence() {
    let mut a = ViewerState::new(true);
    let mut b = ViewerState::new(true);
    a.compute_mode = ComputeMode::CpuHighPrecision;
    b.compute_mode = ComputeMode::CpuF64;
    for state in [&mut a, &mut b] {
        state.view.x_max = state.view.x_min + 14336;
        state.update_compute_mode();
    }
    assert_eq!(a.compute_mode, b.compute_mode);
    assert_eq!(a.view.precision, b.view.precision);
    assert_eq!(a.compute_mode, ComputeMode::CpuHighPrecision);
}

#[test]
fn halving_and_doubling_through_the_middle_pixel_restores_the_view() {
    let mut state = ViewerState::new(false);
    state.on_pan(123, 456);
    state.zoom(77, 99, 3, 7);
    let before = state.view;
    state.zoom(400, 300, 1, 2);
    assert_eq!(state.view.width(), before.width() / 2);
    state.zoom(400, 300, 2, 1);
    assert!((state.view.x_min - before.x_min).abs() <= 2);
    assert!((state.view.x_max - before.x_max).abs() <= 2);
    assert!((state.view.y_min - before.y_min).abs() <= 2);
    assert!((state.view.y_max - before.y_max).abs() <= 2);
    assert_eq!(state.view.precision, before.precision);
}

#[test]
fn composing_needs_the_two_buffers_only() {
    let mut state = ViewerState::new(false);
    state.view.x_max = state.view.x_min + 1;
    state.mandelbrot_buffer = vec![5; 800 * 600];
    state.compose_buffer();
    assert_eq!(state.buffer[0], 5);
    assert_eq!(state.buffer[599 * 860 + 799], 5);
    assert_eq!(state.buffer[800], 0x404040);
}
