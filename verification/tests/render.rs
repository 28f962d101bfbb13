use mandelbrot::colors::iter_to_color_u32;
use mandelbrot::kernel::mandelbrot_iter_fast;
use mandelbrot::render::{
    colorize, compose_buffer, compose_low_res, progress_after_row, render_fast,
    render_high_precision, render_row, reports_progress, Progress,
};
use mandelbrot::viewport::Viewport;

#[test]
fn a_row_holds_the_colours_of_its_pixels() {
    let view = Viewport::new();
    let row = render_row(&view, 3, 16, 12, 64);
    assert_eq!(row.len(), 16);
    for px in 0..16u32 {
        let (re, im) = view.pixel_to_plane(px, 3, 16, 12);
        let expected = iter_to_color_u32(mandelbrot_iter_fast(re, im, 64), 64);
        assert_eq!(row[px as usize], expected);
    }
}

#[test]
fn a_frame_is_its_rows_from_top_to_bottom() {
    let view = Viewport::new();
    let frame = render_fast(&view, 14, 12, 50);
    assert_eq!(frame.len(), 14 * 12);
    for py in 0..12u32 {
        let row = render_row(&view, py, 14, 12, 50);
        assert_eq!(&frame[(py as usize) * 14..(py as usize + 1) * 14], &row[..]);
    }
}

#[test]
fn a_small_frame_of_the_initial_view() {
    // Columns at -2.5, -1.625, -0.75, 0.125; rows at 1.5, 0.75, 0, -0.75.
    let view = Viewport::new();
    let frame = render_fast(&view, 4, 4, 256);
    let escape = |n: u32| iter_to_color_u32(n, 256);
    assert_eq!(frame[0], escape(0));
    assert_eq!(frame[4 * 2], escape(0));
    assert_eq!(frame[4 * 2 + 1], escape(256));
    assert_eq!(frame[4 * 2 + 2], 0x000000);
    assert_eq!(frame[4 * 2 + 3], 0x000000);
    // the picture is symmetric about the real axis
    assert_eq!(&frame[4..8], &frame[12..16]);
    assert_eq!(frame[4 + 3], escape(mandelbrot_iter_fast(1 << 53, 3 << 54, 256)));
}

#[test]
fn colorize_maps_every_count() {
    let counts = vec![0, 1, 128, 255, 256, 1000];
    let colours = colorize(&counts, 256);
    assert_eq!(colours, vec![0x000033, 0x000135, 0xffe58c, 0x040001, 0, 0]);
    assert_eq!(colorize(&vec![], 256), Vec::<u32>::new());
}

#[test]
fn a_block_is_centred_in_its_background() {
    let low = vec![1, 2, 3, 4, 5, 6];
    let full = compose_low_res(&low, 3, 2, 6, 5, 9);
    let expected = vec![
        9, 9, 9, 9, 9, 9,
        9, 1, 2, 3, 9, 9,
        9, 4, 5, 6, 9, 9,
        9, 9, 9, 9, 9, 9,
        9, 9, 9, 9, 9, 9,
    ];
    assert_eq!(full, expected);
    assert_eq!(compose_low_res(&low, 3, 2, 3, 2, 9), low);
    assert_eq!(compose_low_res(&vec![], 2, 0, 2, 1, 9), vec![9, 9]);
}

#[test]
fn the_high_precision_frame_is_a_quarter_of_each_dimension() {
    let mut counts = vec![256u32; 200 * 150];
    counts[0] = 0;
    counts[200 * 150 - 1] = 128;
    let frame = render_high_precision(&counts, 256);
    assert_eq!(frame.len(), 800 * 600);
    assert_eq!(frame[0], 0x202020);
    assert_eq!(frame[224 * 800 + 300], 0x202020);
    assert_eq!(frame[225 * 800 + 299], 0x202020);
    assert_eq!(frame[225 * 800 + 300], 0x000033);
    assert_eq!(frame[225 * 800 + 301], 0x000000);
    assert_eq!(frame[374 * 800 + 499], 0xffe58c);
    assert_eq!(frame[374 * 800 + 500], 0x202020);
    assert_eq!(frame[375 * 800 + 499], 0x202020);
    assert_eq!(frame.iter().filter(|&&p| p != 0x202020).count(), 200 * 150);
}

#[test]
fn progress_counts_rows() {
    assert_eq!(progress_after_row(0, 150), Progress { rows_done: 1, percent: 0, bar_cells: 0 });
    assert_eq!(progress_after_row(4, 150), Progress { rows_done: 5, percent: 3, bar_cells: 1 });
    assert_eq!(progress_after_row(74, 150), Progress { rows_done: 75, percent: 50, bar_cells: 15 });
    assert_eq!(
        progress_after_row(149, 150),
        Progress { rows_done: 150, percent: 100, bar_cells: 30 }
    );
    assert_eq!(progress_after_row(0, 1), Progress { rows_done: 1, percent: 100, bar_cells: 30 });
}

#[test]
fn progress_is_reported_at_every_interval_and_at_the_end() {
    assert!((0..150).all(|py| reports_progress(py, 150)));
    let reported: Vec<usize> = (0..450).filter(|&py| reports_progress(py, 450)).collect();
    assert_eq!(reported.len(), 114);
    assert_eq!(&reported[..3], &[0, 4, 8]);
    assert_eq!(reported[112], 448);
    assert_eq!(reported[113], 449);
    assert!(reports_progress(0, 1));
}

#[test]
fn composing_keeps_the_legend() {
    let mut window = vec![7u32; 860 * 600];
    let fractal: Vec<u32> = (0..800 * 600).map(|i| i as u32).collect();
    compose_buffer(&mut window, &fractal);
    assert_eq!(window[0], 0);
    assert_eq!(window[799], 799);
    assert_eq!(window[800], 7);
    assert_eq!(window[859], 7);
    assert_eq!(window[860], 800);
    assert_eq!(window[599 * 860 + 799], 800 * 600 - 1);
    assert_eq!(window[599 * 860 + 800], 7);
    assert_eq!(window.iter().filter(|&&p| p == 7).count(), 60 * 600 + 1);
}
