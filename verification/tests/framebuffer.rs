use life_canvas::framebuffer::{Color, FrameBuffer};
use life_canvas::game_of_life::GameOfLife;
use life_canvas::render::render;
use life_canvas::ErrorKind;

fn solid(r: u8, g: u8, b: u8) -> Color {
    Color::new(r, g, b)
}

fn count_matching(pixels: &[Color], color: Color) -> usize {
    let mut n = 0;
    for &p in pixels.iter() {
        if p == color {
            n += 1;
        }
    }
    n
}

#[test]
fn new_rejects_bad_dimensions() {
    let black = solid(0, 0, 0);
    assert_eq!(FrameBuffer::new(0, 5, black).err(), Some(ErrorKind::InvalidDimensions));
    assert_eq!(FrameBuffer::new(5, 0, black).err(), Some(ErrorKind::InvalidDimensions));
    assert_eq!(FrameBuffer::new(-3, 5, black).err(), Some(ErrorKind::InvalidDimensions));
    assert_eq!(FrameBuffer::new(5, -1, black).err(), Some(ErrorKind::InvalidDimensions));
    assert!(FrameBuffer::new(5, 5, black).is_ok());
    // Any positive dimensions are accepted, beyond the animated
    // container's 16-bit sizes too.
    let wide = FrameBuffer::new(70000, 5, black).unwrap();
    assert_eq!(wide.snapshot().len(), 350000);
}

#[test]
fn new_fills_with_background() {
    let bg = solid(10, 20, 30);
    let fb = FrameBuffer::new(4, 3, bg).unwrap();
    let snap = fb.snapshot();
    assert_eq!(snap.len(), 12);
    assert_eq!(count_matching(&snap, bg), 12);
}

#[test]
fn set_pixel_writes_current_color() {
    let bg = solid(0, 0, 0);
    let red = solid(255, 0, 0);
    let mut fb = FrameBuffer::new(5, 4, bg).unwrap();
    fb.set_color(red);
    fb.set_pixel(2, 1);
    let snap = fb.snapshot();
    // Row-major: pixel (x, y) sits at index y * width + x.
    assert_eq!(snap[1 * 5 + 2], red);
    assert_eq!(count_matching(&snap, red), 1);
    assert_eq!(count_matching(&snap, bg), 19);
}

#[test]
fn set_pixel_out_of_range_leaves_canvas_unchanged() {
    let bg = solid(7, 7, 7);
    let mut fb = FrameBuffer::new(3, 3, bg).unwrap();
    fb.set_color(solid(255, 255, 0));
    let before = fb.snapshot();
    fb.set_pixel(-1, -1);
    fb.set_pixel(3, 3);
    fb.set_pixel(0, 3);
    fb.set_pixel(3, 0);
    fb.set_pixel(-1, 1);
    assert_eq!(fb.snapshot(), before);
}

#[test]
fn clear_resets_and_is_idempotent() {
    let bg = solid(1, 2, 3);
    let mut fb = FrameBuffer::new(4, 4, bg).unwrap();
    fb.set_color(solid(200, 100, 50));
    fb.set_pixel(0, 0);
    fb.set_pixel(3, 3);
    fb.clear();
    let once = fb.snapshot();
    assert_eq!(count_matching(&once, bg), 16);
    fb.clear();
    let twice = fb.snapshot();
    assert_eq!(twice, once);
}

#[test]
fn set_background_color_replaces_and_clears() {
    let mut fb = FrameBuffer::new(3, 2, solid(0, 0, 0)).unwrap();
    fb.set_color(solid(9, 9, 9));
    fb.set_pixel(1, 1);
    let green = solid(0, 200, 0);
    fb.set_background_color(green);
    let snap = fb.snapshot();
    assert_eq!(count_matching(&snap, green), 6);
    // The new background is what a later clear resets to.
    fb.set_pixel(0, 0);
    fb.clear();
    assert_eq!(count_matching(&fb.snapshot(), green), 6);
}

#[test]
fn snapshot_is_independent_of_later_drawing() {
    let bg = solid(0, 0, 0);
    let mut fb = FrameBuffer::new(3, 3, bg).unwrap();
    let before = fb.snapshot();
    fb.set_color(solid(255, 255, 255));
    fb.set_pixel(1, 1);
    assert_eq!(count_matching(&before, bg), 9);
    assert_ne!(fb.snapshot(), before);
}

#[test]
fn line_single_point_writes_exactly_one_pixel() {
    let bg = solid(0, 0, 0);
    let white = solid(255, 255, 255);
    let mut fb = FrameBuffer::new(6, 6, bg).unwrap();
    fb.set_color(white);
    life_canvas::line::line(&mut fb, 0, 0, 0, 0);
    let snap = fb.snapshot();
    assert_eq!(snap[0], white);
    assert_eq!(count_matching(&snap, white), 1);
}

#[test]
fn line_horizontal_writes_six_pixels_on_one_row() {
    let bg = solid(0, 0, 0);
    let white = solid(255, 255, 255);
    let mut fb = FrameBuffer::new(8, 8, bg).unwrap();
    fb.set_color(white);
    life_canvas::line::line(&mut fb, 0, 0, 5, 0);
    let snap = fb.snapshot();
    for x in 0..6usize {
        assert_eq!(snap[x], white);
    }
    assert_eq!(count_matching(&snap, white), 6);
    // Nothing off the first row was touched.
    for y in 1..8usize {
        for x in 0..8usize {
            assert_eq!(snap[y * 8 + x], bg);
        }
    }
}

#[test]
fn line_diagonal_writes_one_pixel_per_step() {
    let bg = solid(0, 0, 0);
    let white = solid(255, 255, 255);
    let mut fb = FrameBuffer::new(6, 6, bg).unwrap();
    fb.set_color(white);
    life_canvas::line::line(&mut fb, 0, 0, 3, 3);
    let snap = fb.snapshot();
    for i in 0..4usize {
        assert_eq!(snap[i * 6 + i], white);
    }
    assert_eq!(count_matching(&snap, white), 4);
}

#[test]
fn line_reversed_endpoints_draw_the_same_row() {
    let bg = solid(0, 0, 0);
    let white = solid(255, 255, 255);
    let mut fb = FrameBuffer::new(8, 8, bg).unwrap();
    fb.set_color(white);
    life_canvas::line::line(&mut fb, 5, 0, 0, 0);
    let snap = fb.snapshot();
    for x in 0..6usize {
        assert_eq!(snap[x], white);
    }
    assert_eq!(count_matching(&snap, white), 6);
}

#[test]
fn line_partially_off_canvas_is_clipped() {
    let bg = solid(0, 0, 0);
    let white = solid(255, 255, 255);
    let mut fb = FrameBuffer::new(4, 4, bg).unwrap();
    fb.set_color(white);
    life_canvas::line::line(&mut fb, 0, 2, 9, 2);
    let snap = fb.snapshot();
    for x in 0..4usize {
        assert_eq!(snap[2 * 4 + x], white);
    }
    assert_eq!(count_matching(&snap, white), 4);
}

#[test]
fn render_draws_scaled_blocks_for_live_cells() {
    let bg = solid(0, 0, 0);
    let white = solid(255, 255, 255);
    let mut fb = FrameBuffer::new(4, 4, bg).unwrap();
    let mut game = GameOfLife::new(2, 2);
    game.set_alive(0, 0);
    game.set_alive(1, 1);
    render(&mut fb, &game, 2);
    let snap = fb.snapshot();
    for y in 0..4usize {
        for x in 0..4usize {
            let cell_alive = (x / 2 == 0 && y / 2 == 0) || (x / 2 == 1 && y / 2 == 1);
            let expected = if cell_alive { white } else { bg };
            assert_eq!(snap[y * 4 + x], expected);
        }
    }
}
