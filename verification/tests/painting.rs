use lookie::canvas::PixelCanvas;
use lookie::color::Color;
use lookie::color::black;
use lookie::color::blank;
use lookie::color::white;
use lookie::raster::draw_line;
use lookie::raster::render_preview;

fn count_cells(canvas: &PixelCanvas, c: Color) -> usize {
    let mut n: usize = 0;
    for y in 0..canvas.height() {
        for x in 0..canvas.width() {
            if canvas.get(x, y) == c {
                n += 1;
            }
        }
    }
    n
}

#[test]
fn new_canvas_is_fully_transparent() {
    let canvas = PixelCanvas::new(7, 5);
    assert_eq!(canvas.width(), 7);
    assert_eq!(canvas.height(), 5);
    assert_eq!(count_cells(&canvas, blank()), 35);
}

#[test]
fn set_and_get_round_trip() {
    let mut canvas = PixelCanvas::new(4, 4);
    let red = Color { r: 184, g: 55, b: 55, a: 255 };
    canvas.set(2, 3, red);
    assert_eq!(canvas.get(2, 3), red);
    assert_eq!(canvas.get(0, 0), blank());
}

#[test]
fn out_of_range_set_is_silently_ignored() {
    let mut canvas = PixelCanvas::new(3, 3);
    canvas.set(-1, 0, white());
    canvas.set(0, -5, white());
    canvas.set(3, 0, white());
    canvas.set(0, 99, white());
    assert_eq!(count_cells(&canvas, blank()), 9);
}

#[test]
fn clear_overwrites_every_cell() {
    let mut canvas = PixelCanvas::new(6, 4);
    canvas.set(1, 1, white());
    canvas.clear(black());
    assert_eq!(count_cells(&canvas, black()), 24);
}

#[test]
fn diagonal_line_paints_the_stepped_path() {
    let mut canvas = PixelCanvas::new(10, 10);
    draw_line(&mut canvas, 0, 0, 9, 9, 0, white());
    // the walker stamps after stepping, so the start cell stays bare
    assert_eq!(canvas.get(0, 0), blank());
    for i in 1..10 {
        assert_eq!(canvas.get(i, i), white());
    }
    assert_eq!(count_cells(&canvas, white()), 9);
}

#[test]
fn zero_length_drag_paints_nothing() {
    let mut canvas = PixelCanvas::new(10, 10);
    draw_line(&mut canvas, 4, 4, 4, 4, 3, white());
    assert_eq!(count_cells(&canvas, blank()), 100);
}

#[test]
fn thick_stroke_stamps_full_block_around_stepped_point() {
    let mut canvas = PixelCanvas::new(20, 20);
    draw_line(&mut canvas, 5, 5, 5, 6, 2, white());
    // one step down to (5, 6); its 5x5 block is colored, nothing else
    for y in 0..20u32 {
        for x in 0..20u32 {
            let expected = x >= 3 && x <= 7 && y >= 4 && y <= 8;
            assert_eq!(canvas.get(x, y) == white(), expected, "cell ({x}, {y})");
        }
    }
}

#[test]
fn stroke_near_edge_is_clipped_not_wrapped() {
    let mut canvas = PixelCanvas::new(5, 5);
    draw_line(&mut canvas, 1, 0, 0, 0, 4, white());
    // the stamp around (0, 0) is cut at the edges: exactly the cells
    // within radius 4 of it are colored
    assert_eq!(count_cells(&canvas, white()), 25);
    let mut canvas2 = PixelCanvas::new(9, 9);
    draw_line(&mut canvas2, 1, 0, 0, 0, 2, white());
    assert_eq!(count_cells(&canvas2, white()), 9);
}

#[test]
fn horizontal_line_spans_the_row() {
    let mut canvas = PixelCanvas::new(10, 3);
    draw_line(&mut canvas, 2, 1, 7, 1, 0, white());
    for x in 3..8 {
        assert_eq!(canvas.get(x, 1), white());
    }
    assert_eq!(canvas.get(2, 1), blank());
    assert_eq!(count_cells(&canvas, white()), 5);
}

#[test]
fn preview_shows_centered_swatch_on_black() {
    let mut preview = PixelCanvas::new(50, 50);
    let green = Color { r: 75, g: 173, b: 64, a: 255 };
    render_preview(&mut preview, green, 1);
    for y in 0..50u32 {
        for x in 0..50u32 {
            let inside = x >= 24 && x <= 26 && y >= 24 && y <= 26;
            let expected = if inside { green } else { black() };
            assert_eq!(preview.get(x, y), expected);
        }
    }
}


#[test]
fn raw_bytes_follow_row_major_rgba_layout() {
    let mut canvas = PixelCanvas::new(2, 2);
    let red = Color { r: 184, g: 55, b: 55, a: 255 };
    canvas.set(1, 0, red);
    let bytes = canvas.raw_rgba();
    assert_eq!(bytes.len(), 16);
    assert_eq!(&bytes[4..8], &[184, 55, 55, 255]);
    assert_eq!(&bytes[0..4], &[0, 0, 0, 0]);
}
