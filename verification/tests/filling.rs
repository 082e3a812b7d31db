use lookie::canvas::PixelCanvas;
use lookie::color::Color;
use lookie::color::blank;
use lookie::color::white;
use lookie::fill::flood_fill;
use lookie::raster::draw_line;

fn count(canvas: &PixelCanvas, c: Color) -> usize {
    let mut n: usize = 0;
    for y in 0..canvas.height() {
        for x in 0..canvas.width() {
            if canvas.get(x, y) == c {
                n += 1;
            }
        }
    }
    n
}

fn snapshot(canvas: &PixelCanvas) -> Vec<u8> {
    canvas.raw_rgba()
}

#[test]
fn uniform_canvas_is_recolored_in_full() {
    let mut canvas = PixelCanvas::new(8, 6);
    flood_fill(&mut canvas, 3, 2, white());
    assert_eq!(count(&canvas, white()), 48);
}

#[test]
fn fill_is_idempotent() {
    let mut canvas = PixelCanvas::new(10, 10);
    draw_line(&mut canvas, 0, 5, 9, 5, 0, white());
    flood_fill(&mut canvas, 2, 1, white());
    let first = snapshot(&canvas);
    flood_fill(&mut canvas, 2, 1, white());
    assert_eq!(snapshot(&canvas), first);
}

#[test]
fn fill_on_seed_already_holding_fill_color_is_a_no_op() {
    let mut canvas = PixelCanvas::new(4, 4);
    canvas.set(1, 1, white());
    flood_fill(&mut canvas, 1, 1, white());
    assert_eq!(count(&canvas, white()), 1);
}

#[test]
fn fill_stops_at_a_horizontal_wall() {
    let mut canvas = PixelCanvas::new(10, 11);
    // a full-width wall on row 5 splits the canvas in two
    draw_line(&mut canvas, 0, 5, 9, 5, 0, white());
    canvas.set(0, 5, white());
    let red = Color { r: 184, g: 55, b: 55, a: 255 };
    flood_fill(&mut canvas, 4, 2, red);
    // rows 0..=4 recolored, the wall and rows 6..=10 untouched
    assert_eq!(count(&canvas, red), 50);
    assert_eq!(count(&canvas, white()), 10);
    assert_eq!(count(&canvas, blank()), 50);
    assert_eq!(canvas.get(4, 7), blank());
}

#[test]
fn fill_never_crosses_a_diagonal_only_gap() {
    // two blank regions touch only at the corner between (1, 1) and
    // (2, 2): everything else on their border is white
    let mut canvas = PixelCanvas::new(4, 4);
    for y in 0..4u32 {
        for x in 0..4u32 {
            let lower_left = x <= 1 && y <= 1;
            let upper_right = x >= 2 && y >= 2;
            if !(lower_left || upper_right) {
                canvas.set(x as i64, y as i64, white());
            }
        }
    }
    let blue = Color { r: 53, g: 41, b: 186, a: 255 };
    flood_fill(&mut canvas, 0, 0, blue);
    // the seeded corner is recolored, the diagonal neighbor is not
    assert_eq!(canvas.get(0, 0), blue);
    assert_eq!(canvas.get(1, 1), blue);
    assert_eq!(canvas.get(2, 2), blank());
    assert_eq!(canvas.get(3, 3), blank());
    assert_eq!(count(&canvas, blue), 4);
}

#[test]
fn fill_respects_target_color_only() {
    let mut canvas = PixelCanvas::new(5, 1);
    canvas.set(2, 0, white());
    let green = Color { r: 75, g: 173, b: 64, a: 255 };
    flood_fill(&mut canvas, 0, 0, green);
    assert_eq!(canvas.get(0, 0), green);
    assert_eq!(canvas.get(1, 0), green);
    assert_eq!(canvas.get(2, 0), white());
    assert_eq!(canvas.get(3, 0), blank());
    assert_eq!(canvas.get(4, 0), blank());
}

#[test]
fn end_to_end_fill_then_erase_diagonal() {
    // a 10 by 10 fully transparent canvas: the fill from (5, 5) turns
    // all 100 cells opaque white; a zero-radius erase drag from (0, 0)
    // to (9, 9) then blanks exactly the stepped diagonal cells, which
    // leave out the start cell
    let mut canvas = PixelCanvas::new(10, 10);
    flood_fill(&mut canvas, 5, 5, white());
    assert_eq!(count(&canvas, white()), 100);
    draw_line(&mut canvas, 0, 0, 9, 9, 0, blank());
    for i in 1..10u32 {
        assert_eq!(canvas.get(i, i), blank());
    }
    assert_eq!(canvas.get(0, 0), white());
    assert_eq!(count(&canvas, white()), 91);
    assert_eq!(count(&canvas, blank()), 9);
}
