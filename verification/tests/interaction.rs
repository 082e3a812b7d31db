use lookie::canvas::PixelCanvas;
use lookie::color::Color;
use lookie::color::black;
use lookie::color::blank;
use lookie::color::next_color_index;
use lookie::color::palette_color;
use lookie::color::prev_color_index;
use lookie::color::white;
use lookie::cursor::CursorState;
use lookie::cursor::UNIT_MICROS;
use lookie::cursor::move_rotation;
use lookie::state::InteractionState;
use lookie::state::Key;
use lookie::state::MAX_BRUSH_RADIUS;
use lookie::state::Mode;
use lookie::state::PREVIEW_TIME_MICROS;

fn count(canvas: &PixelCanvas, c: Color) -> usize {
    let mut n: usize = 0;
    for y in 0..canvas.height() {
        for x in 0..canvas.width() {
            if canvas.get(x, y) == c {
                n += 1;
            }
        }
    }
    n
}

#[test]
fn palette_has_the_four_fixed_colors() {
    assert_eq!(palette_color(0), Color { r: 255, g: 255, b: 255, a: 255 });
    assert_eq!(palette_color(1), Color { r: 184, g: 55, b: 55, a: 255 });
    assert_eq!(palette_color(2), Color { r: 75, g: 173, b: 64, a: 255 });
    assert_eq!(palette_color(3), Color { r: 53, g: 41, b: 186, a: 255 });
}

#[test]
fn color_cycling_is_circular() {
    let mut i: u32 = 0;
    for _ in 0..4 {
        i = next_color_index(i);
    }
    assert_eq!(i, 0);
    // a single step back from the first entry lands on the last, and
    // four steps back return to the start
    assert_eq!(prev_color_index(0), 3);
    let mut j: u32 = 0;
    for _ in 0..4 {
        j = prev_color_index(j);
    }
    assert_eq!(j, 0);
}

#[test]
fn brush_radius_is_clamped_at_both_ends() {
    let mut st = InteractionState::new();
    let mut canvas = PixelCanvas::new(4, 4);
    let mut preview = PixelCanvas::new(50, 50);
    for _ in 0..15 {
        st.on_key(&mut canvas, &mut preview, Key::Up);
    }
    assert_eq!(st.brush_radius, MAX_BRUSH_RADIUS);
    for _ in 0..15 {
        st.on_key(&mut canvas, &mut preview, Key::Down);
    }
    assert_eq!(st.brush_radius, 0);
}

#[test]
fn radius_keys_arm_the_preview_and_redraw_the_swatch() {
    let mut st = InteractionState::new();
    let mut canvas = PixelCanvas::new(4, 4);
    let mut preview = PixelCanvas::new(50, 50);
    st.on_key(&mut canvas, &mut preview, Key::Up);
    assert_eq!(st.brush_radius, 1);
    assert_eq!(st.preview_timer_micros, PREVIEW_TIME_MICROS);
    assert!(st.preview_visible());
    // a radius-1 white square centered at (25, 25) on black
    assert_eq!(preview.get(25, 25), white());
    assert_eq!(preview.get(24, 24), white());
    assert_eq!(preview.get(22, 25), black());
    assert_eq!(count(&preview, white()), 9);
}

#[test]
fn preview_countdown_burns_down_and_rests_at_zero() {
    let mut st = InteractionState::new();
    let mut canvas = PixelCanvas::new(4, 4);
    let mut preview = PixelCanvas::new(50, 50);
    st.on_key(&mut canvas, &mut preview, Key::Left);
    assert_eq!(st.preview_timer_micros, PREVIEW_TIME_MICROS);
    st.tick_preview(400_000);
    assert_eq!(st.preview_timer_micros, 600_000);
    assert!(st.preview_visible());
    st.tick_preview(900_000);
    assert_eq!(st.preview_timer_micros, 0);
    assert!(!st.preview_visible());
    st.tick_preview(100);
    assert_eq!(st.preview_timer_micros, 0);
}

#[test]
fn color_keys_cycle_the_index_and_redraw_the_swatch() {
    let mut st = InteractionState::new();
    let mut canvas = PixelCanvas::new(4, 4);
    let mut preview = PixelCanvas::new(50, 50);
    st.on_key(&mut canvas, &mut preview, Key::Right);
    assert_eq!(st.color_index, 1);
    assert_eq!(preview.get(25, 25), palette_color(1));
    st.on_key(&mut canvas, &mut preview, Key::Left);
    st.on_key(&mut canvas, &mut preview, Key::Left);
    assert_eq!(st.color_index, 3);
}

#[test]
fn mode_keys_switch_the_tool() {
    let mut st = InteractionState::new();
    let mut canvas = PixelCanvas::new(4, 4);
    let mut preview = PixelCanvas::new(50, 50);
    assert_eq!(st.mode, Mode::Draw);
    st.on_key(&mut canvas, &mut preview, Key::B);
    assert_eq!(st.mode, Mode::Fill);
    st.on_key(&mut canvas, &mut preview, Key::N);
    assert_eq!(st.mode, Mode::Draw);
}

#[test]
fn return_clears_the_canvas() {
    let mut st = InteractionState::new();
    let mut canvas = PixelCanvas::new(6, 6);
    let mut preview = PixelCanvas::new(50, 50);
    canvas.set(2, 2, white());
    st.on_key(&mut canvas, &mut preview, Key::Return);
    assert_eq!(count(&canvas, blank()), 36);
}

#[test]
fn left_press_in_fill_mode_floods_at_the_mouse_cell() {
    let mut st = InteractionState::new();
    let mut canvas = PixelCanvas::new(10, 10);
    let mut preview = PixelCanvas::new(50, 50);
    st.on_key(&mut canvas, &mut preview, Key::B);
    st.mouse_x = 5;
    st.mouse_y = 5;
    st.on_left_press(&mut canvas);
    assert!(st.mouse_down);
    assert_eq!(count(&canvas, white()), 100);
}

#[test]
fn left_press_in_draw_mode_paints_nothing() {
    let mut st = InteractionState::new();
    let mut canvas = PixelCanvas::new(10, 10);
    st.on_left_press(&mut canvas);
    assert!(st.mouse_down);
    assert_eq!(count(&canvas, blank()), 100);
    st.on_left_release();
    assert!(!st.mouse_down);
}

#[test]
fn right_press_with_fill_erases_the_region() {
    let mut st = InteractionState::new();
    let mut canvas = PixelCanvas::new(5, 5);
    let mut preview = PixelCanvas::new(50, 50);
    lookie::fill::flood_fill(&mut canvas, 0, 0, white());
    st.on_key(&mut canvas, &mut preview, Key::B);
    st.on_right_press();
    assert!(st.right_mouse_down);
    st.on_left_press(&mut canvas);
    assert_eq!(count(&canvas, blank()), 25);
    st.on_right_release();
    assert!(!st.right_mouse_down);
}

#[test]
fn drag_paints_a_line_and_kicks_the_rotation() {
    let mut st = InteractionState::new();
    let mut canvas = PixelCanvas::new(20, 20);
    let mut cursor = CursorState::new();
    st.mouse_down = true;
    st.on_mouse_move(&mut canvas, &mut cursor, 5, 0);
    // a drag from (0, 0) to (5, 0) stamps (1, 0) through (5, 0)
    for x in 1..6u32 {
        assert_eq!(canvas.get(x, 0), white());
    }
    assert_eq!(canvas.get(0, 0), blank());
    assert_eq!(st.mouse_x, 5);
    assert_eq!(st.mouse_y, 0);
    // the kick is (dx - dy) * 0.004 rad: 5 * 4000 microradians
    assert_eq!(cursor.rotation_micros(), 20_000);
}

#[test]
fn mouse_position_is_clamped_to_the_canvas() {
    let mut st = InteractionState::new();
    let mut canvas = PixelCanvas::new(10, 8);
    let mut cursor = CursorState::new();
    st.on_mouse_move(&mut canvas, &mut cursor, -30, 99);
    assert_eq!(st.mouse_x, 0);
    assert_eq!(st.mouse_y, 7);
}

#[test]
fn move_rotation_kick_is_clamped_to_the_band() {
    assert_eq!(move_rotation(1_000_000, 0), 70_000);
    assert_eq!(move_rotation(0, 1_000_000), -70_000);
    assert_eq!(move_rotation(5, 3), 8_000);
    assert_eq!(move_rotation(3, 14), -44_000);
    assert_eq!(move_rotation(0, 0), 0);
}

fn lerp_like(a: i64, b: i64, t: u64) -> i64 {
    if b >= a {
        a + ((b - a) as u64 * t / UNIT_MICROS) as i64
    } else {
        a - ((a - b) as u64 * t / UNIT_MICROS) as i64
    }
}

#[test]
fn drift_progress_stays_in_the_unit_range_and_interpolates() {
    let mut cursor = CursorState::new();
    assert_eq!(cursor.progress_micros(), 0);
    assert_eq!(cursor.drift(), cursor.start());
    cursor.on_update(300_000);
    assert_eq!(cursor.progress_micros(), 300_000);
    let (sx, sy) = cursor.start();
    let (tx, ty) = cursor.target();
    let (dx, dy) = cursor.drift();
    assert_eq!(dx, lerp_like(sx, tx, 300_000));
    assert_eq!(dy, lerp_like(sy, ty, 300_000));
    assert!(cursor.progress_micros() < UNIT_MICROS);
}

#[test]
fn drift_rolls_over_and_promotes_the_target() {
    let mut cursor = CursorState::new();
    cursor.on_update(600_000);
    let old_target = cursor.target();
    cursor.on_update(600_000);
    // 1.2 units passed the top: progress rolls to zero and the old
    // target becomes the new start
    assert_eq!(cursor.progress_micros(), 0);
    assert_eq!(cursor.start(), old_target);
    assert_eq!(cursor.drift(), cursor.start());
    let (tx, ty) = cursor.target();
    assert!(tx >= -5_000_000 && tx < 5_000_000);
    assert!(ty >= -5_000_000 && ty < 5_000_000);
}

#[test]
fn drift_landing_exactly_on_the_top_waits_one_more_tick() {
    let mut cursor = CursorState::new();
    cursor.on_update(UNIT_MICROS);
    // the wraparound check asks for strictly more than one unit
    assert_eq!(cursor.progress_micros(), UNIT_MICROS);
    cursor.on_update(1);
    assert_eq!(cursor.progress_micros(), 0);
}

#[test]
fn rotation_accumulates_kicks() {
    let mut cursor = CursorState::new();
    assert_eq!(cursor.rotation_micros(), 0);
    cursor.add_rotation(70_000);
    cursor.add_rotation(-30_000);
    assert_eq!(cursor.rotation_micros(), 40_000);
    cursor.on_update(10_000);
    assert_eq!(cursor.rotation_micros(), 40_000);
}
