//! The interaction state machine: button flags, tool mode, brush
//! radius, palette index, preview countdown and the last mouse cell;
//! it turns raw input events into canvas, preview and cursor work.
use vstd::prelude::*;

use crate::canvas::PixelCanvas;
use crate::canvas::uniform_grid;
use crate::color::Color;
use crate::color::PALETTE_LEN;
use crate::color::black_spec;
use crate::color::blank;
use crate::color::blank_spec;
use crate::color::next_color_index;
use crate::color::next_color_index_spec;
use crate::color::palette_color;
use crate::color::palette_spec;
use crate::color::prev_color_index;
use crate::color::prev_color_index_spec;
use crate::cursor::CursorState;
use crate::cursor::move_rotation;
use crate::cursor::move_rotation_spec;
use crate::cursor::sat_add_spec;
use crate::fill::flood_fill;
use crate::fill::flood_fill_spec;
use crate::raster::draw_line;
use crate::raster::line_points;
use crate::raster::painted;
use crate::raster::render_preview;

verus! {

/// The largest brush radius.
pub const MAX_BRUSH_RADIUS: u32 = 10;

/// How long the preview swatch stays visible after a key press, in
/// microseconds.
pub const PREVIEW_TIME_MICROS: u64 = 1_000_000;

/// The active tool.
#[derive(Clone, Copy, PartialEq, Eq, Structural, Debug)]
pub enum Mode {
    Draw,
    Fill,
}

/// The keys the toy reacts to; any other key is ignored upstream and
/// never reaches the state machine.
#[derive(Clone, Copy, PartialEq, Eq, Structural, Debug)]
pub enum Key {
    Return,
    Up,
    Down,
    Left,
    Right,
    B,
    N,
}

/// The brush radius one step up, pinned at the top.
pub open spec fn inc_radius_spec(r: int) -> int {
    if r < MAX_BRUSH_RADIUS as int {
        r + 1
    } else {
        MAX_BRUSH_RADIUS as int
    }
}

/// The brush radius one step down, pinned at zero.
pub open spec fn dec_radius_spec(r: int) -> int {
    if r > 0 {
        r - 1
    } else {
        0
    }
}

/// Law: the brush radius is clamped: stepping up from the top stays at
/// the top, stepping down from zero stays at zero, and no step leaves
/// the band.
pub proof fn lemma_brush_radius_clamped(r: int)
    requires
        0 <= r <= MAX_BRUSH_RADIUS as int,
    ensures
        0 <= inc_radius_spec(r) <= MAX_BRUSH_RADIUS as int,
        0 <= dec_radius_spec(r) <= MAX_BRUSH_RADIUS as int,
        inc_radius_spec(MAX_BRUSH_RADIUS as int) == MAX_BRUSH_RADIUS as int,
        dec_radius_spec(0) == 0,
{
}

/// A coordinate clamped into `[0, hi]`.
pub open spec fn clamp_spec(v: int, hi: int) -> int {
    if v < 0 {
        0
    } else if v > hi {
        hi
    } else {
        v
    }
}

fn clamp_i64(v: i64, hi: u32) -> (r: u32)
    ensures
        r as int == clamp_spec(v as int, hi as int),
        r <= hi,
{
    if v < 0 {
        0
    } else if v > hi as i64 {
        hi
    } else {
        v as u32
    }
}

/// What the preview swatch shows for a given brush radius and color:
/// an opaque black field with one centered filled square.
pub open spec fn preview_spec(w: int, h: int, radius: int, c: Color) -> Map<(int, int), Color> {
    painted(uniform_grid(w, h, black_spec()), seq![(w / 2, h / 2)], radius, c)
}

/// The preview countdown after a tick: it burns down by the elapsed
/// time and rests at zero.
pub open spec fn tick_timer_spec(t: int, dt: int) -> int {
    if t == 0 {
        0
    } else if dt >= t {
        0
    } else {
        t - dt
    }
}

/// The interaction state the event loop owns.
#[derive(Clone, Copy, PartialEq, Eq, Structural, Debug)]
pub struct InteractionState {
    pub mouse_down: bool,
    pub right_mouse_down: bool,
    pub mode: Mode,
    pub brush_radius: u32,
    pub color_index: u32,
    pub preview_timer_micros: u64,
    pub mouse_x: u32,
    pub mouse_y: u32,
}

impl InteractionState {
    /// The state is well formed: the brush radius and the palette
    /// index lie in their bands.
    pub open spec fn wf(&self) -> bool {
        &&& self.brush_radius <= MAX_BRUSH_RADIUS
        &&& self.color_index < PALETTE_LEN
    }

    /// Whether the remembered mouse cell lies on a `w` by `h` canvas.
    pub open spec fn mouse_within(&self, w: int, h: int) -> bool {
        (self.mouse_x as int) < w && (self.mouse_y as int) < h
    }

    /// The idle starting state: no button held, draw mode, a
    /// zero-radius brush, the first palette color, no preview, the
    /// mouse at the origin.
    pub fn new() -> (s: InteractionState)
        ensures
            s.wf(),
            s == (InteractionState {
                mouse_down: false,
                right_mouse_down: false,
                mode: Mode::Draw,
                brush_radius: 0,
                color_index: 0,
                preview_timer_micros: 0,
                mouse_x: 0,
                mouse_y: 0,
            }),
    {
        InteractionState {
            mouse_down: false,
            right_mouse_down: false,
            mode: Mode::Draw,
            brush_radius: 0,
            color_index: 0,
            preview_timer_micros: 0,
            mouse_x: 0,
            mouse_y: 0,
        }
    }

    /// A left press: the button goes down and, in fill mode, a flood
    /// fill runs at the mouse cell — with the erase color while the
    /// right button is also held, else with the active palette color.
    pub fn on_left_press(&mut self, canvas: &mut PixelCanvas)
        requires
            old(self).wf(),
            old(canvas).wf(),
            old(self).mouse_within(old(canvas).spec_width(), old(canvas).spec_height()),
        ensures
            final(self).wf(),
            *final(self) == (InteractionState { mouse_down: true, ..*old(self) }),
            final(canvas).wf(),
            final(canvas).spec_width() == old(canvas).spec_width(),
            final(canvas).spec_height() == old(canvas).spec_height(),
            old(self).mode == Mode::Fill ==> final(canvas)@ == flood_fill_spec(
                old(canvas)@,
                (old(self).mouse_x as int, old(self).mouse_y as int),
                if old(self).right_mouse_down {
                    blank_spec()
                } else {
                    palette_spec(old(self).color_index as int)
                },
            ),
            old(self).mode != Mode::Fill ==> final(canvas)@ == old(canvas)@,
    {
        self.mouse_down = true;
        if self.mode == Mode::Fill {
            let c = if self.right_mouse_down {
                blank()
            } else {
                palette_color(self.color_index)
            };
            flood_fill(canvas, self.mouse_x, self.mouse_y, c);
        }
    }

    /// A left release only lets the button up.
    pub fn on_left_release(&mut self)
        requires
            old(self).wf(),
        ensures
            final(self).wf(),
            *final(self) == (InteractionState { mouse_down: false, ..*old(self) }),
    {
        self.mouse_down = false;
    }

    /// A right press only marks the button held.
    pub fn on_right_press(&mut self)
        requires
            old(self).wf(),
        ensures
            final(self).wf(),
            *final(self) == (InteractionState { right_mouse_down: true, ..*old(self) }),
    {
        self.right_mouse_down = true;
    }

    /// A right release only lets the button up.
    pub fn on_right_release(&mut self)
        requires
            old(self).wf(),
        ensures
            final(self).wf(),
            *final(self) == (InteractionState { right_mouse_down: false, ..*old(self) }),
    {
        self.right_mouse_down = false;
    }

    /// A pointer move: the raw position is clamped to the canvas; in
    /// draw mode a held left button drags a stroke in the active
    /// palette color — or in the erase color while only the right
    /// button is held — from the old cell to the new one; and the
    /// cursor takes the move's clamped rotation kick.
    pub fn on_mouse_move(
        &mut self,
        canvas: &mut PixelCanvas,
        cursor: &mut CursorState,
        raw_x: i64,
        raw_y: i64,
    )
        requires
            old(self).wf(),
            old(canvas).wf(),
            old(cursor).wf(),
            old(canvas).spec_width() >= 1,
            old(canvas).spec_height() >= 1,
        ensures
            final(self).wf(),
            final(canvas).wf(),
            final(cursor).wf(),
            final(canvas).spec_width() == old(canvas).spec_width(),
            final(canvas).spec_height() == old(canvas).spec_height(),
            final(self).mouse_x as int == clamp_spec(raw_x as int, old(canvas).spec_width() - 1),
            final(self).mouse_y as int == clamp_spec(raw_y as int, old(canvas).spec_height() - 1),
            *final(self) == (InteractionState {
                mouse_x: final(self).mouse_x,
                mouse_y: final(self).mouse_y,
                ..*old(self)
            }),
            final(self).mouse_within(old(canvas).spec_width(), old(canvas).spec_height()),
            old(self).mode == Mode::Draw && old(self).mouse_down ==> final(canvas)@ == painted(
                old(canvas)@,
                line_points(
                    old(self).mouse_x as int,
                    old(self).mouse_y as int,
                    final(self).mouse_x as int,
                    final(self).mouse_y as int,
                ),
                old(self).brush_radius as int,
                palette_spec(old(self).color_index as int),
            ),
            old(self).mode == Mode::Draw && !old(self).mouse_down && old(self).right_mouse_down
                ==> final(canvas)@ == painted(
                old(canvas)@,
                line_points(
                    old(self).mouse_x as int,
                    old(self).mouse_y as int,
                    final(self).mouse_x as int,
                    final(self).mouse_y as int,
                ),
                old(self).brush_radius as int,
                blank_spec(),
            ),
            old(self).mode != Mode::Draw || (!old(self).mouse_down && !old(self).right_mouse_down)
                ==> final(canvas)@ == old(canvas)@,
            final(cursor).spec_rotation() == sat_add_spec(
                old(cursor).spec_rotation(),
                move_rotation_spec(
                    final(self).mouse_x - old(self).mouse_x,
                    final(self).mouse_y - old(self).mouse_y,
                ),
            ),
            final(cursor).spec_start() == old(cursor).spec_start(),
            final(cursor).spec_target() == old(cursor).spec_target(),
            final(cursor).spec_progress() == old(cursor).spec_progress(),
            final(cursor).spec_drift() == old(cursor).spec_drift(),
    {
        let w = canvas.width();
        let h = canvas.height();
        let nx = clamp_i64(raw_x, w - 1);
        let ny = clamp_i64(raw_y, h - 1);
        if self.mode == Mode::Draw {
            if self.mouse_down {
                let c = palette_color(self.color_index);
                draw_line(canvas, self.mouse_x, self.mouse_y, nx, ny, self.brush_radius, c);
            } else if self.right_mouse_down {
                draw_line(canvas, self.mouse_x, self.mouse_y, nx, ny, self.brush_radius, blank());
            }
        }
        let dx = nx as i64 - self.mouse_x as i64;
        let dy = ny as i64 - self.mouse_y as i64;
        self.mouse_x = nx;
        self.mouse_y = ny;
        let kick = move_rotation(dx, dy);
        cursor.add_rotation(kick);
    }

    /// A key press: Return clears the canvas; Up and Down step the
    /// brush radius within its band; Left and Right cycle the palette
    /// index; B and N switch to fill and draw mode. The radius and
    /// palette keys also arm the preview countdown and redraw the
    /// swatch.
    pub fn on_key(&mut self, canvas: &mut PixelCanvas, preview: &mut PixelCanvas, key: Key)
        requires
            old(self).wf(),
            old(canvas).wf(),
            old(preview).wf(),
        ensures
            final(self).wf(),
            final(canvas).wf(),
            final(preview).wf(),
            final(canvas).spec_width() == old(canvas).spec_width(),
            final(canvas).spec_height() == old(canvas).spec_height(),
            final(preview).spec_width() == old(preview).spec_width(),
            final(preview).spec_height() == old(preview).spec_height(),
            match key {
                Key::Return => *final(self) == *old(self) && final(canvas)@ == uniform_grid(
                    old(canvas).spec_width(),
                    old(canvas).spec_height(),
                    blank_spec(),
                ) && final(preview)@ == old(preview)@,
                Key::Up => *final(self) == (InteractionState {
                    brush_radius: final(self).brush_radius,
                    preview_timer_micros: PREVIEW_TIME_MICROS,
                    ..*old(self)
                }) && final(self).brush_radius as int == inc_radius_spec(
                    old(self).brush_radius as int,
                ) && final(canvas)@ == old(canvas)@ && final(preview)@ == preview_spec(
                    old(preview).spec_width(),
                    old(preview).spec_height(),
                    inc_radius_spec(old(self).brush_radius as int),
                    palette_spec(old(self).color_index as int),
                ),
                Key::Down => *final(self) == (InteractionState {
                    brush_radius: final(self).brush_radius,
                    preview_timer_micros: PREVIEW_TIME_MICROS,
                    ..*old(self)
                }) && final(self).brush_radius as int == dec_radius_spec(
                    old(self).brush_radius as int,
                ) && final(canvas)@ == old(canvas)@ && final(preview)@ == preview_spec(
                    old(preview).spec_width(),
                    old(preview).spec_height(),
                    dec_radius_spec(old(self).brush_radius as int),
                    palette_spec(old(self).color_index as int),
                ),
                Key::Left => *final(self) == (InteractionState {
                    color_index: final(self).color_index,
                    preview_timer_micros: PREVIEW_TIME_MICROS,
                    ..*old(self)
                }) && final(self).color_index as int == prev_color_index_spec(
                    old(self).color_index as int,
                ) && final(canvas)@ == old(canvas)@ && final(preview)@ == preview_spec(
                    old(preview).spec_width(),
                    old(preview).spec_height(),
                    old(self).brush_radius as int,
                    palette_spec(prev_color_index_spec(old(self).color_index as int)),
                ),
                Key::Right => *final(self) == (InteractionState {
                    color_index: final(self).color_index,
                    preview_timer_micros: PREVIEW_TIME_MICROS,
                    ..*old(self)
                }) && final(self).color_index as int == next_color_index_spec(
                    old(self).color_index as int,
                ) && final(canvas)@ == old(canvas)@ && final(preview)@ == preview_spec(
                    old(preview).spec_width(),
                    old(preview).spec_height(),
                    old(self).brush_radius as int,
                    palette_spec(next_color_index_spec(old(self).color_index as int)),
                ),
                Key::B => *final(self) == (InteractionState { mode: Mode::Fill, ..*old(self) })
                    && final(canvas)@ == old(canvas)@ && final(preview)@ == old(preview)@,
                Key::N => *final(self) == (InteractionState { mode: Mode::Draw, ..*old(self) })
                    && final(canvas)@ == old(canvas)@ && final(preview)@ == old(preview)@,
            },
    {
        match key {
            Key::Return => {
                canvas.clear(blank());
            },
            Key::Up => {
                self.brush_radius = if self.brush_radius < MAX_BRUSH_RADIUS {
                    self.brush_radius + 1
                } else {
                    MAX_BRUSH_RADIUS
                };
                self.preview_timer_micros = PREVIEW_TIME_MICROS;
                let c = palette_color(self.color_index);
                render_preview(preview, c, self.brush_radius);
            },
            Key::Down => {
                self.brush_radius = if self.brush_radius > 0 {
                    self.brush_radius - 1
                } else {
                    0
                };
                self.preview_timer_micros = PREVIEW_TIME_MICROS;
                let c = palette_color(self.color_index);
                render_preview(preview, c, self.brush_radius);
            },
            Key::Left => {
                self.color_index = prev_color_index(self.color_index);
                self.preview_timer_micros = PREVIEW_TIME_MICROS;
                let c = palette_color(self.color_index);
                render_preview(preview, c, self.brush_radius);
            },
            Key::Right => {
                self.color_index = next_color_index(self.color_index);
                self.preview_timer_micros = PREVIEW_TIME_MICROS;
                let c = palette_color(self.color_index);
                render_preview(preview, c, self.brush_radius);
            },
            Key::B => {
                self.mode = Mode::Fill;
            },
            Key::N => {
                self.mode = Mode::Draw;
            },
        }
    }

    /// An update tick burns the preview countdown down toward zero.
    pub fn tick_preview(&mut self, dt_micros: u64)
        requires
            old(self).wf(),
        ensures
            final(self).wf(),
            *final(self) == (InteractionState {
                preview_timer_micros: final(self).preview_timer_micros,
                ..*old(self)
            }),
            final(self).preview_timer_micros as int == tick_timer_spec(
                old(self).preview_timer_micros as int,
                dt_micros as int,
            ),
    {
        if self.preview_timer_micros > 0 {
            if dt_micros >= self.preview_timer_micros {
                self.preview_timer_micros = 0;
            } else {
                self.preview_timer_micros = self.preview_timer_micros - dt_micros;
            }
        }
    }

    /// Whether the preview swatch is currently shown.
    pub fn preview_visible(&self) -> (v: bool)
        ensures
            v == (self.preview_timer_micros > 0),
    {
        self.preview_timer_micros > 0
    }
}

} // verus!
