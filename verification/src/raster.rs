//! The rasterizer: thick line strokes drawn by integer-decision
//! stepping, stamping a filled square of side `2 * radius + 1` at every
//! stepped point, clipped to the canvas.
use vstd::prelude::*;

use crate::canvas::PixelCanvas;
use crate::canvas::uniform_grid;
use crate::color::Color;
use crate::color::black;
use crate::color::black_spec;

verus! {

pub open spec fn abs_of(d: int) -> int {
    if d < 0 {
        -d
    } else {
        d
    }
}

pub open spec fn sign_of(d: int) -> int {
    if d > 0 {
        1
    } else if d < 0 {
        -1
    } else {
        0
    }
}

/// The cells the stepper visits after `(x, y)` on its way to
/// `(ex, ey)`, with `err` the current error accumulator and `dx`, `dy`
/// the fixed absolute deltas of the whole walk. Each step moves one
/// cell toward the end on one or both axes, as the error decides.
pub open spec fn bres_rest(x: int, y: int, err: int, dx: int, dy: int, ex: int, ey: int) -> Seq<
    (int, int),
>
    decreases abs_of(ex - x) + abs_of(ey - y),
{
    if x == ex && y == ey {
        seq![]
    } else {
        let e2 = 2 * err;
        let step_x = e2 > -dy && x != ex;
        let step_y = e2 < dx && y != ey;
        if !step_x && !step_y {
            seq![]
        } else {
            let x2 = if step_x {
                x + sign_of(ex - x)
            } else {
                x
            };
            let e1 = if step_x {
                err - dy
            } else {
                err
            };
            let y2 = if step_y {
                y + sign_of(ey - y)
            } else {
                y
            };
            let e3 = if step_y {
                e1 + dx
            } else {
                e1
            };
            seq![(x2, y2)] + bres_rest(x2, y2, e3, dx, dy, ex, ey)
        }
    }
}

/// The stepped cells of a stroke from `(sx, sy)` to `(ex, ey)`. The
/// start cell itself is not part of it: a stroke whose ends coincide
/// stamps nothing.
pub open spec fn line_points(sx: int, sy: int, ex: int, ey: int) -> Seq<(int, int)> {
    bres_rest(
        sx,
        sy,
        abs_of(ex - sx) - abs_of(ey - sy),
        abs_of(ex - sx),
        abs_of(ey - sy),
        ex,
        ey,
    )
}

/// Whether `q` lies in the square of the given radius centered at `p`.
pub open spec fn in_stamp(q: (int, int), p: (int, int), r: int) -> bool {
    p.0 - r <= q.0 <= p.0 + r && p.1 - r <= q.1 <= p.1 + r
}

/// Whether `q` lies in some stamp centered on one of `pts`.
pub open spec fn covered(q: (int, int), pts: Seq<(int, int)>, r: int) -> bool {
    exists|i: int| 0 <= i < pts.len() && in_stamp(q, #[trigger] pts[i], r)
}

/// The grid after stamping squares of radius `r` in color `c` around
/// every point of `pts`, clipped to the grid.
pub open spec fn painted(g: Map<(int, int), Color>, pts: Seq<(int, int)>, r: int, c: Color) -> Map<
    (int, int),
    Color,
> {
    Map::new(
        |p: (int, int)| g.dom().contains(p),
        |p: (int, int)|
            if covered(p, pts, r) {
                c
            } else {
                g[p]
            },
    )
}

proof fn lemma_covered_single(q: (int, int), pt: (int, int), r: int)
    ensures
        covered(q, seq![pt], r) <==> in_stamp(q, pt, r),
{
    if in_stamp(q, pt, r) {
        assert(in_stamp(q, seq![pt][0], r));
    }
    if covered(q, seq![pt], r) {
        let i = choose|i: int| 0 <= i < seq![pt].len() && in_stamp(q, seq![pt][i], r);
        assert(seq![pt][i] == pt);
    }
}

proof fn lemma_covered_push(q: (int, int), s: Seq<(int, int)>, pt: (int, int), r: int)
    ensures
        covered(q, s.push(pt), r) <==> (covered(q, s, r) || in_stamp(q, pt, r)),
{
    if covered(q, s.push(pt), r) {
        let i = choose|i: int| 0 <= i < s.push(pt).len() && in_stamp(q, s.push(pt)[i], r);
        if i < s.len() {
            assert(s.push(pt)[i] == s[i]);
            assert(in_stamp(q, s[i], r));
        } else {
            assert(s.push(pt)[i] == pt);
        }
    }
    if covered(q, s, r) {
        let i = choose|i: int| 0 <= i < s.len() && in_stamp(q, #[trigger] s[i], r);
        assert(in_stamp(q, s.push(pt)[i], r));
    }
    if in_stamp(q, pt, r) {
        assert(in_stamp(q, s.push(pt)[s.len() as int], r));
    }
}

proof fn lemma_painted_push(g: Map<(int, int), Color>, s: Seq<(int, int)>, pt: (int, int), r: int, c: Color)
    ensures
        painted(painted(g, s, r, c), seq![pt], r, c) =~= painted(g, s.push(pt), r, c),
{
    assert forall|q: (int, int)| #[trigger] g.dom().contains(q) implies painted(
        painted(g, s, r, c),
        seq![pt],
        r,
        c,
    )[q] == painted(g, s.push(pt), r, c)[q] by {
        lemma_covered_push(q, s, pt, r);
        lemma_covered_single(q, pt, r);
    }
}

/// Stamps one filled square of side `2 * radius + 1` centered at
/// `(cx, cy)`, clipped to the canvas.
#[verifier::loop_isolation(false)]
fn stamp_square(canvas: &mut PixelCanvas, cx: i64, cy: i64, radius: u32, color: Color)
    requires
        old(canvas).wf(),
        radius <= 10,
        0 <= cx <= u32::MAX as i64,
        0 <= cy <= u32::MAX as i64,
    ensures
        final(canvas).wf(),
        final(canvas).spec_width() == old(canvas).spec_width(),
        final(canvas).spec_height() == old(canvas).spec_height(),
        final(canvas)@ == painted(old(canvas)@, seq![(cx as int, cy as int)], radius as int, color),
{
    let r = radius as i64;
    let mut ox: i64 = -r;
    while ox <= r
        invariant
            canvas.wf(),
            canvas.spec_width() == old(canvas).spec_width(),
            canvas.spec_height() == old(canvas).spec_height(),
            -r <= ox <= r + 1,
            canvas@.dom() == old(canvas)@.dom(),
            forall|p: (int, int)| #[trigger] canvas@.dom().contains(p) ==> canvas@[p] == (
            if cx - r <= p.0 < cx + ox && cy - r <= p.1 <= cy + r {
                color
            } else {
                old(canvas)@[p]
            }),
        decreases r + 1 - ox,
    {
        let mut oy: i64 = -r;
        while oy <= r
            invariant
                canvas.wf(),
                canvas.spec_width() == old(canvas).spec_width(),
                canvas.spec_height() == old(canvas).spec_height(),
                -r <= ox <= r,
                -r <= oy <= r + 1,
                canvas@.dom() == old(canvas)@.dom(),
                forall|p: (int, int)| #[trigger] canvas@.dom().contains(p) ==> canvas@[p] == (
                if (cx - r <= p.0 < cx + ox && cy - r <= p.1 <= cy + r) || (p.0 == cx + ox && cy - r
                    <= p.1 < cy + oy) {
                    color
                } else {
                    old(canvas)@[p]
                }),
            decreases r + 1 - oy,
        {
            canvas.set(cx + ox, cy + oy, color);
            proof {
                assert(canvas@.dom() =~= old(canvas)@.dom());
            }
            oy = oy + 1;
        }
        ox = ox + 1;
    }
    proof {
        assert forall|p: (int, int)| #[trigger] old(canvas)@.dom().contains(p) implies canvas@[p]
            == painted(old(canvas)@, seq![(cx as int, cy as int)], radius as int, color)[p] by {
            lemma_covered_single(p, (cx as int, cy as int), radius as int);
        }
        assert(canvas@ =~= painted(
            old(canvas)@,
            seq![(cx as int, cy as int)],
            radius as int,
            color,
        ));
    }
}

/// Draws a stroke from `(sx, sy)` to `(ex, ey)`: walks cell by cell by
/// integer-decision stepping and stamps a filled square of side
/// `2 * radius + 1` in `color` around every stepped cell, clipped to
/// the canvas. Cells off the canvas are never touched, and a stroke
/// whose ends coincide changes nothing.
#[verifier::loop_isolation(false)]
#[verifier::rlimit(60)]
pub fn draw_line(canvas: &mut PixelCanvas, sx: u32, sy: u32, ex: u32, ey: u32, radius: u32, color: Color)
    requires
        old(canvas).wf(),
        radius <= 10,
    ensures
        final(canvas).wf(),
        final(canvas).spec_width() == old(canvas).spec_width(),
        final(canvas).spec_height() == old(canvas).spec_height(),
        final(canvas)@ == painted(
            old(canvas)@,
            line_points(sx as int, sy as int, ex as int, ey as int),
            radius as int,
            color,
        ),
{
    let sx64 = sx as i64;
    let sy64 = sy as i64;
    let ex64 = ex as i64;
    let ey64 = ey as i64;
    let dx: i64 = if ex64 >= sx64 {
        ex64 - sx64
    } else {
        sx64 - ex64
    };
    let dy: i64 = if ey64 >= sy64 {
        ey64 - sy64
    } else {
        sy64 - ey64
    };
    let sgx: i64 = if sx64 < ex64 {
        1
    } else {
        -1
    };
    let sgy: i64 = if sy64 < ey64 {
        1
    } else {
        -1
    };
    let mut err: i128 = dx as i128 - dy as i128;
    let mut x: i64 = sx64;
    let mut y: i64 = sy64;
    let ghost pts = line_points(sx as int, sy as int, ex as int, ey as int);
    let ghost mut a: int = 0;
    let ghost mut b: int = 0;
    let ghost mut done: Seq<(int, int)> = seq![];
    proof {
        assert(canvas@ =~= painted(old(canvas)@, done, radius as int, color));
        assert(done + bres_rest(
            x as int,
            y as int,
            err as int,
            dx as int,
            dy as int,
            ex as int,
            ey as int,
        ) =~= pts);
    }
    while x != ex64 || y != ey64
        invariant
            canvas.wf(),
            canvas.spec_width() == old(canvas).spec_width(),
            canvas.spec_height() == old(canvas).spec_height(),
            0 <= a <= dx,
            0 <= b <= dy,
            sgx == 1 ==> x == sx64 + a,
            sgx == -1 ==> x == sx64 - a,
            sgy == 1 ==> y == sy64 + b,
            sgy == -1 ==> y == sy64 - b,
            0 <= x <= u32::MAX as i64,
            0 <= y <= u32::MAX as i64,
            err as int == dx as int + b * dx as int - dy as int - a * dy as int,
            pts == done + bres_rest(x as int, y as int, err as int, dx as int, dy as int, ex as int, ey as int),
            canvas@ == painted(old(canvas)@, done, radius as int, color),
        decreases dx - a + dy - b,
    {
        let ghost x0 = x as int;
        let ghost y0 = y as int;
        let ghost err0 = err as int;
        let ghost a0 = a;
        let ghost b0 = b;
        proof {
            // the error term stays far from the i128 bounds
            assert(b * dx as int <= 0xffff_ffff * 0xffff_ffff && a * dy as int <= 0xffff_ffff
                * 0xffff_ffff) by (nonlinear_arith)
                requires
                    0 <= a <= dx < 0x1_0000_0000,
                    0 <= b <= dy < 0x1_0000_0000,
            ;
            assert(0 <= b * dx as int && 0 <= a * dy as int) by (nonlinear_arith)
                requires
                    0 <= a,
                    0 <= b,
                    0 <= dx,
                    0 <= dy,
            ;
        }
        let e2: i128 = 2 * err;
        let step_x = e2 > -(dy as i128);
        let step_y = e2 < dx as i128;
        proof {
            // the walker never steps past the end on either axis
            if step_x && a == dx {
                assert(y as int != ey as int);
                assert(b < dy);
                assert(2 * (dx as int + b * dx as int - dy as int - dx * dy as int) <= -dy as int)
                    by (nonlinear_arith)
                    requires
                        0 <= dx,
                        0 <= b,
                        b + 1 <= dy,
                ;
                assert(false);
            }
            if step_y && b == dy {
                assert(x as int != ex as int);
                assert(a < dx);
                assert(2 * (dx as int + dy * dx as int - dy as int - a * dy as int) >= dx as int)
                    by (nonlinear_arith)
                    requires
                        0 <= dy,
                        0 <= a,
                        a + 1 <= dx,
                ;
                assert(false);
            }
            if !step_x && !step_y {
                assert(dx as int <= 2 * err0 <= -dy as int);
                assert(dx == 0 && dy == 0);
                assert(false);
            }
        }
        if step_x {
            err = err - dy as i128;
            x = x + sgx;
            proof {
                a = a + 1;
                assert(a * dy as int == (a - 1) * dy as int + dy as int) by (nonlinear_arith);
            }
        }
        if step_y {
            err = err + dx as i128;
            y = y + sgy;
            proof {
                b = b + 1;
                assert(b * dx as int == (b - 1) * dx as int + dx as int) by (nonlinear_arith);
            }
        }
        proof {
            // the exec step is exactly one unfolding of the spec walk
            if a > a0 {
                assert(sign_of(ex as int - x0) == sgx as int);
            }
            if b > b0 {
                assert(sign_of(ey as int - y0) == sgy as int);
            }
            assert(bres_rest(x0, y0, err0, dx as int, dy as int, ex as int, ey as int) == seq![
                (x as int, y as int),
            ] + bres_rest(x as int, y as int, err as int, dx as int, dy as int, ex as int, ey as int));
        }
        let ghost rest = bres_rest(
            x as int,
            y as int,
            err as int,
            dx as int,
            dy as int,
            ex as int,
            ey as int,
        );
        let ghost stepped = (x as int, y as int);
        stamp_square(canvas, x, y, radius, color);
        proof {
            lemma_painted_push(old(canvas)@, done, stepped, radius as int, color);
            let done0 = done;
            done = done.push(stepped);
            assert(canvas@ == painted(old(canvas)@, done, radius as int, color));
            assert(pts == done + rest) by {
                assert(done0 + (seq![stepped] + rest) =~= done + rest);
            }
        }
    }
    proof {
        assert(bres_rest(x as int, y as int, err as int, dx as int, dy as int, ex as int, ey as int)
            =~= Seq::<(int, int)>::empty());
        assert(pts =~= done);
    }
}

/// Redraws the preview swatch: the whole buffer cleared to opaque
/// black, then one filled square of side `2 * radius + 1` in the brush
/// color centered in the middle.
pub fn render_preview(preview: &mut PixelCanvas, color: Color, radius: u32)
    requires
        old(preview).wf(),
        radius <= 10,
    ensures
        final(preview).wf(),
        final(preview).spec_width() == old(preview).spec_width(),
        final(preview).spec_height() == old(preview).spec_height(),
        final(preview)@ == painted(
            uniform_grid(old(preview).spec_width(), old(preview).spec_height(), black_spec()),
            seq![(old(preview).spec_width() / 2, old(preview).spec_height() / 2)],
            radius as int,
            color,
        ),
{
    let bg = black();
    preview.clear(bg);
    let cx = preview.width() / 2;
    let cy = preview.height() / 2;
    stamp_square(preview, cx as i64, cy as i64, radius, color);
}

} // verus!
