//! The flood filler: recolors the 4-connected region of cells that
//! hold the seed's color, walking with an explicit stack rather than
//! recursion.
use vstd::prelude::*;

use crate::canvas::PixelCanvas;
use crate::canvas::grid_dom;
use crate::canvas::lemma_grid_dom_card;
use crate::canvas::uniform_grid;
use crate::color::Color;
use crate::raster::abs_of;
use vstd::set_lib::lemma_len_subset;

verus! {

broadcast use vstd::set::group_set_axioms;

/// Whether two cells share an edge (4-connectivity); corner-only
/// contact does not count.
pub open spec fn adj(p: (int, int), q: (int, int)) -> bool {
    ||| p.0 == q.0 && (p.1 == q.1 + 1 || p.1 == q.1 - 1)
    ||| p.1 == q.1 && (p.0 == q.0 + 1 || p.0 == q.0 - 1)
}

/// Whether `path` is a walk through edge-adjacent cells of `g` that
/// all hold `target`.
pub open spec fn is_fill_path(g: Map<(int, int), Color>, target: Color, path: Seq<(int, int)>) -> bool {
    &&& path.len() > 0
    &&& forall|i: int|
        0 <= i < path.len() ==> g.dom().contains(#[trigger] path[i]) && g[path[i]] == target
    &&& forall|i: int| 0 <= i < path.len() - 1 ==> adj(#[trigger] path[i], path[i + 1])
}

/// Whether `p` can be reached from `seed` through a 4-connected chain
/// of cells of `g` that all hold `target`.
pub open spec fn reaches(g: Map<(int, int), Color>, target: Color, seed: (int, int), p: (int, int)) -> bool {
    exists|path: Seq<(int, int)>|
        #[trigger] is_fill_path(g, target, path) && path.first() == seed && path.last() == p
}

/// The grid after flood filling from `seed` with `fill`: when the seed
/// already holds the fill color nothing changes; otherwise every cell
/// reachable from the seed through cells of the seed's color takes the
/// fill color and every other cell keeps its own.
pub open spec fn flood_fill_spec(g: Map<(int, int), Color>, seed: (int, int), fill: Color) -> Map<
    (int, int),
    Color,
> {
    let target = g[seed];
    if target == fill {
        g
    } else {
        Map::new(
            |p: (int, int)| g.dom().contains(p),
            |p: (int, int)|
                if reaches(g, target, seed, p) {
                    fill
                } else {
                    g[p]
                },
        )
    }
}

/// A cell whose color is the target reaches itself.
pub proof fn lemma_reaches_self(g: Map<(int, int), Color>, target: Color, seed: (int, int))
    requires
        g.dom().contains(seed),
        g[seed] == target,
    ensures
        reaches(g, target, seed, seed),
{
    let path: Seq<(int, int)> = seq![seed];
    assert(path.first() == seed && path.last() == seed);
    assert(is_fill_path(g, target, path));
}

/// One more edge-adjacent target cell extends reachability.
proof fn lemma_reaches_extend(
    g: Map<(int, int), Color>,
    target: Color,
    seed: (int, int),
    c: (int, int),
    d: (int, int),
)
    requires
        reaches(g, target, seed, c),
        adj(c, d),
        g.dom().contains(d),
        g[d] == target,
    ensures
        reaches(g, target, seed, d),
{
    let path = choose|path: Seq<(int, int)>|
        #[trigger] is_fill_path(g, target, path) && path.first() == seed && path.last() == c;
    let path2 = path.push(d);
    assert forall|i: int|
        0 <= i < path2.len() implies g.dom().contains(#[trigger] path2[i]) && g[path2[i]]
        == target by {
        if i < path.len() {
            assert(path2[i] == path[i]);
        } else {
            assert(path2[i] == d);
        }
    }
    assert forall|i: int| 0 <= i < path2.len() - 1 implies adj(#[trigger] path2[i], path2[i + 1]) by {
        if i < path.len() - 1 {
            assert(path2[i] == path[i] && path2[i + 1] == path[i + 1]);
        } else {
            assert(path2[i] == path.last() && path2[i + 1] == d);
        }
    }
    assert(is_fill_path(g, target, path2));
    assert(path2.first() == seed && path2.last() == d);
}

/// A reached cell holds the target color.
pub proof fn lemma_reaches_target(
    g: Map<(int, int), Color>,
    target: Color,
    seed: (int, int),
    p: (int, int),
)
    requires
        reaches(g, target, seed, p),
    ensures
        g.dom().contains(p),
        g[p] == target,
{
    let path = choose|path: Seq<(int, int)>|
        #[trigger] is_fill_path(g, target, path) && path.first() == seed && path.last() == p;
    assert(path.last() == path[path.len() - 1]);
}

/// Walking a target-colored path out of a set that is closed under
/// target-colored adjacency never leaves the set.
proof fn lemma_path_stays(
    g: Map<(int, int), Color>,
    target: Color,
    filled: Set<(int, int)>,
    path: Seq<(int, int)>,
)
    requires
        is_fill_path(g, target, path),
        filled.contains(path.first()),
        forall|c: (int, int), d: (int, int)|
            filled.contains(c) && #[trigger] adj(c, d) && g.dom().contains(d) && g[d] == target
                ==> filled.contains(d),
    ensures
        filled.contains(path.last()),
    decreases path.len(),
{
    if path.len() > 1 {
        assert(adj(path[0], path[1]));
        assert(filled.contains(path[1]));
        let rest = path.drop_first();
        assert forall|i: int|
            0 <= i < rest.len() implies g.dom().contains(#[trigger] rest[i]) && g[rest[i]]
            == target by {
            assert(rest[i] == path[i + 1]);
        }
        assert forall|i: int| 0 <= i < rest.len() - 1 implies adj(#[trigger] rest[i], rest[i + 1]) by {
            assert(rest[i] == path[i + 1]);
            assert(rest[i + 1] == path[i + 2]);
        }
        assert(is_fill_path(g, target, rest));
        assert(rest.first() == path[1]);
        lemma_path_stays(g, target, filled, rest);
        assert(rest.last() == path.last());
    }
}

/// Law: flood filling is idempotent — a second fill from the same seed
/// with the same color changes nothing.
pub proof fn lemma_flood_fill_idempotent(g: Map<(int, int), Color>, seed: (int, int), fill: Color)
    requires
        g.dom().contains(seed),
    ensures
        flood_fill_spec(flood_fill_spec(g, seed, fill), seed, fill) == flood_fill_spec(
            g,
            seed,
            fill,
        ),
{
    let g1 = flood_fill_spec(g, seed, fill);
    if g[seed] != fill {
        lemma_reaches_self(g, g[seed], seed);
        assert(g1.dom().contains(seed));
        assert(g1[seed] == fill);
    }
}

/// Every cell of a uniform grid is reachable from any of its cells.
proof fn lemma_uniform_reach(w: int, h: int, c: Color, seed: (int, int), p: (int, int))
    requires
        0 <= seed.0 < w,
        0 <= seed.1 < h,
        0 <= p.0 < w,
        0 <= p.1 < h,
    ensures
        reaches(uniform_grid(w, h, c), c, seed, p),
    decreases abs_of(p.0 - seed.0) + abs_of(p.1 - seed.1),
{
    let g = uniform_grid(w, h, c);
    assert(g.dom().contains(p) && g[p] == c);
    if p == seed {
        lemma_reaches_self(g, c, seed);
    } else if p.0 != seed.0 {
        let q = (
            if p.0 > seed.0 {
                p.0 - 1
            } else {
                p.0 + 1
            },
            p.1,
        );
        lemma_uniform_reach(w, h, c, seed, q);
        assert(adj(q, p));
        lemma_reaches_extend(g, c, seed, q, p);
    } else {
        let q = (
            p.0,
            if p.1 > seed.1 {
                p.1 - 1
            } else {
                p.1 + 1
            },
        );
        lemma_uniform_reach(w, h, c, seed, q);
        assert(adj(q, p));
        lemma_reaches_extend(g, c, seed, q, p);
    }
}

/// Law: flood filling a fully uniform `w` by `h` canvas from any of
/// its cells recolors every one of its `w * h` cells.
pub proof fn lemma_flood_fill_uniform(w: int, h: int, c: Color, fill: Color, seed: (int, int))
    requires
        0 <= seed.0 < w,
        0 <= seed.1 < h,
        fill != c,
    ensures
        flood_fill_spec(uniform_grid(w, h, c), seed, fill) == uniform_grid(w, h, fill),
        uniform_grid(w, h, c).dom().len() == w * h,
{
    let g = uniform_grid(w, h, c);
    lemma_grid_dom_card(w, h);
    assert(g.dom() =~= grid_dom(w, h));
    assert(g[seed] == c);
    assert forall|p: (int, int)| #[trigger] g.dom().contains(p) implies flood_fill_spec(
        g,
        seed,
        fill,
    )[p] == fill by {
        lemma_uniform_reach(w, h, c, seed, p);
    }
    assert(flood_fill_spec(g, seed, fill) =~= uniform_grid(w, h, fill));
}

/// Law: the fill never crosses a diagonal-only gap. A cell that is not
/// 4-connected to the seed keeps its color, and two cells that touch
/// only at a corner are not 4-adjacent, so corner contact alone never
/// carries the fill across.
pub proof fn lemma_flood_fill_diagonal_gap(
    g: Map<(int, int), Color>,
    seed: (int, int),
    fill: Color,
    p: (int, int),
    q: (int, int),
)
    requires
        g.dom().contains(p),
        !reaches(g, g[seed], seed, p),
    ensures
        flood_fill_spec(g, seed, fill)[p] == g[p],
        p.0 != q.0 && p.1 != q.1 ==> !adj(p, q),
{
}

/// A cell whose color differs from the seed's is never recolored.
pub proof fn lemma_flood_fill_preserves_other_colors(
    g: Map<(int, int), Color>,
    seed: (int, int),
    fill: Color,
    p: (int, int),
)
    requires
        g.dom().contains(p),
        g[p] != g[seed],
    ensures
        flood_fill_spec(g, seed, fill)[p] == g[p],
{
    if g[seed] != fill && reaches(g, g[seed], seed, p) {
        lemma_reaches_target(g, g[seed], seed, p);
    }
}

/// The integer coordinates of a stack entry.
spec fn cell(c: (u32, u32)) -> (int, int) {
    (c.0 as int, c.1 as int)
}

/// Whether some stack entry names the cell `p`.
spec fn stack_has(s: Seq<(u32, u32)>, p: (int, int)) -> bool {
    exists|i: int| 0 <= i < s.len() && cell(#[trigger] s[i]) == p
}

/// Whether a stack entry names an on-grid cell that is the seed or
/// borders a filled cell.
spec fn entry_ok(w: int, h: int, seed: (int, int), filled: Set<(int, int)>, e: (u32, u32)) -> bool {
    &&& (e.0 as int) < w
    &&& (e.1 as int) < h
    &&& (cell(e) == seed || exists|c: (int, int)| #[trigger] filled.contains(c) && adj(c, cell(e)))
}

spec fn entries_ok(
    w: int,
    h: int,
    seed: (int, int),
    filled: Set<(int, int)>,
    s: Seq<(u32, u32)>,
) -> bool {
    forall|i: int| 0 <= i < s.len() ==> entry_ok(w, h, seed, filled, #[trigger] s[i])
}

proof fn lemma_entries_ok_push(
    w: int,
    h: int,
    seed: (int, int),
    filled: Set<(int, int)>,
    s: Seq<(u32, u32)>,
    e: (u32, u32),
)
    requires
        entries_ok(w, h, seed, filled, s),
        entry_ok(w, h, seed, filled, e),
    ensures
        entries_ok(w, h, seed, filled, s.push(e)),
{
    assert forall|i: int|
        0 <= i < s.push(e).len() implies entry_ok(w, h, seed, filled, #[trigger] s.push(e)[i]) by {
        if i < s.len() {
            assert(s.push(e)[i] == s[i]);
        } else {
            assert(s.push(e)[i] == e);
        }
    }
}

proof fn lemma_entries_ok_grow(
    w: int,
    h: int,
    seed: (int, int),
    filled: Set<(int, int)>,
    filled2: Set<(int, int)>,
    s: Seq<(u32, u32)>,
)
    requires
        entries_ok(w, h, seed, filled, s),
        forall|c: (int, int)| filled.contains(c) ==> filled2.contains(c),
    ensures
        entries_ok(w, h, seed, filled2, s),
{
    assert forall|i: int|
        0 <= i < s.len() implies entry_ok(w, h, seed, filled2, #[trigger] s[i]) by {
        assert(entry_ok(w, h, seed, filled, s[i]));
        if cell(s[i]) != seed {
            let c = choose|c: (int, int)| #[trigger] filled.contains(c) && adj(c, cell(s[i]));
            assert(filled2.contains(c) && adj(c, cell(s[i])));
        }
    }
}

/// Flood fills from the seed: reads the seed's color and, unless it
/// already equals `fill`, recolors with `fill` every cell reachable
/// from the seed through edge-adjacent cells of that color. The walk
/// keeps an explicit stack of cells still to visit.
#[verifier::loop_isolation(false)]
#[verifier::rlimit(100)]
pub fn flood_fill(canvas: &mut PixelCanvas, sx: u32, sy: u32, fill: Color)
    requires
        old(canvas).wf(),
        (sx as int) < old(canvas).spec_width(),
        (sy as int) < old(canvas).spec_height(),
    ensures
        final(canvas).wf(),
        final(canvas).spec_width() == old(canvas).spec_width(),
        final(canvas).spec_height() == old(canvas).spec_height(),
        final(canvas)@ == flood_fill_spec(old(canvas)@, (sx as int, sy as int), fill),
{
    let ghost g0 = canvas@;
    let ghost seed = (sx as int, sy as int);
    let target = canvas.get(sx, sy);
    if target == fill {
        return ;
    }
    let w = canvas.width();
    let h = canvas.height();
    proof {
        lemma_grid_dom_card(w as int, h as int);
    }
    let mut stack: Vec<(u32, u32)> = Vec::new();
    stack.push((sx, sy));
    let ghost mut filled: Set<(int, int)> = Set::empty();
    proof {
        assert(cell(stack@[0]) == seed);
        assert(stack_has(stack@, seed));
        assert(entries_ok(w as int, h as int, seed, filled, stack@)) by {
            assert forall|i: int|
                0 <= i < stack@.len() implies entry_ok(
                w as int,
                h as int,
                seed,
                filled,
                #[trigger] stack@[i],
            ) by {
                assert(stack@[i] == (sx, sy));
            }
        }
    }
    while stack.len() > 0
        invariant
            canvas.wf(),
            canvas.spec_width() == w as int,
            canvas.spec_height() == h as int,
            canvas@.dom() == g0.dom(),
            filled.finite(),
            filled.len() <= w as int * h as int,
            forall|p: (int, int)| #[trigger]
                filled.contains(p) ==> g0.dom().contains(p) && g0[p] == target && reaches(
                    g0,
                    target,
                    seed,
                    p,
                ),
            forall|p: (int, int)| #[trigger] g0.dom().contains(p) ==> canvas@[p] == (
            if filled.contains(p) {
                fill
            } else {
                g0[p]
            }),
            forall|c: (int, int), d: (int, int)|
                filled.contains(c) && #[trigger] adj(c, d) && g0.dom().contains(d) && g0[d]
                    == target && !filled.contains(d) ==> stack_has(stack@, d),
            entries_ok(w as int, h as int, seed, filled, stack@),
            filled.contains(seed) || stack_has(stack@, seed),
        decreases 5 * (w as int * h as int - filled.len()) + stack@.len(),
    {
        let ghost stack0 = stack@;
        let p = stack.pop().unwrap();
        let ghost spop = stack@;
        let px = p.0;
        let py = p.1;
        let ghost pc = (px as int, py as int);
        proof {
            assert(stack0[stack0.len() - 1] == p);
            assert(entry_ok(w as int, h as int, seed, filled, p));
        }
        let cur = canvas.get(px, py);
        if cur == target {
            proof {
                // an unfilled cell still showing the target keeps its
                // original color, so this cell is new and reachable
                assert(g0.dom().contains(pc));
                assert(!filled.contains(pc));
                assert(g0[pc] == target);
                if pc == seed {
                    lemma_reaches_self(g0, target, seed);
                } else {
                    let c = choose|c: (int, int)| #[trigger] filled.contains(c) && adj(c, cell(p));
                    lemma_reaches_extend(g0, target, seed, c, pc);
                }
            }
            let ghost filled_before = filled;
            canvas.set(px as i64, py as i64, fill);
            proof {
                assert(canvas@.dom() =~= g0.dom());
                filled = filled.insert(pc);
                assert(filled.subset_of(grid_dom(w as int, h as int)));
                lemma_len_subset(filled, grid_dom(w as int, h as int));
            }
            if px > 0 {
                stack.push((px - 1, py));
            }
            let ghost s1 = stack@;
            if px < w - 1 {
                stack.push((px + 1, py));
            }
            let ghost s2 = stack@;
            if py > 0 {
                stack.push((px, py - 1));
            }
            let ghost s3 = stack@;
            if py < h - 1 {
                stack.push((px, py + 1));
            }
            proof {
                let e1 = (((px - 1) as u32), py);
                let e2 = (((px + 1) as u32), py);
                let e3 = (px, ((py - 1) as u32));
                let e4 = (px, ((py + 1) as u32));
                // pushing never loses what the stack already had
                assert forall|q: (int, int)| stack_has(spop, q) implies stack_has(s1, q) by {
                    let i = choose|i: int| 0 <= i < spop.len() && cell(#[trigger] spop[i]) == q;
                    assert(cell(s1[i]) == q);
                }
                assert forall|q: (int, int)| stack_has(s1, q) implies stack_has(s2, q) by {
                    let i = choose|i: int| 0 <= i < s1.len() && cell(#[trigger] s1[i]) == q;
                    assert(cell(s2[i]) == q);
                }
                assert forall|q: (int, int)| stack_has(s2, q) implies stack_has(s3, q) by {
                    let i = choose|i: int| 0 <= i < s2.len() && cell(#[trigger] s2[i]) == q;
                    assert(cell(s3[i]) == q);
                }
                assert forall|q: (int, int)| stack_has(s3, q) implies stack_has(stack@, q) by {
                    let i = choose|i: int| 0 <= i < s3.len() && cell(#[trigger] s3[i]) == q;
                    assert(cell(stack@[i]) == q);
                }
                // every frontier cell still waits on the stack, or was
                // the cell just filled
                assert forall|c: (int, int), d: (int, int)|
                    filled.contains(c) && #[trigger] adj(c, d) && g0.dom().contains(d) && g0[d]
                        == target && !filled.contains(d) implies stack_has(stack@, d) by {
                    if c == pc {
                        if d == (pc.0 - 1, pc.1) {
                            assert(px > 0);
                            assert(stack_has(s1, d)) by {
                                assert(cell(s1[spop.len() as int]) == d);
                            }
                        } else if d == (pc.0 + 1, pc.1) {
                            assert(px < w - 1);
                            assert(stack_has(s2, d)) by {
                                assert(cell(s2[s1.len() as int]) == d);
                            }
                        } else if d == (pc.0, pc.1 - 1) {
                            assert(py > 0);
                            assert(stack_has(s3, d)) by {
                                assert(cell(s3[s2.len() as int]) == d);
                            }
                        } else {
                            assert(d == (pc.0, pc.1 + 1));
                            assert(py < h - 1);
                            assert(stack_has(stack@, d)) by {
                                assert(cell(stack@[s3.len() as int]) == d);
                            }
                        }
                    } else {
                        assert(filled_before.contains(c));
                        assert(stack_has(stack0, d));
                        let i = choose|i: int|
                            0 <= i < stack0.len() && cell(#[trigger] stack0[i]) == d;
                        assert(d != pc);
                        assert(i < stack0.len() - 1);
                        assert(cell(spop[i]) == d);
                        assert(stack_has(spop, d));
                    }
                }
                // all stack entries still name on-grid cells that are
                // the seed or border a filled cell
                assert(entries_ok(w as int, h as int, seed, filled_before, spop)) by {
                    assert forall|i: int|
                        0 <= i < spop.len() implies entry_ok(
                        w as int,
                        h as int,
                        seed,
                        filled_before,
                        #[trigger] spop[i],
                    ) by {
                        assert(spop[i] == stack0[i]);
                    }
                }
                lemma_entries_ok_grow(w as int, h as int, seed, filled_before, filled, spop);
                assert(entries_ok(w as int, h as int, seed, filled, s1)) by {
                    if px > 0 {
                        assert(entry_ok(w as int, h as int, seed, filled, e1)) by {
                            assert(filled.contains(pc) && adj(pc, cell(e1)));
                        }
                        lemma_entries_ok_push(w as int, h as int, seed, filled, spop, e1);
                    }
                }
                assert(entries_ok(w as int, h as int, seed, filled, s2)) by {
                    if px < w - 1 {
                        assert(entry_ok(w as int, h as int, seed, filled, e2)) by {
                            assert(filled.contains(pc) && adj(pc, cell(e2)));
                        }
                        lemma_entries_ok_push(w as int, h as int, seed, filled, s1, e2);
                    }
                }
                assert(entries_ok(w as int, h as int, seed, filled, s3)) by {
                    if py > 0 {
                        assert(entry_ok(w as int, h as int, seed, filled, e3)) by {
                            assert(filled.contains(pc) && adj(pc, cell(e3)));
                        }
                        lemma_entries_ok_push(w as int, h as int, seed, filled, s2, e3);
                    }
                }
                assert(entries_ok(w as int, h as int, seed, filled, stack@)) by {
                    if py < h - 1 {
                        assert(entry_ok(w as int, h as int, seed, filled, e4)) by {
                            assert(filled.contains(pc) && adj(pc, cell(e4)));
                        }
                        lemma_entries_ok_push(w as int, h as int, seed, filled, s3, e4);
                    }
                }
                // the seed is filled or still waits on the stack
                if !filled.contains(seed) {
                    assert(seed != pc);
                    assert(stack_has(stack0, seed));
                    let i = choose|i: int|
                        0 <= i < stack0.len() && cell(#[trigger] stack0[i]) == seed;
                    assert(i < stack0.len() - 1);
                    assert(cell(spop[i]) == seed);
                    assert(stack_has(spop, seed));
                }
            }
        } else {
            proof {
                // the popped cell no longer shows the target, so no
                // frontier cell and not the seed was lost with it
                assert forall|c: (int, int), d: (int, int)|
                    filled.contains(c) && #[trigger] adj(c, d) && g0.dom().contains(d) && g0[d]
                        == target && !filled.contains(d) implies stack_has(stack@, d) by {
                    assert(stack_has(stack0, d));
                    let i = choose|i: int| 0 <= i < stack0.len() && cell(#[trigger] stack0[i]) == d;
                    if i == stack0.len() - 1 {
                        assert(d == pc);
                        assert(canvas@[d] == g0[d]);
                        assert(false);
                    }
                    assert(cell(spop[i]) == d);
                    assert(stack_has(spop, d));
                }
                assert(entries_ok(w as int, h as int, seed, filled, spop)) by {
                    assert forall|i: int|
                        0 <= i < spop.len() implies entry_ok(
                        w as int,
                        h as int,
                        seed,
                        filled,
                        #[trigger] spop[i],
                    ) by {
                        assert(spop[i] == stack0[i]);
                    }
                }
                if !filled.contains(seed) {
                    assert(g0.dom().contains(seed));
                    assert(stack_has(stack0, seed));
                    let i = choose|i: int|
                        0 <= i < stack0.len() && cell(#[trigger] stack0[i]) == seed;
                    if i == stack0.len() - 1 {
                        assert(seed == pc);
                        assert(canvas@[seed] == g0[seed]);
                        assert(false);
                    }
                    assert(cell(spop[i]) == seed);
                    assert(stack_has(spop, seed));
                }
            }
        }
    }
    proof {
        // the stack is spent: the filled set is closed under
        // target-colored adjacency, so it holds the whole region
        assert forall|q: (int, int)| #[trigger] g0.dom().contains(q) implies canvas@[q]
            == flood_fill_spec(g0, seed, fill)[q] by {
            if reaches(g0, target, seed, q) {
                let path = choose|path: Seq<(int, int)>|
                    #[trigger] is_fill_path(g0, target, path) && path.first() == seed && path.last()
                        == q;
                lemma_path_stays(g0, target, filled, path);
            }
        }
        assert(canvas@ =~= flood_fill_spec(g0, seed, fill));
    }
}

} // verus!
