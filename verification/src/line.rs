//! Integer line rasterization: an error-accumulation walk from one
//! endpoint to the other that writes one pixel per step through the
//! framebuffer's bounds-checked `set_pixel`, so lines may safely run
//! partially off-canvas.

use vstd::prelude::*;
use crate::framebuffer::FrameBuffer;

verus! {

/// Absolute value of a coordinate delta.
pub open spec fn abs_i(a: int) -> int {
    if a >= 0 {
        a
    } else {
        -a
    }
}

/// The per-axis step direction: +1 when walking from `a` up to `b`,
/// otherwise -1.
pub open spec fn sign_step(a: int, b: int) -> int {
    if a < b {
        1
    } else {
        -1
    }
}

/// The pixels the error-accumulation walk visits on its way from (x, y)
/// to (x2, y2), both endpoints included. At each step the doubled error
/// decides whether x, y or both advance: x advances when `2 * err > -dy`
/// (dy is then subtracted from the error) and y advances when
/// `2 * err < dx` (dx is then added). `fuel` bounds the recursion; a walk
/// started consistently reaches the endpoint before its fuel runs out.
pub open spec fn walk(
    x: int,
    y: int,
    x2: int,
    y2: int,
    dx: int,
    dy: int,
    sx: int,
    sy: int,
    err: int,
    fuel: nat,
) -> Seq<(int, int)>
    decreases fuel,
{
    if (x == x2 && y == y2) || fuel == 0 {
        seq![(x, y)]
    } else {
        let mx = 2 * err > -dy;
        let my = 2 * err < dx;
        if !mx && !my {
            seq![(x, y)]
        } else {
            let nx = if mx {
                x + sx
            } else {
                x
            };
            let ny = if my {
                y + sy
            } else {
                y
            };
            let ne = err + (if mx {
                -dy
            } else {
                0
            }) + (if my {
                dx
            } else {
                0
            });
            let used = (if mx {
                1int
            } else {
                0int
            }) + (if my {
                1int
            } else {
                0int
            });
            let nf = if used <= fuel {
                (fuel - used) as nat
            } else {
                0nat
            };
            seq![(x, y)] + walk(nx, ny, x2, y2, dx, dy, sx, sy, ne, nf)
        }
    }
}

/// The full pixel trace of the line from (x1, y1) to (x2, y2): the walk
/// started with error `dx - dy` and enough fuel to reach the endpoint.
pub open spec fn line_points(x1: int, y1: int, x2: int, y2: int) -> Seq<(int, int)> {
    let dx = abs_i(x2 - x1);
    let dy = abs_i(y2 - y1);
    walk(
        x1,
        y1,
        x2,
        y2,
        dx,
        dy,
        sign_step(x1, x2),
        sign_step(y1, y2),
        dx - dy,
        (dx + dy) as nat,
    )
}

/// Law: a degenerate line whose endpoints coincide consists of exactly
/// that one pixel.
pub proof fn lemma_line_single_point(x: int, y: int)
    ensures
        line_points(x, y, x, y) =~= seq![(x, y)],
{
}

/// The horizontal walk visits one pixel per column, left to right, all on
/// the starting row.
proof fn lemma_walk_horizontal(x: int, y: int, x2: int, dx: int, sy: int, fuel: nat)
    requires
        x <= x2,
        fuel == x2 - x,
        dx >= x2 - x,
    ensures
        walk(x, y, x2, y, dx, 0, 1, sy, dx, fuel) =~= Seq::new(
            (x2 - x + 1) as nat,
            |i: int| (x + i, y),
        ),
    decreases fuel,
{
    if x == x2 {
        assert(walk(x, y, x2, y, dx, 0, 1, sy, dx, fuel) =~= Seq::new(
            (x2 - x + 1) as nat,
            |i: int| (x + i, y),
        ));
    } else {
        lemma_walk_horizontal(x + 1, y, x2, dx, sy, (fuel - 1) as nat);
        assert(walk(x, y, x2, y, dx, 0, 1, sy, dx, fuel) =~= seq![(x, y)] + walk(
            x + 1,
            y,
            x2,
            y,
            dx,
            0,
            1,
            sy,
            dx,
            (fuel - 1) as nat,
        ));
        assert(seq![(x, y)] + Seq::new((x2 - x) as nat, |i: int| (x + 1 + i, y)) =~= Seq::new(
            (x2 - x + 1) as nat,
            |i: int| (x + i, y),
        ));
    }
}

/// Law: the trace of a horizontal line from (x1, y) rightwards to (x2, y)
/// is exactly one pixel per column, from x1 to x2 inclusive, all on row y.
pub proof fn lemma_line_horizontal(x1: int, y: int, x2: int)
    requires
        x1 <= x2,
    ensures
        line_points(x1, y, x2, y) =~= Seq::new((x2 - x1 + 1) as nat, |i: int| (x1 + i, y)),
{
    if x1 == x2 {
        assert(line_points(x1, y, x2, y) =~= Seq::new(
            (x2 - x1 + 1) as nat,
            |i: int| (x1 + i, y),
        ));
    } else {
        lemma_walk_horizontal(x1, y, x2, x2 - x1, sign_step(y, y), (x2 - x1) as nat);
    }
}

/// The x-dominant walk (dy <= dx) advances x on every step: starting from
/// a state whose error term and deviation are consistent, the remaining
/// trace holds one point per remaining x unit and ends at the endpoint.
/// The deviation `dy * px - dx * py` measures how far the walk has strayed
/// from the ideal line; the walk keeps its double within `dx`.
proof fn lemma_walk_shape_x(
    x: int,
    y: int,
    x2: int,
    y2: int,
    dx: int,
    dy: int,
    sx: int,
    sy: int,
    err: int,
    px: int,
    py: int,
)
    requires
        0 <= dy <= dx,
        sx == 1 || sx == -1,
        sy == 1 || sy == -1,
        0 <= px <= dx,
        0 <= py <= dy,
        x2 - x == (if sx == 1 {
            dx - px
        } else {
            -(dx - px)
        }),
        y2 - y == (if sy == 1 {
            dy - py
        } else {
            -(dy - py)
        }),
        err == dx * (1 + py) - dy * (1 + px),
        -dx <= 2 * (dy * px - dx * py) <= dx,
        dx == dy ==> dy * px - dx * py == 0,
    ensures
        walk(x, y, x2, y2, dx, dy, sx, sy, err, ((dx - px) + (dy - py)) as nat).len() == (dx - px)
            + 1,
        walk(x, y, x2, y2, dx, dy, sx, sy, err, ((dx - px) + (dy - py)) as nat)[0] == (x, y),
        walk(x, y, x2, y2, dx, dy, sx, sy, err, ((dx - px) + (dy - py)) as nat).last() == (x2, y2),
    decreases (dx - px) + (dy - py),
{
    let fuel = ((dx - px) + (dy - py)) as nat;
    if x == x2 && y == y2 {
        assert(walk(x, y, x2, y2, dx, dy, sx, sy, err, fuel) =~= seq![(x, y)]);
    } else {
        assert(!(px == dx && py == dy));
        assert(err == dx - dy - (dy * px - dx * py)) by (nonlinear_arith)
            requires
                err == dx * (1 + py) - dy * (1 + px),
        ;
        let ghost d = dy * px - dx * py;
        assert(2 * err > -dy) by (nonlinear_arith)
            requires
                err == dx - dy - d,
                d == dy * px - dx * py,
                0 <= px <= dx,
                0 <= py <= dy,
                !(px == dx && py == dy),
                0 <= dy <= dx,
                2 * d <= dx,
                dx == dy ==> d == 0,
        ;
        assert(px < dx) by (nonlinear_arith)
            requires
                d == dy * px - dx * py,
                0 <= px <= dx,
                0 <= py <= dy,
                0 <= dy <= dx,
                !(px == dx && py == dy),
                2 * d <= dx,
        ;
        let my = 2 * err < dx;
        if my {
            assert(py < dy) by (nonlinear_arith)
                requires
                    err == dx * (1 + py) - dy * (1 + px),
                    2 * err < dx,
                    0 <= px < dx,
                    0 <= py <= dy,
            ;
        }
        let px2 = px + 1;
        let py2 = if my {
            py + 1
        } else {
            py
        };
        let err2 = err - dy + (if my {
            dx
        } else {
            0
        });
        assert(dy * (1 + px2) == dy * (1 + px) + dy) by (nonlinear_arith)
            requires
                px2 == px + 1,
        ;
        assert(dy * px2 == dy * px + dy) by (nonlinear_arith)
            requires
                px2 == px + 1,
        ;
        if my {
            assert(dx * (1 + py2) == dx * (1 + py) + dx) by (nonlinear_arith)
                requires
                    py2 == py + 1,
            ;
            assert(dx * py2 == dx * py + dx) by (nonlinear_arith)
                requires
                    py2 == py + 1,
            ;
        }
        assert(err2 == dx * (1 + py2) - dy * (1 + px2));
        let ghost d2 = dy * px2 - dx * py2;
        assert(-dx <= 2 * d2 <= dx);
        assert(dx == dy ==> d2 == 0);
        let nx = x + sx;
        let ny = if my {
            y + sy
        } else {
            y
        };
        lemma_walk_shape_x(nx, ny, x2, y2, dx, dy, sx, sy, err2, px2, py2);
        let nf = ((dx - px2) + (dy - py2)) as nat;
        assert(walk(x, y, x2, y2, dx, dy, sx, sy, err, fuel) =~= seq![(x, y)] + walk(
            nx,
            ny,
            x2,
            y2,
            dx,
            dy,
            sx,
            sy,
            err2,
            nf,
        ));
    }
}

/// The y-dominant walk (dx <= dy) advances y on every step; otherwise as
/// [`lemma_walk_shape_x`].
proof fn lemma_walk_shape_y(
    x: int,
    y: int,
    x2: int,
    y2: int,
    dx: int,
    dy: int,
    sx: int,
    sy: int,
    err: int,
    px: int,
    py: int,
)
    requires
        0 <= dx <= dy,
        sx == 1 || sx == -1,
        sy == 1 || sy == -1,
        0 <= px <= dx,
        0 <= py <= dy,
        x2 - x == (if sx == 1 {
            dx - px
        } else {
            -(dx - px)
        }),
        y2 - y == (if sy == 1 {
            dy - py
        } else {
            -(dy - py)
        }),
        err == dx * (1 + py) - dy * (1 + px),
        -dy <= 2 * (dy * px - dx * py) <= dy,
        dx == dy ==> dy * px - dx * py == 0,
    ensures
        walk(x, y, x2, y2, dx, dy, sx, sy, err, ((dx - px) + (dy - py)) as nat).len() == (dy - py)
            + 1,
        walk(x, y, x2, y2, dx, dy, sx, sy, err, ((dx - px) + (dy - py)) as nat)[0] == (x, y),
        walk(x, y, x2, y2, dx, dy, sx, sy, err, ((dx - px) + (dy - py)) as nat).last() == (x2, y2),
    decreases (dx - px) + (dy - py),
{
    let fuel = ((dx - px) + (dy - py)) as nat;
    if x == x2 && y == y2 {
        assert(walk(x, y, x2, y2, dx, dy, sx, sy, err, fuel) =~= seq![(x, y)]);
    } else {
        assert(!(px == dx && py == dy));
        assert(err == dx - dy - (dy * px - dx * py)) by (nonlinear_arith)
            requires
                err == dx * (1 + py) - dy * (1 + px),
        ;
        let ghost d = dy * px - dx * py;
        assert(2 * err < dx) by (nonlinear_arith)
            requires
                err == dx - dy - d,
                d == dy * px - dx * py,
                0 <= px <= dx,
                0 <= py <= dy,
                !(px == dx && py == dy),
                0 <= dx <= dy,
                -dy <= 2 * d,
                dx == dy ==> d == 0,
        ;
        assert(py < dy) by (nonlinear_arith)
            requires
                d == dy * px - dx * py,
                0 <= px <= dx,
                0 <= py <= dy,
                0 <= dx <= dy,
                !(px == dx && py == dy),
                -dy <= 2 * d,
        ;
        let mx = 2 * err > -dy;
        if mx {
            assert(px < dx) by (nonlinear_arith)
                requires
                    err == dx * (1 + py) - dy * (1 + px),
                    2 * err > -dy,
                    0 <= px <= dx,
                    0 <= py < dy,
            ;
        }
        let px2 = if mx {
            px + 1
        } else {
            px
        };
        let py2 = py + 1;
        let err2 = err + dx + (if mx {
            -dy
        } else {
            0
        });
        assert(dx * (1 + py2) == dx * (1 + py) + dx) by (nonlinear_arith)
            requires
                py2 == py + 1,
        ;
        assert(dx * py2 == dx * py + dx) by (nonlinear_arith)
            requires
                py2 == py + 1,
        ;
        if mx {
            assert(dy * (1 + px2) == dy * (1 + px) + dy) by (nonlinear_arith)
                requires
                    px2 == px + 1,
            ;
            assert(dy * px2 == dy * px + dy) by (nonlinear_arith)
                requires
                    px2 == px + 1,
            ;
        }
        assert(err2 == dx * (1 + py2) - dy * (1 + px2));
        let ghost d2 = dy * px2 - dx * py2;
        assert(-dy <= 2 * d2 <= dy);
        assert(dx == dy ==> d2 == 0);
        let nx = if mx {
            x + sx
        } else {
            x
        };
        let ny = y + sy;
        lemma_walk_shape_y(nx, ny, x2, y2, dx, dy, sx, sy, err2, px2, py2);
        let nf = ((dx - px2) + (dy - py2)) as nat;
        assert(walk(x, y, x2, y2, dx, dy, sx, sy, err, fuel) =~= seq![(x, y)] + walk(
            nx,
            ny,
            x2,
            y2,
            dx,
            dy,
            sx,
            sy,
            err2,
            nf,
        ));
    }
}

/// Law: the trace of any line holds exactly `max(|dx|, |dy|) + 1` points
/// — one per unit of the dominant axis — and begins at the start point
/// and ends at the end point.
pub proof fn lemma_line_points_shape(x1: int, y1: int, x2: int, y2: int)
    ensures
        line_points(x1, y1, x2, y2).len() == (if abs_i(x2 - x1) >= abs_i(y2 - y1) {
            abs_i(x2 - x1)
        } else {
            abs_i(y2 - y1)
        }) + 1,
        line_points(x1, y1, x2, y2)[0] == (x1, y1),
        line_points(x1, y1, x2, y2).last() == (x2, y2),
{
    let dx = abs_i(x2 - x1);
    let dy = abs_i(y2 - y1);
    if dy <= dx {
        lemma_walk_shape_x(
            x1,
            y1,
            x2,
            y2,
            dx,
            dy,
            sign_step(x1, x2),
            sign_step(y1, y2),
            dx - dy,
            0,
            0,
        );
    } else {
        lemma_walk_shape_y(
            x1,
            y1,
            x2,
            y2,
            dx,
            dy,
            sign_step(x1, x2),
            sign_step(y1, y2),
            dx - dy,
            0,
            0,
        );
    }
}

/// Two consecutive trace points differ by at most one step on each axis
/// and never coincide.
pub open spec fn adjacent(p: (int, int), q: (int, int)) -> bool {
    &&& abs_i(q.0 - p.0) <= 1
    &&& abs_i(q.1 - p.1) <= 1
    &&& q != p
}

/// Every pair of consecutive points of a walk is adjacent.
proof fn lemma_walk_connected(
    x: int,
    y: int,
    x2: int,
    y2: int,
    dx: int,
    dy: int,
    sx: int,
    sy: int,
    err: int,
    fuel: nat,
)
    requires
        sx == 1 || sx == -1,
        sy == 1 || sy == -1,
    ensures
        forall|i: int|
            0 <= i < walk(x, y, x2, y2, dx, dy, sx, sy, err, fuel).len() - 1 ==> adjacent(
                walk(x, y, x2, y2, dx, dy, sx, sy, err, fuel)[i],
                #[trigger] walk(x, y, x2, y2, dx, dy, sx, sy, err, fuel)[i + 1],
            ),
    decreases fuel,
{
    let w = walk(x, y, x2, y2, dx, dy, sx, sy, err, fuel);
    if (x == x2 && y == y2) || fuel == 0 {
    } else {
        let mx = 2 * err > -dy;
        let my = 2 * err < dx;
        if !mx && !my {
        } else {
            let nx = if mx {
                x + sx
            } else {
                x
            };
            let ny = if my {
                y + sy
            } else {
                y
            };
            let ne = err + (if mx {
                -dy
            } else {
                0
            }) + (if my {
                dx
            } else {
                0
            });
            let used = (if mx {
                1int
            } else {
                0int
            }) + (if my {
                1int
            } else {
                0int
            });
            let nf = if used <= fuel {
                (fuel - used) as nat
            } else {
                0nat
            };
            let tail = walk(nx, ny, x2, y2, dx, dy, sx, sy, ne, nf);
            lemma_walk_connected(nx, ny, x2, y2, dx, dy, sx, sy, ne, nf);
            assert(w =~= seq![(x, y)] + tail);
            assert(tail[0] == (nx, ny));
            assert(adjacent((x, y), (nx, ny)));
            assert forall|i: int| 0 <= i < w.len() - 1 implies adjacent(
                w[i],
                #[trigger] w[i + 1],
            ) by {
                assert(w[i] == (seq![(x, y)] + tail)[i]);
                assert(w[i + 1] == (seq![(x, y)] + tail)[i + 1]);
                if i == 0 {
                    assert(w[0] == (x, y));
                    assert(w[1] == tail[0]);
                } else {
                    let j = i - 1;
                    assert(adjacent(tail[j], tail[j + 1]));
                    assert(w[i] == tail[j]);
                    assert(w[i + 1] == tail[j + 1]);
                }
            }
        }
    }
}

/// Law: a line's trace is 8-connected — each point follows the previous
/// one by a single step of at most one pixel per axis, with no gaps and
/// no repeats of the same point twice in a row.
pub proof fn lemma_line_points_connected(x1: int, y1: int, x2: int, y2: int)
    ensures
        forall|i: int|
            0 <= i < line_points(x1, y1, x2, y2).len() - 1 ==> adjacent(
                line_points(x1, y1, x2, y2)[i],
                #[trigger] line_points(x1, y1, x2, y2)[i + 1],
            ),
{
    let dx = abs_i(x2 - x1);
    let dy = abs_i(y2 - y1);
    lemma_walk_connected(
        x1,
        y1,
        x2,
        y2,
        dx,
        dy,
        sign_step(x1, x2),
        sign_step(y1, y2),
        dx - dy,
        (dx + dy) as nat,
    );
}

/// Pushing one element onto a sequence extends its membership by exactly
/// that element.
proof fn lemma_contains_push<A>(s: Seq<A>, e: A)
    ensures
        forall|v: A| #[trigger] s.push(e).contains(v) <==> (s.contains(v) || v == e),
{
    assert forall|v: A| #[trigger] s.push(e).contains(v) implies (s.contains(v) || v == e) by {
        let i = choose|i: int| 0 <= i < s.push(e).len() && #[trigger] s.push(e)[i] == v;
        if i < s.len() {
            assert(s[i] == v);
        }
    }
    assert forall|v: A| (s.contains(v) || v == e) implies #[trigger] s.push(e).contains(v) by {
        if s.contains(v) {
            let i = choose|i: int| 0 <= i < s.len() && #[trigger] s[i] == v;
            assert(s.push(e)[i] == v);
        } else {
            assert(s.push(e)[s.len() as int] == v);
        }
    }
}

/// Draws the line between the two endpoints: walks from start to end with
/// an integer error accumulator, writing every visited pixel in the
/// current draw color. Pixels off the canvas are clipped silently by
/// `set_pixel`.
pub fn line(framebuffer: &mut FrameBuffer, x1: i32, y1: i32, x2: i32, y2: i32)
    requires
        old(framebuffer).wf(),
    ensures
        final(framebuffer).wf(),
        final(framebuffer).width == old(framebuffer).width,
        final(framebuffer).height == old(framebuffer).height,
        final(framebuffer).background_color == old(framebuffer).background_color,
        final(framebuffer).current_color == old(framebuffer).current_color,
        forall|i: int, j: int|
            final(framebuffer).in_bounds(i, j) ==> #[trigger] final(framebuffer).pixel(i, j) == (
            if line_points(x1 as int, y1 as int, x2 as int, y2 as int).contains((i, j)) {
                old(framebuffer).current_color
            } else {
                old(framebuffer).pixel(i, j)
            }),
{
    let xs = x1 as i64;
    let ys = y1 as i64;
    let xe = x2 as i64;
    let ye = y2 as i64;
    let dx: i64 = if xe >= xs {
        xe - xs
    } else {
        xs - xe
    };
    let dy: i64 = if ye >= ys {
        ye - ys
    } else {
        ys - ye
    };
    let sx: i64 = if x1 < x2 {
        1
    } else {
        -1
    };
    let sy: i64 = if y1 < y2 {
        1
    } else {
        -1
    };
    let mut err: i64 = dx - dy;
    let mut x = xs;
    let mut y = ys;
    let ghost trace = line_points(x1 as int, y1 as int, x2 as int, y2 as int);
    let ghost mut px: int = 0;
    let ghost mut py: int = 0;
    let ghost mut emitted: Seq<(int, int)> = seq![(xs as int, ys as int)];

    framebuffer.set_pixel(x1, y1);
    proof {
        assert(err as int == (dx as int) * (1 + py) - (dy as int) * (1 + px)) by (nonlinear_arith)
            requires
                err as int == dx as int - dy as int,
                px == 0,
                py == 0,
        ;
        lemma_contains_push(Seq::<(int, int)>::empty(), (xs as int, ys as int));
        assert(Seq::<(int, int)>::empty().push((xs as int, ys as int)) =~= emitted);
        assert(emitted.drop_last() =~= Seq::<(int, int)>::empty());
        assert(emitted.drop_last() + walk(
            x as int,
            y as int,
            xe as int,
            ye as int,
            dx as int,
            dy as int,
            sx as int,
            sy as int,
            err as int,
            ((dx - px) + (dy - py)) as nat,
        ) =~= trace);
    }
    while !(x == xe && y == ye)
        invariant
            framebuffer.wf(),
            framebuffer.width == old(framebuffer).width,
            framebuffer.height == old(framebuffer).height,
            framebuffer.background_color == old(framebuffer).background_color,
            framebuffer.current_color == old(framebuffer).current_color,
            xs == x1 as int && ys == y1 as int && xe == x2 as int && ye == y2 as int,
            dx == abs_i(xe as int - xs as int),
            dy == abs_i(ye as int - ys as int),
            sx == sign_step(xs as int, xe as int),
            sy == sign_step(ys as int, ye as int),
            0 <= px <= dx as int,
            0 <= py <= dy as int,
            x as int == xs as int + (if xs < xe {
                px
            } else {
                -px
            }),
            y as int == ys as int + (if ys < ye {
                py
            } else {
                -py
            }),
            err as int == (dx as int) * (1 + py) - (dy as int) * (1 + px),
            -2 * (dy as int) <= err as int <= 2 * (dx as int),
            trace == line_points(x1 as int, y1 as int, x2 as int, y2 as int),
            emitted.len() >= 1,
            emitted.last() == (x as int, y as int),
            emitted.drop_last() + walk(
                x as int,
                y as int,
                xe as int,
                ye as int,
                dx as int,
                dy as int,
                sx as int,
                sy as int,
                err as int,
                ((dx - px) + (dy - py)) as nat,
            ) == trace,
            forall|i: int, j: int|
                framebuffer.in_bounds(i, j) ==> #[trigger] framebuffer.pixel(i, j) == (
                if emitted.contains((i, j)) {
                    old(framebuffer).current_color
                } else {
                    old(framebuffer).pixel(i, j)
                }),
        decreases (dx as int - px) + (dy as int - py),
    {
        let ghost fuel = ((dx - px) + (dy - py)) as nat;
        proof {
            assert(px < dx as int || py < dy as int);
            assert(fuel >= 1);
        }
        let e2 = 2 * err;
        let mvx = e2 > -dy;
        let mvy = e2 < dx;
        proof {
            assert(mvx || mvy);
            if mvx {
                assert(px < dx as int) by (nonlinear_arith)
                    requires
                        err as int == (dx as int) * (1 + py) - (dy as int) * (1 + px),
                        0 <= px <= dx as int,
                        0 <= py <= dy as int,
                        !(px == dx as int && py == dy as int),
                        2 * (err as int) > -(dy as int),
                ;
            }
            if mvy {
                assert(py < dy as int) by (nonlinear_arith)
                    requires
                        err as int == (dx as int) * (1 + py) - (dy as int) * (1 + px),
                        0 <= px <= dx as int,
                        0 <= py <= dy as int,
                        !(px == dx as int && py == dy as int),
                        2 * (err as int) < dx as int,
                ;
            }
            if mvx {
                assert((dy as int) * (1 + (px + 1)) == (dy as int) * (1 + px) + dy as int) by (
                nonlinear_arith);
            }
            if mvy {
                assert((dx as int) * (1 + (py + 1)) == (dx as int) * (1 + py) + dx as int) by (
                nonlinear_arith);
            }
        }
        let ghost old_emitted = emitted;
        let ghost old_x = x as int;
        let ghost old_y = y as int;
        let ghost old_err = err as int;
        if mvx {
            err = err - dy;
            x = x + sx;
            proof {
                px = px + 1;
            }
        }
        if mvy {
            err = err + dx;
            y = y + sy;
            proof {
                py = py + 1;
            }
        }
        proof {
            let used: int = (if mvx {
                1int
            } else {
                0int
            }) + (if mvy {
                1int
            } else {
                0int
            });
            let nf = ((dx - px) + (dy - py)) as nat;
            assert(nf == fuel - used);
            assert(walk(
                old_x,
                old_y,
                xe as int,
                ye as int,
                dx as int,
                dy as int,
                sx as int,
                sy as int,
                old_err,
                fuel,
            ) =~= seq![(old_x, old_y)] + walk(
                x as int,
                y as int,
                xe as int,
                ye as int,
                dx as int,
                dy as int,
                sx as int,
                sy as int,
                err as int,
                nf,
            ));
            emitted = emitted.push((x as int, y as int));
            assert(emitted.drop_last() =~= old_emitted);
            assert(old_emitted.drop_last().push((old_x, old_y)) =~= old_emitted);
            assert(emitted.drop_last() + walk(
                x as int,
                y as int,
                xe as int,
                ye as int,
                dx as int,
                dy as int,
                sx as int,
                sy as int,
                err as int,
                nf,
            ) =~= trace);
            lemma_contains_push(old_emitted, (x as int, y as int));
        }
        framebuffer.set_pixel(x as i32, y as i32);
        proof {
            assert(x as i32 as int == x as int);
            assert(y as i32 as int == y as int);
        }
    }
    proof {
        assert(walk(
            x as int,
            y as int,
            xe as int,
            ye as int,
            dx as int,
            dy as int,
            sx as int,
            sy as int,
            err as int,
            ((dx - px) + (dy - py)) as nat,
        ) =~= seq![(x as int, y as int)]);
        assert(emitted.drop_last().push((x as int, y as int)) =~= emitted);
        assert(emitted =~= trace);
    }
}

} // verus!
