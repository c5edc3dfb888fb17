//! The renderer boundary: maps grid cells to canvas pixel blocks at a
//! configurable scale factor, drawing live cells in white over the
//! background.

use vstd::prelude::*;
use crate::framebuffer::{Color, FrameBuffer};
use crate::game_of_life::GameOfLife;

verus! {

/// Whether canvas pixel (i, j) lies in the block of a live cell when the
/// grid is drawn at the given scale.
pub open spec fn covered(game: GameOfLife, pixel_size: int, i: int, j: int) -> bool {
    &&& i / pixel_size < game.width
    &&& j / pixel_size < game.height
    &&& game.cell(i / pixel_size, j / pixel_size)
}

/// A pixel inside the block of cell `c` divides back to `c`.
proof fn lemma_div_in_block(i: int, c: int, ps: int)
    by (nonlinear_arith)
    requires
        1 <= ps,
        c * ps <= i < c * ps + ps,
    ensures
        i / ps == c,
{
}

/// A non-negative pixel that divides to cell `c` lies inside that cell's
/// block.
proof fn lemma_div_out_block(i: int, c: int, ps: int)
    by (nonlinear_arith)
    requires
        1 <= ps,
        0 <= i,
        i / ps == c,
    ensures
        c * ps <= i < c * ps + ps,
{
}

/// Rasterizes the grid onto the framebuffer: clears to the background,
/// then draws every live cell as a `pixel_size` by `pixel_size` white
/// block at the scaled cell origin; blocks past the canvas edge are
/// clipped silently.
pub fn render(framebuffer: &mut FrameBuffer, game: &GameOfLife, pixel_size: usize)
    requires
        old(framebuffer).wf(),
        game.wf(),
        1 <= pixel_size,
    ensures
        final(framebuffer).wf(),
        final(framebuffer).width == old(framebuffer).width,
        final(framebuffer).height == old(framebuffer).height,
        final(framebuffer).background_color == old(framebuffer).background_color,
        final(framebuffer).current_color == (Color { r: 255, g: 255, b: 255 }),
        forall|i: int, j: int|
            final(framebuffer).in_bounds(i, j) ==> #[trigger] final(framebuffer).pixel(i, j) == (
            if covered(*game, pixel_size as int, i, j) {
                (Color { r: 255, g: 255, b: 255 })
            } else {
                old(framebuffer).background_color
            }),
{
    framebuffer.set_color(Color::white());
    framebuffer.clear();
    proof {
        assert forall|i: int, j: int| framebuffer.in_bounds(i, j) implies #[trigger] framebuffer.pixel(
            i,
            j,
        ) == (if i / (pixel_size as int) < 0 && covered(*game, pixel_size as int, i, j) {
            (Color { r: 255, g: 255, b: 255 })
        } else {
            old(framebuffer).background_color
        }) by {
            vstd::arithmetic::div_mod::lemma_div_pos_is_pos(i, pixel_size as int);
        }
    }
    let gw = game.width;
    let gh = game.height;
    let mut x: usize = 0;
    while x < gw
        invariant
            framebuffer.wf(),
            framebuffer.width == old(framebuffer).width,
            framebuffer.height == old(framebuffer).height,
            framebuffer.background_color == old(framebuffer).background_color,
            framebuffer.current_color == (Color { r: 255, g: 255, b: 255 }),
            game.wf(),
            1 <= pixel_size,
            gw == game.width,
            gh == game.height,
            x <= gw,
            forall|i: int, j: int|
                framebuffer.in_bounds(i, j) ==> #[trigger] framebuffer.pixel(i, j) == (if i / (
                pixel_size as int) < x && covered(*game, pixel_size as int, i, j) {
                    (Color { r: 255, g: 255, b: 255 })
                } else {
                    old(framebuffer).background_color
                }),
        decreases gw - x,
    {
        let mut y: usize = 0;
        proof {
            assert forall|i: int, j: int| framebuffer.in_bounds(i, j) implies #[trigger] framebuffer.pixel(
                i,
                j,
            ) == (if (i / (pixel_size as int) < x || (i / (pixel_size as int) == x && j / (
            pixel_size as int) < 0)) && covered(*game, pixel_size as int, i, j) {
                (Color { r: 255, g: 255, b: 255 })
            } else {
                old(framebuffer).background_color
            }) by {
                vstd::arithmetic::div_mod::lemma_div_pos_is_pos(j, pixel_size as int);
            }
        }
        while y < gh
            invariant
                framebuffer.wf(),
                framebuffer.width == old(framebuffer).width,
                framebuffer.height == old(framebuffer).height,
                framebuffer.background_color == old(framebuffer).background_color,
                framebuffer.current_color == (Color { r: 255, g: 255, b: 255 }),
                game.wf(),
                1 <= pixel_size,
                gw == game.width,
                gh == game.height,
                x < gw,
                y <= gh,
                forall|i: int, j: int|
                    framebuffer.in_bounds(i, j) ==> #[trigger] framebuffer.pixel(i, j) == (if (i
                        / (pixel_size as int) < x || (i / (pixel_size as int) == x && j / (
                    pixel_size as int) < y)) && covered(*game, pixel_size as int, i, j) {
                        (Color { r: 255, g: 255, b: 255 })
                    } else {
                        old(framebuffer).background_color
                    }),
            decreases gh - y,
        {
            let alive = game.is_alive(x as isize, y as isize);
            proof {
                assert(game.alive_at(x as int, y as int) == game.cell(x as int, y as int)) by {
                    vstd::arithmetic::div_mod::lemma_small_mod(x as nat, gw as nat);
                    vstd::arithmetic::div_mod::lemma_small_mod(y as nat, gh as nat);
                }
            }
            if alive {
                match x.checked_mul(pixel_size) {
                    Some(x0) => match y.checked_mul(pixel_size) {
                        Some(y0) => {
                            framebuffer.fill_rect(x0, y0, pixel_size, pixel_size);
                            proof {
                                assert forall|i: int, j: int|
                                    framebuffer.in_bounds(i, j) implies #[trigger] framebuffer.pixel(
                                    i,
                                    j,
                                ) == (if (i / (pixel_size as int) < x || (i / (pixel_size as int)
                                    == x && j / (pixel_size as int) < y + 1)) && covered(
                                    *game,
                                    pixel_size as int,
                                    i,
                                    j,
                                ) {
                                    (Color { r: 255, g: 255, b: 255 })
                                } else {
                                    old(framebuffer).background_color
                                }) by {
                                    let ps = pixel_size as int;
                                    if x0 <= i < x0 + ps && y0 <= j < y0 + ps {
                                        lemma_div_in_block(i, x as int, ps);
                                        lemma_div_in_block(j, y as int, ps);
                                    } else {
                                        if i / ps == x {
                                            lemma_div_out_block(i, x as int, ps);
                                        }
                                        if j / ps == y {
                                            lemma_div_out_block(j, y as int, ps);
                                        }
                                    }
                                }
                            }
                        },
                        None => {
                            proof {
                                assert forall|i: int, j: int|
                                    framebuffer.in_bounds(i, j) implies #[trigger] framebuffer.pixel(
                                    i,
                                    j,
                                ) == (if (i / (pixel_size as int) < x || (i / (pixel_size as int)
                                    == x && j / (pixel_size as int) < y + 1)) && covered(
                                    *game,
                                    pixel_size as int,
                                    i,
                                    j,
                                ) {
                                    (Color { r: 255, g: 255, b: 255 })
                                } else {
                                    old(framebuffer).background_color
                                }) by {
                                    if j / (pixel_size as int) == y {
                                        lemma_div_out_block(j, y as int, pixel_size as int);
                                    }
                                }
                            }
                        },
                    },
                    None => {
                        proof {
                            assert forall|i: int, j: int|
                                framebuffer.in_bounds(i, j) implies #[trigger] framebuffer.pixel(
                                i,
                                j,
                            ) == (if (i / (pixel_size as int) < x || (i / (pixel_size as int) == x
                                && j / (pixel_size as int) < y + 1)) && covered(
                                *game,
                                pixel_size as int,
                                i,
                                j,
                            ) {
                                (Color { r: 255, g: 255, b: 255 })
                            } else {
                                old(framebuffer).background_color
                            }) by {
                                if i / (pixel_size as int) == x {
                                    lemma_div_out_block(i, x as int, pixel_size as int);
                                }
                            }
                        }
                    },
                }
            }
            y = y + 1;
        }
        x = x + 1;
    }
}

} // verus!
