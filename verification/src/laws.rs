//! Proved behavioral laws of the automaton: the 2x2 block is a still
//! life, and the 3-cell blinker oscillates with period 2, swapping
//! orientation on every step.

use vstd::prelude::*;
use vstd::arithmetic::div_mod::{
    lemma_fundamental_div_mod, lemma_mod_bound, lemma_mod_multiples_vanish, lemma_small_mod,
};
use crate::game_of_life::GameOfLife;

verus! {

/// The residue `u` moved by one step `d` and wrapped back into `[0, m)`.
pub open spec fn wrapped_step(u: int, d: int, m: int) -> int {
    if u + d < 0 {
        u + d + m
    } else if u + d >= m {
        u + d - m
    } else {
        u + d
    }
}

/// Reducing one operand of a sum modulo `m` does not change the sum's
/// residue.
proof fn lemma_wrap_residue(c: int, a: int, d: int, m: int)
    requires
        1 <= m,
    ensures
        ((c % m) + d - a) % m == (c + d - a) % m,
{
    lemma_fundamental_div_mod(c, m);
    lemma_mod_multiples_vanish(c / m, (c % m) + d - a, m);
}

/// A unit step from an in-range residue wraps to `wrapped_step`.
proof fn lemma_unit_step_mod(u: int, d: int, m: int)
    requires
        2 <= m,
        0 <= u < m,
        -1 <= d <= 1,
    ensures
        (u + d) % m == wrapped_step(u, d, m),
{
    if u + d < 0 {
        lemma_mod_multiples_vanish(-1, u + d + m, m);
        lemma_small_mod((u + d + m) as nat, m as nat);
    } else if u + d >= m {
        lemma_mod_multiples_vanish(1, u + d - m, m);
        lemma_small_mod((u + d - m) as nat, m as nat);
    } else {
        lemma_small_mod((u + d) as nat, m as nat);
    }
}

/// The anchored residue of a wrapped unit step: moving coordinate `c` by
/// `d` on the torus and re-anchoring at `a` steps the anchored residue of
/// `c` by `d`, wrapped.
proof fn lemma_wrapped_residues(c: int, a: int, d: int, m: int)
    requires
        2 <= m,
        -1 <= d <= 1,
    ensures
        0 <= (c + d) % m < m,
        (((c + d) % m) - a) % m == wrapped_step((c - a) % m, d, m),
        0 <= (c - a) % m < m,
{
    lemma_mod_bound(c + d, m);
    lemma_mod_bound(c - a, m);
    lemma_wrap_residue(c + d, a, 0, m);
    lemma_wrap_residue(c - a, 0, d, m);
    lemma_unit_step_mod((c - a) % m, d, m);
}

/// The grid holds exactly one 2x2 block of live cells, anchored
/// (toroidally) at (ox, oy), and nothing else.
pub open spec fn only_block(g: GameOfLife, ox: int, oy: int) -> bool {
    forall|x: int, y: int|
        0 <= x < g.width && 0 <= y < g.height ==> #[trigger] g.cell(x, y) == ((x - ox) % (
        g.width as int) < 2 && (y - oy) % (g.height as int) < 2)
}

/// The grid holds exactly one horizontal 3-cell line of live cells,
/// anchored (toroidally) at (ox, oy), and nothing else.
pub open spec fn only_blinker_h(g: GameOfLife, ox: int, oy: int) -> bool {
    forall|x: int, y: int|
        0 <= x < g.width && 0 <= y < g.height ==> #[trigger] g.cell(x, y) == ((x - ox) % (
        g.width as int) < 3 && (y - oy) % (g.height as int) == 0)
}

/// The grid holds exactly one vertical 3-cell line of live cells,
/// anchored (toroidally) at (ox, oy), and nothing else.
pub open spec fn only_blinker_v(g: GameOfLife, ox: int, oy: int) -> bool {
    forall|x: int, y: int|
        0 <= x < g.width && 0 <= y < g.height ==> #[trigger] g.cell(x, y) == ((x - ox) % (
        g.width as int) == 0 && (y - oy) % (g.height as int) < 3)
}

/// One cell's step when the grid holds only a 2x2 block: it keeps its
/// value.
proof fn lemma_block_cell_step(g: GameOfLife, ox: int, oy: int, x: int, y: int)
    requires
        g.wf(),
        3 <= g.width,
        3 <= g.height,
        only_block(g, ox, oy),
        0 <= x < g.width,
        0 <= y < g.height,
    ensures
        g.next_alive(x, y) == g.cell(x, y),
{
    let w = g.width as int;
    let h = g.height as int;
    lemma_wrapped_residues(x, ox, -1, w);
    lemma_wrapped_residues(x, ox, 0, w);
    lemma_wrapped_residues(x, ox, 1, w);
    lemma_wrapped_residues(y, oy, -1, h);
    lemma_wrapped_residues(y, oy, 0, h);
    lemma_wrapped_residues(y, oy, 1, h);
    lemma_small_mod(x as nat, w as nat);
    lemma_small_mod(y as nat, h as nat);
}

/// Law: a 2x2 block of four live cells on an otherwise empty grid (at
/// least 3 cells wide and high, so that the block does not touch itself
/// around the torus) is a still life — one generation step changes no
/// cell, so any number of steps leaves it unchanged.
pub proof fn lemma_block_still_life(g: GameOfLife, ox: int, oy: int)
    requires
        g.wf(),
        3 <= g.width,
        3 <= g.height,
        only_block(g, ox, oy),
    ensures
        forall|x: int, y: int|
            0 <= x < g.width && 0 <= y < g.height ==> #[trigger] g.next_alive(x, y) == g.cell(
                x,
                y,
            ),
{
    assert forall|x: int, y: int|
        0 <= x < g.width && 0 <= y < g.height implies #[trigger] g.next_alive(x, y) == g.cell(
        x,
        y,
    ) by {
        lemma_block_cell_step(g, ox, oy, x, y);
    }
}

/// One cell's step when the grid holds only a horizontal blinker.
proof fn lemma_blinker_h_cell_step(g: GameOfLife, ox: int, oy: int, x: int, y: int)
    requires
        g.wf(),
        4 <= g.width,
        4 <= g.height,
        only_blinker_h(g, ox, oy),
        0 <= x < g.width,
        0 <= y < g.height,
    ensures
        g.next_alive(x, y) == ((x - (ox + 1)) % (g.width as int) == 0 && (y - (oy - 1)) % (
        g.height as int) < 3),
{
    let w = g.width as int;
    let h = g.height as int;
    lemma_wrapped_residues(x, ox, -1, w);
    lemma_wrapped_residues(x, ox, 0, w);
    lemma_wrapped_residues(x, ox, 1, w);
    lemma_wrapped_residues(y, oy, -1, h);
    lemma_wrapped_residues(y, oy, 0, h);
    lemma_wrapped_residues(y, oy, 1, h);
    lemma_small_mod(x as nat, w as nat);
    lemma_small_mod(y as nat, h as nat);
    lemma_wrap_residue(x - ox, 0, -1, w);
    lemma_unit_step_mod((x - ox) % w, -1, w);
    lemma_wrap_residue(y - oy, 0, 1, h);
    lemma_unit_step_mod((y - oy) % h, 1, h);
}

/// Law: a horizontal 3-cell blinker on an otherwise empty grid (at least
/// 4 cells wide and high) becomes, after exactly one step, the vertical
/// blinker centered on the same cell.
pub proof fn lemma_blinker_h_to_v(g: GameOfLife, ox: int, oy: int)
    requires
        g.wf(),
        4 <= g.width,
        4 <= g.height,
        only_blinker_h(g, ox, oy),
    ensures
        forall|x: int, y: int|
            0 <= x < g.width && 0 <= y < g.height ==> #[trigger] g.next_alive(x, y) == ((x - (ox
                + 1)) % (g.width as int) == 0 && (y - (oy - 1)) % (g.height as int) < 3),
{
    assert forall|x: int, y: int|
        0 <= x < g.width && 0 <= y < g.height implies #[trigger] g.next_alive(x, y) == ((x - (ox
        + 1)) % (g.width as int) == 0 && (y - (oy - 1)) % (g.height as int) < 3) by {
        lemma_blinker_h_cell_step(g, ox, oy, x, y);
    }
}

/// One cell's step when the grid holds only a vertical blinker.
proof fn lemma_blinker_v_cell_step(g: GameOfLife, ox: int, oy: int, x: int, y: int)
    requires
        g.wf(),
        4 <= g.width,
        4 <= g.height,
        only_blinker_v(g, ox, oy),
        0 <= x < g.width,
        0 <= y < g.height,
    ensures
        g.next_alive(x, y) == ((x - (ox - 1)) % (g.width as int) < 3 && (y - (oy + 1)) % (
        g.height as int) == 0),
{
    let w = g.width as int;
    let h = g.height as int;
    lemma_wrapped_residues(x, ox, -1, w);
    lemma_wrapped_residues(x, ox, 0, w);
    lemma_wrapped_residues(x, ox, 1, w);
    lemma_wrapped_residues(y, oy, -1, h);
    lemma_wrapped_residues(y, oy, 0, h);
    lemma_wrapped_residues(y, oy, 1, h);
    lemma_small_mod(x as nat, w as nat);
    lemma_small_mod(y as nat, h as nat);
    lemma_wrap_residue(x - ox, 0, 1, w);
    lemma_unit_step_mod((x - ox) % w, 1, w);
    lemma_wrap_residue(y - oy, 0, -1, h);
    lemma_unit_step_mod((y - oy) % h, -1, h);
}

/// Law: a vertical 3-cell blinker on an otherwise empty grid (at least 4
/// cells wide and high) becomes, after exactly one step, the horizontal
/// blinker centered on the same cell. Together with the horizontal case
/// this gives the period: a blinker returns to its own orientation and
/// position after exactly two steps, having spent the step in between in
/// the orthogonal orientation.
pub proof fn lemma_blinker_v_to_h(g: GameOfLife, ox: int, oy: int)
    requires
        g.wf(),
        4 <= g.width,
        4 <= g.height,
        only_blinker_v(g, ox, oy),
    ensures
        forall|x: int, y: int|
            0 <= x < g.width && 0 <= y < g.height ==> #[trigger] g.next_alive(x, y) == ((x - (ox
                - 1)) % (g.width as int) < 3 && (y - (oy + 1)) % (g.height as int) == 0),
{
    assert forall|x: int, y: int|
        0 <= x < g.width && 0 <= y < g.height implies #[trigger] g.next_alive(x, y) == ((x - (ox
        - 1)) % (g.width as int) < 3 && (y - (oy + 1)) % (g.height as int) == 0) by {
        lemma_blinker_v_cell_step(g, ox, oy, x, y);
    }
}

} // verus!
