//! The ray caster: a grid DDA that walks one cell at a time along
//! whichever axis has the nearer boundary crossing, stops at the first
//! wall cell (or at the map boundary), and reports the perpendicular
//! distance, the struck symbol, the crossed-axis flag and the fractional
//! position along the struck wall face.
//!
//! Positions are world units in 16.16 fixed point; directions are unit
//! vector components scaled by `FP`.

use vstd::prelude::*;

use crate::fixed::{FP, FP_SQ, abs_i, div_trunc, lemma_div_below, lemma_div_at_most};
use crate::maze::{Maze, is_wall_ch, is_passable_char};

verus! {

/// A stand-in for an unreachable boundary-crossing distance on an axis the
/// ray never advances along (its direction component is zero). Larger than
/// any side distance a real axis can accumulate, so comparisons pick the
/// other axis, as an infinite crossing distance would.
pub const SIDE_INF: i64 = 0x1000_0000_0000_0000;

/// The result of one cast: perpendicular distance to the struck wall in
/// world units (16.16 fixed point), the tile symbol struck, which grid
/// axis the final step crossed (`side` 0: a vertical grid line, 1: a
/// horizontal one), the fraction along the struck face in `[0, FP)`, and
/// the cell that stopped the ray.
#[derive(Clone, Copy, Debug)]
pub struct Hit {
    pub distance: i64,
    pub tile: char,
    pub side: i32,
    pub wall_x: i64,
    pub cell_x: i64,
    pub cell_y: i64,
}

/// World position converted to cell-fractional coordinates (16.16): the
/// position divided by the cell size.
pub open spec fn cell_fp(pos: int, bs: int) -> int {
    pos / bs
}

/// Perpendicular crossing distance, in cell units (16.16), from an origin
/// at `cpos` (cell units, 16.16) to the near face of cell index `cell`,
/// measured along an axis with direction component `dir != 0`:
/// `|cell - cpos + (1 - step)/2| / dir`, with machine truncation.
pub open spec fn perp_cells(cell: int, cpos: int, dir: int) -> int {
    let adj: int = if dir < 0 { FP as int } else { 0 };
    let num = cell * (FP as int) - cpos + adj;
    (abs_i(num) * (FP as int)) / abs_i(dir)
}

/// Perpendicular distance of a hit in world units (16.16): the crossing
/// distance along the axis that produced the stop, scaled by the cell size.
pub open spec fn perp_world(
    bs: int,
    cpx: int,
    cpy: int,
    dir_x: int,
    dir_y: int,
    cx: int,
    cy: int,
    side: int,
) -> int {
    if side == 0 {
        perp_cells(cx, cpx, dir_x) * bs
    } else {
        perp_cells(cy, cpy, dir_y) * bs
    }
}

/// The fraction along the struck wall face (16.16, in `[0, FP)`): the
/// world coordinate along the axis *other* than the one that produced the
/// stop, taken fractionally within its cell, and mirrored on positive-x
/// and negative-y facing sides so a texture reads left-to-right from
/// either approach.
pub open spec fn wall_frac(
    cpx: int,
    cpy: int,
    dir_x: int,
    dir_y: int,
    cx: int,
    cy: int,
    side: int,
) -> int {
    let perp = if side == 0 {
        perp_cells(cx, cpx, dir_x)
    } else {
        perp_cells(cy, cpy, dir_y)
    };
    let other_pos = if side == 0 { cpy } else { cpx };
    let other_dir = if side == 0 { dir_y } else { dir_x };
    let w0 = (other_pos + div_trunc(perp * other_dir, FP as int)) % (FP as int);
    if (side == 0 && dir_x > 0) || (side == 1 && dir_y < 0) {
        if w0 == 0 {
            0
        } else {
            (FP as int) - w0
        }
    } else {
        w0
    }
}

/// The cell index of a world coordinate (16.16) for a map with cell size
/// `bs`: the position in cell-fractional coordinates, floored.
pub open spec fn start_cell(pos: int, bs: int) -> int {
    (pos / bs) / (FP as int)
}

/// Stepping direction on an axis: -1 for a negative component, +1
/// otherwise.
pub open spec fn step_of(dir: int) -> int {
    if dir < 0 {
        -1
    } else {
        1
    }
}

/// Whole-cell crossing distance on an axis (cell units, 16.16): the
/// reciprocal of the component's magnitude; 0 on a dead axis, whose side
/// distance starts at the unreachable `SIDE_INF` and never grows.
pub open spec fn delta_of(dir: int) -> int {
    if dir == 0 {
        0
    } else {
        (FP_SQ as int) / abs_i(dir)
    }
}

/// Initial side distance of an axis: the distance from the origin (at
/// `cpos`, cell units 16.16) to the first cell-boundary crossing, scaled
/// by the axis delta; unreachable on a dead axis.
pub open spec fn init_side(cpos: int, dir: int) -> int {
    if dir == 0 {
        SIDE_INF as int
    } else if dir < 0 {
        (cpos % (FP as int)) * delta_of(dir) / (FP as int)
    } else {
        ((FP as int) - cpos % (FP as int)) * delta_of(dir) / (FP as int)
    }
}

/// The DDA walk itself, as a mathematical function: from a cell and the
/// two accumulated side distances, advance along whichever axis has the
/// smaller one until the entered cell is a wall (out-of-bounds included),
/// and yield that cell and the crossed-axis flag. This is the full model
/// of the cast: the stopping cell is the *first* wall the walk reaches,
/// every cell entered before it is passable, and the result is a function
/// of the inputs alone.
pub open spec fn dda_walk(
    maze: &Maze,
    map_x: int,
    map_y: int,
    side_x: int,
    side_y: int,
    dir_x: int,
    dir_y: int,
) -> (int, int, int)
    decreases (if dir_x < 0 {
        map_x + 1
    } else {
        maze.width - map_x
    }) + (if dir_y < 0 {
        map_y + 1
    } else {
        maze.height - map_y
    })
        when 0 <= map_x < maze.width && 0 <= map_y < maze.height && maze.wf()
{
    if side_x < side_y {
        let mx = map_x + step_of(dir_x);
        if maze.spec_is_wall(mx, map_y) {
            (mx, map_y, 0int)
        } else {
            dda_walk(maze, mx, map_y, side_x + delta_of(dir_x), side_y, dir_x, dir_y)
        }
    } else {
        let my = map_y + step_of(dir_y);
        if maze.spec_is_wall(map_x, my) {
            (map_x, my, 1int)
        } else {
            dda_walk(maze, map_x, my, side_x, side_y + delta_of(dir_y), dir_x, dir_y)
        }
    }
}

/// Casts one ray from `(pos_x, pos_y)` (world units, 16.16, inside the
/// map) along direction `(dir_x, dir_y)` (components in `[-FP, FP]`, not
/// both zero) and returns the first wall the grid DDA reaches. The walk is
/// bounded: a step that leaves the map stops at the boundary symbol `'#'`,
/// so a hit is always returned.
#[verifier::rlimit(80)]
pub fn cast_ray(maze: &Maze, pos_x: i64, pos_y: i64, dir_x: i64, dir_y: i64) -> (hit: Hit)
    requires
        maze.wf(),
        0 <= pos_x < (maze.width as int) * (maze.block_size as int) * (FP as int),
        0 <= pos_y < (maze.height as int) * (maze.block_size as int) * (FP as int),
        -FP <= dir_x <= FP,
        -FP <= dir_y <= FP,
        dir_x != 0 || dir_y != 0,
    ensures
        hit.side == 0 || hit.side == 1,
        dir_y == 0 ==> hit.side == 0,
        dir_x == 0 ==> hit.side == 1,
        hit.side == 0 ==> dir_x != 0,
        hit.side == 1 ==> dir_y != 0,
        hit.distance >= 0,
        0 <= hit.wall_x < FP,
        -1 <= hit.cell_x <= maze.width,
        -1 <= hit.cell_y <= maze.height,
        maze.spec_is_wall(hit.cell_x as int, hit.cell_y as int),
        hit.tile == maze.spec_tile(hit.cell_x as int, hit.cell_y as int),
        dir_y == 0 ==> hit.cell_y == start_cell(pos_y as int, maze.block_size as int),
        dir_x == 0 ==> hit.cell_x == start_cell(pos_x as int, maze.block_size as int),
        (dir_y == 0 && dir_x > 0 && (forall|k: int|
            start_cell(pos_x as int, maze.block_size as int) < k < maze.width
                ==> !maze.spec_is_wall(k, start_cell(pos_y as int, maze.block_size as int))))
            ==> hit.tile == '#' && hit.cell_x == maze.width,
        (dir_y == 0 && dir_x < 0 && (forall|k: int|
            0 <= k < start_cell(pos_x as int, maze.block_size as int) ==> !maze.spec_is_wall(
                k,
                start_cell(pos_y as int, maze.block_size as int),
            ))) ==> hit.tile == '#' && hit.cell_x == -1,
        (dir_x == 0 && dir_y > 0 && (forall|k: int|
            start_cell(pos_y as int, maze.block_size as int) < k < maze.height
                ==> !maze.spec_is_wall(start_cell(pos_x as int, maze.block_size as int), k)))
            ==> hit.tile == '#' && hit.cell_y == maze.height,
        (dir_x == 0 && dir_y < 0 && (forall|k: int|
            0 <= k < start_cell(pos_y as int, maze.block_size as int) ==> !maze.spec_is_wall(
                start_cell(pos_x as int, maze.block_size as int),
                k,
            ))) ==> hit.tile == '#' && hit.cell_y == -1,
        (hit.cell_x as int, hit.cell_y as int, hit.side as int) == dda_walk(
            maze,
            start_cell(pos_x as int, maze.block_size as int),
            start_cell(pos_y as int, maze.block_size as int),
            init_side(cell_fp(pos_x as int, maze.block_size as int), dir_x as int),
            init_side(cell_fp(pos_y as int, maze.block_size as int), dir_y as int),
            dir_x as int,
            dir_y as int,
        ),
        hit.distance == perp_world(
            maze.block_size as int,
            cell_fp(pos_x as int, maze.block_size as int),
            cell_fp(pos_y as int, maze.block_size as int),
            dir_x as int,
            dir_y as int,
            hit.cell_x as int,
            hit.cell_y as int,
            hit.side as int,
        ),
        hit.wall_x == wall_frac(
            cell_fp(pos_x as int, maze.block_size as int),
            cell_fp(pos_y as int, maze.block_size as int),
            dir_x as int,
            dir_y as int,
            hit.cell_x as int,
            hit.cell_y as int,
            hit.side as int,
        ),
{
    let width = maze.width as i64;
    let height = maze.height as i64;
    let bs = maze.block_size as i64;

    // Origin in cell-fractional coordinates (16.16).
    let cpx = ((pos_x as u64) / (bs as u64)) as i64;
    let cpy = ((pos_y as u64) / (bs as u64)) as i64;
    proof {
        assert((maze.width as int) * (maze.block_size as int) * (FP as int) == (
        maze.block_size as int) * ((maze.width as int) * (FP as int))) by (nonlinear_arith);
        assert((maze.height as int) * (maze.block_size as int) * (FP as int) == (
        maze.block_size as int) * ((maze.height as int) * (FP as int))) by (nonlinear_arith);
        lemma_div_below(pos_x as int, bs as int, (maze.width as int) * (FP as int));
        lemma_div_below(pos_y as int, bs as int, (maze.height as int) * (FP as int));
        lemma_div_below(cpx as int, FP as int, maze.width as int);
        lemma_div_below(cpy as int, FP as int, maze.height as int);
    }
    assert(0 <= cpx < (maze.width as int) * (FP as int));
    assert(0 <= cpy < (maze.height as int) * (FP as int));

    // Cell the origin lies in.
    let mut map_x: i64 = ((cpx as u64) / (FP as u64)) as i64;
    let mut map_y: i64 = ((cpy as u64) / (FP as u64)) as i64;
    let ghost map_x0 = map_x as int;
    let ghost map_y0 = map_y as int;

    // Per-axis crossing distance for one whole cell, in cell units (16.16):
    // the reciprocal of the direction component's magnitude.
    let delta_x: i64 = if dir_x == 0 {
        0
    } else {
        let d = if dir_x < 0 { -dir_x } else { dir_x };
        ((FP_SQ as u64) / (d as u64)) as i64
    };
    let delta_y: i64 = if dir_y == 0 {
        0
    } else {
        let d = if dir_y < 0 { -dir_y } else { dir_y };
        ((FP_SQ as u64) / (d as u64)) as i64
    };
    proof {
        if dir_x != 0 {
            lemma_div_at_most(FP_SQ as int, abs_i(dir_x as int), FP_SQ as int);
        }
        if dir_y != 0 {
            lemma_div_at_most(FP_SQ as int, abs_i(dir_y as int), FP_SQ as int);
        }
    }

    // Distance to the first cell-boundary crossing on each axis, scaled by
    // that axis's delta; the stepping direction follows the sign of the
    // direction component.
    let rx: i64 = ((cpx as u64) % (FP as u64)) as i64;
    let ry: i64 = ((cpy as u64) % (FP as u64)) as i64;
    proof {
        vstd::arithmetic::div_mod::lemma_mod_bound(cpx as int, FP as int);
        vstd::arithmetic::div_mod::lemma_mod_bound(cpy as int, FP as int);
    }
    let step_x: i64;
    let mut side_x: i64;
    if dir_x == 0 {
        step_x = 1;
        side_x = SIDE_INF;
    } else {
        step_x = if dir_x < 0 {
            -1
        } else {
            1
        };
        let frac: i64 = if dir_x < 0 {
            rx
        } else {
            FP - rx
        };
        proof {
            assert(frac as int * delta_x as int <= (FP as int) * (FP_SQ as int))
                by (nonlinear_arith)
                requires
                    0 <= frac as int <= FP as int,
                    0 <= delta_x as int <= FP_SQ as int,
            ;
            lemma_div_at_most(frac as int * delta_x as int, FP as int, FP_SQ as int);
        }
        side_x = (((frac as u64) * (delta_x as u64)) / (FP as u64)) as i64;
    }
    let step_y: i64;
    let mut side_y: i64;
    if dir_y == 0 {
        step_y = 1;
        side_y = SIDE_INF;
    } else {
        step_y = if dir_y < 0 {
            -1
        } else {
            1
        };
        let frac: i64 = if dir_y < 0 {
            ry
        } else {
            FP - ry
        };
        proof {
            assert(frac as int * delta_y as int <= (FP as int) * (FP_SQ as int))
                by (nonlinear_arith)
                requires
                    0 <= frac as int <= FP as int,
                    0 <= delta_y as int <= FP_SQ as int,
            ;
            lemma_div_at_most(frac as int * delta_y as int, FP as int, FP_SQ as int);
        }
        side_y = (((frac as u64) * (delta_y as u64)) / (FP as u64)) as i64;
    }

    let ghost side_x0 = side_x as int;
    let ghost side_y0 = side_y as int;
    proof {
        assert(delta_x == delta_of(dir_x as int));
        assert(delta_y == delta_of(dir_y as int));
        assert(step_x == step_of(dir_x as int));
        assert(step_y == step_of(dir_y as int));
        assert(side_x0 == init_side(cpx as int, dir_x as int));
        assert(side_y0 == init_side(cpy as int, dir_y as int));
    }

    let mut side: i32 = 0;
    let mut hit_tile: char = '#';

    // Advance along whichever axis has the smaller accumulated crossing
    // distance until a wall cell or the map boundary stops the walk.
    loop
        invariant_except_break
            maze.wf(),
            width == maze.width as i64,
            height == maze.height as i64,
            0 <= map_x < width,
            0 <= map_y < height,
            0 <= map_x0 < width,
            0 <= map_y0 < height,
            step_x == 1 || step_x == -1,
            step_y == 1 || step_y == -1,
            dir_x < 0 <==> step_x == -1,
            dir_y < 0 <==> step_y == -1,
            dir_y == 0 ==> map_y == map_y0,
            dir_x == 0 ==> map_x == map_x0,
            step_x == 1 ==> map_x >= map_x0,
            step_x == -1 ==> map_x <= map_x0,
            step_y == 1 ==> map_y >= map_y0,
            step_y == -1 ==> map_y <= map_y0,
            dir_x != 0 || dir_y != 0,
            dir_x == 0 ==> delta_x == 0 && side_x == SIDE_INF,
            dir_y == 0 ==> delta_y == 0 && side_y == SIDE_INF,
            dir_x != 0 ==> 0 <= delta_x <= FP_SQ,
            dir_y != 0 ==> 0 <= delta_y <= FP_SQ,
            dir_x != 0 ==> 0 <= side_x <= (FP_SQ as int) * (1 + abs_i(map_x as int - map_x0)),
            dir_y != 0 ==> 0 <= side_y <= (FP_SQ as int) * (1 + abs_i(map_y as int - map_y0)),
            delta_x == delta_of(dir_x as int),
            delta_y == delta_of(dir_y as int),
            step_x == step_of(dir_x as int),
            step_y == step_of(dir_y as int),
            dda_walk(
                maze,
                map_x as int,
                map_y as int,
                side_x as int,
                side_y as int,
                dir_x as int,
                dir_y as int,
            ) == dda_walk(maze, map_x0, map_y0, side_x0, side_y0, dir_x as int, dir_y as int),
        ensures
            side == 0 || side == 1,
            dir_y == 0 ==> side == 0,
            dir_x == 0 ==> side == 1,
            side == 0 ==> dir_x != 0,
            side == 1 ==> dir_y != 0,
            -1 <= map_x <= width,
            -1 <= map_y <= height,
            dir_x < 0 <==> step_x == -1,
            dir_y < 0 <==> step_y == -1,
            hit_tile == maze.spec_tile(map_x as int, map_y as int),
            !is_passable_char(hit_tile),
            dir_y == 0 ==> map_y == map_y0,
            dir_x == 0 ==> map_x == map_x0,
            dir_y == 0 && dir_x > 0 ==> map_x > map_x0,
            dir_y == 0 && dir_x < 0 ==> map_x < map_x0,
            dir_x == 0 && dir_y > 0 ==> map_y > map_y0,
            dir_x == 0 && dir_y < 0 ==> map_y < map_y0,
            (map_x as int, map_y as int, side as int) == dda_walk(
                maze,
                map_x0,
                map_y0,
                side_x0,
                side_y0,
                dir_x as int,
                dir_y as int,
            ),
        decreases (if step_x == 1 {
            width - map_x
        } else {
            map_x + 1
        }) + (if step_y == 1 {
            height - map_y
        } else {
            map_y + 1
        }),
    {
        proof {
            if dir_x != 0 {
                assert((FP_SQ as int) * (1 + abs_i(map_x as int - map_x0)) <= (FP_SQ as int) * (1
                    + 4096)) by (nonlinear_arith)
                    requires
                        abs_i(map_x as int - map_x0) <= 4096,
                ;
            }
            if dir_y != 0 {
                assert((FP_SQ as int) * (1 + abs_i(map_y as int - map_y0)) <= (FP_SQ as int) * (1
                    + 4096)) by (nonlinear_arith)
                    requires
                        abs_i(map_y as int - map_y0) <= 4096,
                ;
            }
        }
        let ghost pre_mx = map_x as int;
        let ghost pre_my = map_y as int;
        let ghost pre_sx = side_x as int;
        let ghost pre_sy = side_y as int;
        if side_x < side_y {
            side_x = side_x + delta_x;
            map_x = map_x + step_x;
            side = 0;
        } else {
            side_y = side_y + delta_y;
            map_y = map_y + step_y;
            side = 1;
        }
        proof {
            // one unfolding of the walk from the pre-step state
            if pre_sx < pre_sy {
                assert(dda_walk(maze, pre_mx, pre_my, pre_sx, pre_sy, dir_x as int, dir_y as int)
                    == (if maze.spec_is_wall(map_x as int, pre_my) {
                    (map_x as int, pre_my, 0int)
                } else {
                    dda_walk(
                        maze,
                        map_x as int,
                        pre_my,
                        pre_sx + delta_of(dir_x as int),
                        pre_sy,
                        dir_x as int,
                        dir_y as int,
                    )
                }));
            } else {
                assert(dda_walk(maze, pre_mx, pre_my, pre_sx, pre_sy, dir_x as int, dir_y as int)
                    == (if maze.spec_is_wall(pre_mx, map_y as int) {
                    (pre_mx, map_y as int, 1int)
                } else {
                    dda_walk(
                        maze,
                        pre_mx,
                        map_y as int,
                        pre_sx,
                        pre_sy + delta_of(dir_y as int),
                        dir_x as int,
                        dir_y as int,
                    )
                }));
            }
        }

        if map_x < 0 || map_y < 0 || map_x >= width || map_y >= height {
            proof {
                assert(maze.spec_is_wall(map_x as int, map_y as int));
            }
            hit_tile = '#';
            break;
        }
        assert(maze.grid[map_y as int].len() == maze.width);
        hit_tile = maze.grid[map_y as usize][map_x as usize];
        if is_wall_ch(hit_tile) {
            break;
        }
        proof {
            assert(!maze.spec_is_wall(map_x as int, map_y as int));
        }
    }

    proof {
        assert(map_x0 == start_cell(pos_x as int, maze.block_size as int));
        assert(map_y0 == start_cell(pos_y as int, maze.block_size as int));
        assert(side_x0 == init_side(cell_fp(pos_x as int, maze.block_size as int), dir_x as int));
        assert(side_y0 == init_side(cell_fp(pos_y as int, maze.block_size as int), dir_y as int));
        // an axis-aligned ray over a row or column with no interior wall can
        // only have stopped by leaving the grid: the boundary fallback
        if dir_y == 0 && dir_x > 0 && (forall|k: int|
            map_x0 < k < maze.width ==> !maze.spec_is_wall(k, map_y0)) {
            if map_x < maze.width {
                assert(!maze.spec_is_wall(map_x as int, map_y0));
                assert(false);
            }
        }
        if dir_y == 0 && dir_x < 0 && (forall|k: int|
            0 <= k < map_x0 ==> !maze.spec_is_wall(k, map_y0)) {
            if map_x >= 0 {
                assert(!maze.spec_is_wall(map_x as int, map_y0));
                assert(false);
            }
        }
        if dir_x == 0 && dir_y > 0 && (forall|k: int|
            map_y0 < k < maze.height ==> !maze.spec_is_wall(map_x0, k)) {
            if map_y < maze.height {
                assert(!maze.spec_is_wall(map_x0, map_y as int));
                assert(false);
            }
        }
        if dir_x == 0 && dir_y < 0 && (forall|k: int|
            0 <= k < map_y0 ==> !maze.spec_is_wall(map_x0, k)) {
            if map_y >= 0 {
                assert(!maze.spec_is_wall(map_x0, map_y as int));
                assert(false);
            }
        }
    }

    // Perpendicular distance from the axis that produced the stop.
    let num: i64;
    let dcomp: i64;
    if side == 0 {
        let adj: i64 = if step_x == 1 {
            0
        } else {
            FP
        };
        num = map_x * FP - cpx + adj;
        dcomp = dir_x;
    } else {
        let adj: i64 = if step_y == 1 {
            0
        } else {
            FP
        };
        num = map_y * FP - cpy + adj;
        dcomp = dir_y;
    }
    let num_abs: i64 = if num < 0 {
        -num
    } else {
        num
    };
    let dabs: i64 = if dcomp < 0 {
        -dcomp
    } else {
        dcomp
    };
    proof {
        vstd::arithmetic::div_mod::lemma_div_nonincreasing(num_abs as int * FP as int, dabs as int);
    }
    let perp: i64 = (((num_abs as u64) * (FP as u64)) / (dabs as u64)) as i64;
    assert(0 <= perp <= 0x2000_0000_0000);
    proof {
        assert(perp as int * bs as int <= 0x2000_0000_0000 * 0x1000) by (nonlinear_arith)
            requires
                0 <= perp as int <= 0x2000_0000_0000,
                0 <= bs as int <= 0x1000,
        ;
    }
    let distance: i64 = perp * bs;

    // Fraction along the struck face: fractional world coordinate on the
    // other axis at the impact point.
    let other_pos: i64 = if side == 0 {
        cpy
    } else {
        cpx
    };
    let other_dir: i64 = if side == 0 {
        dir_y
    } else {
        dir_x
    };
    let odabs: i64 = if other_dir < 0 {
        -other_dir
    } else {
        other_dir
    };
    proof {
        assert(perp as int * odabs as int <= 0x2000_0000_0000 * 0x10000) by (nonlinear_arith)
            requires
                0 <= perp as int <= 0x2000_0000_0000,
                0 <= odabs as int <= 0x10000,
        ;
        vstd::arithmetic::div_mod::lemma_div_nonincreasing(perp as int * odabs as int, FP as int);
    }
    let q: i64 = (((perp as u64) * (odabs as u64)) / (FP as u64)) as i64;
    let adv: i64 = if other_dir >= 0 {
        q
    } else {
        -q
    };
    let wh: i64 = other_pos + adv;
    let w0: i64 = if wh >= 0 {
        ((wh as u64) % (FP as u64)) as i64
    } else {
        let m = (((-wh) as u64) % (FP as u64)) as i64;
        proof {
            vstd::arithmetic::div_mod::lemma_mod_bound((-wh) as int, FP as int);
            crate::fixed::lemma_mod_of_negative(wh as int, FP as int);
        }
        if m == 0 {
            0
        } else {
            FP - m
        }
    };
    proof {
        if wh >= 0 {
            vstd::arithmetic::div_mod::lemma_mod_bound(wh as int, FP as int);
        }
    }
    proof {
        let od = other_dir as int;
        if od >= 0 {
            assert(perp as int * od >= 0) by (nonlinear_arith)
                requires
                    perp as int >= 0,
                    od >= 0,
            ;
            assert(div_trunc(perp as int * od, FP as int) == adv as int);
        } else {
            assert(perp as int * (-od) == -(perp as int * od)) by (nonlinear_arith);
            assert(perp as int * od <= 0) by (nonlinear_arith)
                requires
                    perp as int >= 0,
                    od < 0,
            ;
            assert(div_trunc(perp as int * od, FP as int) == adv as int);
        }
        assert((other_pos as int + adv as int) % (FP as int) == w0 as int);
    }
    let wall_x: i64 = if (side == 0 && dir_x > 0) || (side == 1 && dir_y < 0) {
        if w0 == 0 {
            0
        } else {
            FP - w0
        }
    } else {
        w0
    };

    Hit { distance, tile: hit_tile, side, wall_x, cell_x: map_x, cell_y: map_y }
}

/// Moving the struck wall farther from the origin along a ray stepping in
/// the positive direction of an axis never shortens the perpendicular
/// distance (no fisheye artifact: the distance is measured along the
/// crossing axis, so it grows with the crossed cell index alone).
pub proof fn lemma_perp_distance_monotone_pos(cpos: int, dir: int, c1: int, c2: int)
    requires
        0 < dir,
        cpos <= c1 * (FP as int),
        c1 <= c2,
    ensures
        perp_cells(c1, cpos, dir) <= perp_cells(c2, cpos, dir),
{
    let n1 = c1 * (FP as int) - cpos;
    let n2 = c2 * (FP as int) - cpos;
    assert(n1 <= n2);
    vstd::arithmetic::div_mod::lemma_div_is_ordered(
        n1 * (FP as int),
        n2 * (FP as int),
        dir,
    );
}

/// The mirror image of [`lemma_perp_distance_monotone_pos`] for a ray
/// stepping in the negative direction of an axis: hits in cells farther
/// below the origin are at least as distant.
pub proof fn lemma_perp_distance_monotone_neg(cpos: int, dir: int, c1: int, c2: int)
    requires
        dir < 0,
        c1 * (FP as int) + (FP as int) <= cpos,
        c2 <= c1,
    ensures
        perp_cells(c1, cpos, dir) <= perp_cells(c2, cpos, dir),
{
    let n1 = abs_i(c1 * (FP as int) - cpos + (FP as int));
    let n2 = abs_i(c2 * (FP as int) - cpos + (FP as int));
    assert(n1 <= n2);
    vstd::arithmetic::div_mod::lemma_div_is_ordered(
        n1 * (FP as int),
        n2 * (FP as int),
        abs_i(dir),
    );
}

/// The world-unit distance inherits the monotonicity cell-size-scaled: for
/// any cell size, a farther boundary wall along the stepping direction
/// gives an equal or larger returned distance.
pub proof fn lemma_world_distance_monotone_pos(bs: int, cpos: int, dir: int, c1: int, c2: int)
    requires
        0 < dir,
        0 <= bs,
        cpos <= c1 * (FP as int),
        c1 <= c2,
    ensures
        perp_cells(c1, cpos, dir) * bs <= perp_cells(c2, cpos, dir) * bs,
{
    lemma_perp_distance_monotone_pos(cpos, dir, c1, c2);
    vstd::arithmetic::mul::lemma_mul_inequality(
        perp_cells(c1, cpos, dir),
        perp_cells(c2, cpos, dir),
        bs,
    );
}

/// The mirror image of [`lemma_world_distance_monotone_pos`] for a ray
/// stepping in the negative direction of an axis.
pub proof fn lemma_world_distance_monotone_neg(bs: int, cpos: int, dir: int, c1: int, c2: int)
    requires
        dir < 0,
        0 <= bs,
        c1 * (FP as int) + (FP as int) <= cpos,
        c2 <= c1,
    ensures
        perp_cells(c1, cpos, dir) * bs <= perp_cells(c2, cpos, dir) * bs,
{
    lemma_perp_distance_monotone_neg(cpos, dir, c1, c2);
    vstd::arithmetic::mul::lemma_mul_inequality(
        perp_cells(c1, cpos, dir),
        perp_cells(c2, cpos, dir),
        bs,
    );
}

} // verus!
