//! The minimap: a scaled top-down projection of the grid drawn into a
//! corner of the frame, with the observer and a heading indicator. Cell
//! classification reuses the caster's wall predicate, so the two views
//! can never disagree about what is a wall.

use vstd::prelude::*;

use crate::color::Color;
use crate::fixed::FP;
use crate::framebuffer::Framebuffer;
use crate::maze::{Maze, is_passable_char, is_wall_ch};
use crate::player::Player;

verus! {

/// Pixels per map cell on the minimap.
pub const MINIMAP_SCALE: i64 = 4;

/// Padding between the minimap and the frame's top-right corner.
pub const MINIMAP_PAD: i64 = 8;

/// The color a cell draws with on the minimap: white for wall symbols,
/// dark grey for passable ones.
pub open spec fn minimap_cell_color_spec(c: char) -> Color {
    if is_passable_char(c) {
        Color { r: 80, g: 80, b: 80, a: 255 }
    } else {
        Color { r: 255, g: 255, b: 255, a: 255 }
    }
}

/// Picks the minimap color of one cell symbol.
pub fn minimap_cell_color(c: char) -> (col: Color)
    ensures
        col == minimap_cell_color_spec(c),
{
    if is_wall_ch(c) {
        Color { r: 255, g: 255, b: 255, a: 255 }
    } else {
        Color { r: 80, g: 80, b: 80, a: 255 }
    }
}

/// The minimap's cell classification agrees with the caster's (and so the
/// scene renderer's) wall classification: a symbol draws white on the
/// minimap exactly when the renderer treats it as a wall.
pub proof fn lemma_minimap_matches_caster(c: char)
    ensures
        (minimap_cell_color_spec(c) == (Color { r: 255, g: 255, b: 255, a: 255 }))
            <==> !is_passable_char(c),
{
}

/// The smaller of two coordinates, for bounding-box clauses.
pub open spec fn aligned_min(a: int, b: int) -> int {
    if a <= b {
        a
    } else {
        b
    }
}

/// The larger of two coordinates, for bounding-box clauses.
pub open spec fn aligned_max(a: int, b: int) -> int {
    if a <= b {
        b
    } else {
        a
    }
}

/// The line walk itself, as a mathematical function: the plotted point
/// and the error accumulator after `k` steps of the Bresenham walk from
/// `(x0, y0)` toward `(x1, y1)`. Each step updates the error by the two
/// axis deltas and advances each axis that is due and not yet finished;
/// a walk that has reached the far endpoint stays there.
pub open spec fn line_step(x0: int, y0: int, x1: int, y1: int, k: int) -> (int, int, int)
    decreases k,
    when k >= 0
{
    let dx = aligned_max(x0, x1) - aligned_min(x0, x1);
    let dy = aligned_min(y0, y1) - aligned_max(y0, y1);
    let sx: int = if x0 < x1 {
        1
    } else {
        -1
    };
    let sy: int = if y0 < y1 {
        1
    } else {
        -1
    };
    if k <= 0 {
        (x0, y0, dx + dy)
    } else {
        let prev = line_step(x0, y0, x1, y1, k - 1);
        if prev.0 == x1 && prev.1 == y1 {
            prev
        } else {
            let e2 = 2 * prev.2;
            let err1 = if e2 >= dy {
                prev.2 + dy
            } else {
                prev.2
            };
            let cx1 = if e2 >= dy && prev.0 != x1 {
                prev.0 + sx
            } else {
                prev.0
            };
            let err2 = if e2 <= dx {
                err1 + dx
            } else {
                err1
            };
            let cy1 = if e2 <= dx && prev.1 != y1 {
                prev.1 + sy
            } else {
                prev.1
            };
            (cx1, cy1, err2)
        }
    }
}

/// Plots the integer line from `(x0, y0)` to `(x1, y1)` in the given
/// color, stepping one pixel at a time along the dominant axis while
/// accumulating error (Bresenham); points outside the buffer are skipped
/// rather than failing. The plotted set is pinned exactly: every point of
/// the walk [`line_step`] that lies in the buffer ends up in the given
/// color, writes stay inside the bounding box of the endpoints, no other
/// pixel changes, and both endpoints, when inside the buffer, are painted.
pub fn draw_line_pixels(fb: &mut Framebuffer, x0: i64, y0: i64, x1: i64, y1: i64, color: Color)
    requires
        old(fb).wf(),
        -0x20_0000 <= x0 <= 0x20_0000,
        -0x20_0000 <= y0 <= 0x20_0000,
        -0x20_0000 <= x1 <= 0x20_0000,
        -0x20_0000 <= y1 <= 0x20_0000,
    ensures
        final(fb).wf(),
        final(fb).width == old(fb).width,
        final(fb).height == old(fb).height,
        final(fb).background_color == old(fb).background_color,
        forall|k: int|
            0 <= k < final(fb).data.len() ==> final(fb).data[k] == old(fb).data[k] || final(
                fb).data[k] == color,
        forall|px: int, py: int|
            0 <= px < old(fb).width && 0 <= py < old(fb).height ==> final(fb).spec_pixel(px, py)
                == old(fb).spec_pixel(px, py) || final(fb).spec_pixel(px, py) == color,
        forall|px: int, py: int|
            0 <= px < old(fb).width && 0 <= py < old(fb).height && !(aligned_min(x0 as int, x1 as int) <= px
                <= aligned_max(x0 as int, x1 as int) && aligned_min(y0 as int, y1 as int) <= py <= aligned_max(y0 as int, y1 as int))
                ==> final(fb).spec_pixel(px, py) == old(fb).spec_pixel(px, py),
        forall|k: int|
            #![trigger line_step(x0 as int, y0 as int, x1 as int, y1 as int, k)]
            0 <= k <= aligned_max(x0 as int, x1 as int) - aligned_min(x0 as int, x1 as int)
                + aligned_max(y0 as int, y1 as int) - aligned_min(y0 as int, y1 as int) && 0
                <= line_step(x0 as int, y0 as int, x1 as int, y1 as int, k).0 < old(fb).width
                && 0 <= line_step(x0 as int, y0 as int, x1 as int, y1 as int, k).1 < old(
                fb,
            ).height ==> final(fb).spec_pixel(
                line_step(x0 as int, y0 as int, x1 as int, y1 as int, k).0,
                line_step(x0 as int, y0 as int, x1 as int, y1 as int, k).1,
            ) == color,
        0 <= x0 < old(fb).width && 0 <= y0 < old(fb).height ==> final(fb).spec_pixel(x0 as int, y0 as int)
            == color,
        0 <= x1 < old(fb).width && 0 <= y1 < old(fb).height ==> final(fb).spec_pixel(x1 as int, y1 as int)
            == color,
{
    let minx: i64 = if x0 <= x1 {
        x0
    } else {
        x1
    };
    let maxx: i64 = if x0 <= x1 {
        x1
    } else {
        x0
    };
    let miny: i64 = if y0 <= y1 {
        y0
    } else {
        y1
    };
    let maxy: i64 = if y0 <= y1 {
        y1
    } else {
        y0
    };
    fb.set_current_color(color);

    let dx: i64 = maxx - minx;
    let dy: i64 = miny - maxy;
    let sx: i64 = if x0 < x1 {
        1
    } else {
        -1
    };
    let sy: i64 = if y0 < y1 {
        1
    } else {
        -1
    };
    let steps: i64 = dx - dy;
    let mut err: i64 = dx + dy;
    let mut cx = x0;
    let mut cy = y0;
    let mut k: i64 = 0;
    while k <= steps
        invariant
            fb.wf(),
            fb.width == old(fb).width,
            fb.height == old(fb).height,
            fb.background_color == old(fb).background_color,
            fb.current_color == color,
            forall|i: int|
                0 <= i < fb.data.len() ==> fb.data[i] == old(fb).data[i] || fb.data[i] == color,
            forall|px: int, py: int|
                0 <= px < old(fb).width && 0 <= py < old(fb).height ==> fb.spec_pixel(px, py)
                    == old(fb).spec_pixel(px, py) || fb.spec_pixel(px, py) == color,
            forall|px: int, py: int|
                0 <= px < old(fb).width && 0 <= py < old(fb).height && !(minx <= px <= maxx
                    && miny <= py <= maxy) ==> fb.spec_pixel(px, py) == old(fb).spec_pixel(
                    px,
                    py,
                ),
            forall|kk: int|
                #![trigger line_step(x0 as int, y0 as int, x1 as int, y1 as int, kk)]
                0 <= kk < k && 0 <= line_step(x0 as int, y0 as int, x1 as int, y1 as int, kk).0
                    < old(fb).width && 0 <= line_step(
                    x0 as int,
                    y0 as int,
                    x1 as int,
                    y1 as int,
                    kk,
                ).1 < old(fb).height ==> fb.spec_pixel(
                    line_step(x0 as int, y0 as int, x1 as int, y1 as int, kk).0,
                    line_step(x0 as int, y0 as int, x1 as int, y1 as int, kk).1,
                ) == color,
            (cx as int, cy as int, err as int) == line_step(
                x0 as int,
                y0 as int,
                x1 as int,
                y1 as int,
                k as int,
            ),
            0 <= x0 < old(fb).width && 0 <= y0 < old(fb).height ==> fb.spec_pixel(x0 as int, y0 as int)
                == color || k == 0,
            minx == aligned_min(x0 as int, x1 as int),
            maxx == aligned_max(x0 as int, x1 as int),
            miny == aligned_min(y0 as int, y1 as int),
            maxy == aligned_max(y0 as int, y1 as int),
            -0x20_0000 <= minx <= maxx <= 0x20_0000,
            -0x20_0000 <= miny <= maxy <= 0x20_0000,
            minx <= x0 <= maxx && minx <= x1 <= maxx,
            miny <= y0 <= maxy && miny <= y1 <= maxy,
            minx <= cx <= maxx,
            miny <= cy <= maxy,
            sx == 1 || sx == -1,
            sy == 1 || sy == -1,
            sx == 1 ==> x0 <= x1,
            sx == -1 ==> x1 <= x0,
            sy == 1 ==> y0 <= y1,
            sy == -1 ==> y1 <= y0,
            sx as int == (if (x0 as int) < (x1 as int) {
                1int
            } else {
                -1int
            }),
            sy as int == (if (y0 as int) < (y1 as int) {
                1int
            } else {
                -1int
            }),
            0 <= dx <= 0x40_0000,
            -0x40_0000 <= dy <= 0,
            dx == maxx - minx,
            dy == miny - maxy,
            steps == dx - dy,
            0 <= k <= steps + 1,
            2 * dy <= err <= 2 * dx,
        decreases steps + 1 - k,
    {
        if cx >= 0 && cy >= 0 && cx < fb.width as i64 && cy < fb.height as i64 {
            fb.set_pixel(cx as u32, cy as u32);
        }
        // advance per the walk; a walk at the far endpoint stays there
        if !(cx == x1 && cy == y1) {
            let e2: i64 = 2 * err;
            if e2 >= dy {
                err = err + dy;
                if cx != x1 {
                    cx = cx + sx;
                }
            }
            if e2 <= dx {
                err = err + dx;
                if cy != y1 {
                    cy = cy + sy;
                }
            }
        }
        proof {
            assert((cx as int, cy as int, err as int) == line_step(
                x0 as int,
                y0 as int,
                x1 as int,
                y1 as int,
                k as int + 1,
            ));
        }
        k = k + 1;
    }

    // the far endpoint is always painted, whatever path the walk took
    if x1 >= 0 && y1 >= 0 && x1 < fb.width as i64 && y1 < fb.height as i64 {
        fb.set_pixel(x1 as u32, y1 as u32);
    }
    proof {
        assert(line_step(x0 as int, y0 as int, x1 as int, y1 as int, 0) == (
        x0 as int,
        y0 as int,
        (maxx - minx + miny - maxy) as int,
        ));
    }
}

/// A value clamped into `[lo, hi]`.
pub open spec fn clamp_i(v: int, lo: int, hi: int) -> int {
    if v < lo {
        lo
    } else if v > hi {
        hi
    } else {
        v
    }
}

/// The minimap's left edge: anchored at the frame's top-right corner with
/// the fixed padding, clamped so it never goes negative.
pub open spec fn minimap_origin_x(maze: &Maze, fbw: int) -> int {
    if fbw - (maze.width as int) * (MINIMAP_SCALE as int) - (MINIMAP_PAD as int) > 0 {
        fbw - (maze.width as int) * (MINIMAP_SCALE as int) - (MINIMAP_PAD as int)
    } else {
        0
    }
}

/// Whether `(qx, qy)` lies in the minimap's scaled cell rectangle.
pub open spec fn in_minimap_rect(maze: &Maze, fbw: int, qx: int, qy: int) -> bool {
    let ox = minimap_origin_x(maze, fbw);
    &&& ox <= qx < ox + (maze.width as int) * (MINIMAP_SCALE as int)
    &&& MINIMAP_PAD <= qy < (MINIMAP_PAD as int) + (maze.height as int) * (MINIMAP_SCALE as int)
}

/// The observer marker's horizontal center: the scaled player position.
pub open spec fn marker_px(maze: &Maze, player: &Player, fbw: int) -> int {
    minimap_origin_x(maze, fbw) + ((player.pos_x as int / (maze.block_size as int)) * (
    MINIMAP_SCALE as int)) / (FP as int)
}

/// The observer marker's vertical center: the scaled player position.
pub open spec fn marker_py(maze: &Maze, player: &Player) -> int {
    (MINIMAP_PAD as int) + ((player.pos_y as int / (maze.block_size as int)) * (
    MINIMAP_SCALE as int)) / (FP as int)
}

/// Whether `(qx, qy)` lies in the clamped 3 by 3 observer marker.
pub open spec fn in_marker_box(
    maze: &Maze,
    player: &Player,
    fbw: int,
    fbh: int,
    qx: int,
    qy: int,
) -> bool {
    let px0 = marker_px(maze, player, fbw);
    let py0 = marker_py(maze, player);
    &&& clamp_i(px0 - 1, 0, fbw - 1) <= qx <= clamp_i(px0 + 1, 0, fbw - 1)
    &&& clamp_i(py0 - 1, 0, fbh - 1) <= qy <= clamp_i(py0 + 1, 0, fbh - 1)
}

/// The heading segment's drawn tip: the marker center advanced by the
/// fixed segment length along `head_x`, clamped into the line plotter's
/// coordinate range.
pub open spec fn heading_tip_x(maze: &Maze, player: &Player, head_x: int, fbw: int) -> int {
    let ex = marker_px(maze, player, fbw) + crate::fixed::div_trunc(
        head_x * 6 * (MINIMAP_SCALE as int),
        FP as int,
    );
    if ex > 0x20_0000 {
        0x20_0000
    } else {
        ex
    }
}

/// The heading segment's drawn tip along `head_y` (see [`heading_tip_x`]).
pub open spec fn heading_tip_y(maze: &Maze, player: &Player, head_y: int) -> int {
    let ey = marker_py(maze, player) + crate::fixed::div_trunc(
        head_y * 6 * (MINIMAP_SCALE as int),
        FP as int,
    );
    if ey > 0x20_0000 {
        0x20_0000
    } else {
        ey
    }
}

/// Whether `(qx, qy)` lies in the bounding box of the heading segment
/// drawn from the observer marker along `(head_x, head_y)`.
pub open spec fn in_heading_box(
    maze: &Maze,
    player: &Player,
    head_x: int,
    head_y: int,
    fbw: int,
    qx: int,
    qy: int,
) -> bool {
    let px0 = marker_px(maze, player, fbw);
    let py0 = marker_py(maze, player);
    let lx0 = if px0 > 0x20_0000 {
        0x20_0000
    } else {
        px0
    };
    let ly0 = if py0 > 0x20_0000 {
        0x20_0000
    } else {
        py0
    };
    let lx1 = heading_tip_x(maze, player, head_x, fbw);
    let ly1 = heading_tip_y(maze, player, head_y);
    &&& aligned_min(lx0, lx1) <= qx <= aligned_max(lx0, lx1)
    &&& aligned_min(ly0, ly1) <= qy <= aligned_max(ly0, ly1)
}

/// Paints one scaled cell block: every in-bounds pixel of the
/// `MINIMAP_SCALE`-sized square at `(sx0, sy0)` gets `color`, nothing else
/// changes.
fn draw_cell_block(fb: &mut Framebuffer, sx0: i64, sy0: i64, color: Color)
    requires
        old(fb).wf(),
        0 <= sx0 <= 0x8000,
        0 <= sy0 <= 0x8000,
    ensures
        final(fb).wf(),
        final(fb).width == old(fb).width,
        final(fb).height == old(fb).height,
        final(fb).background_color == old(fb).background_color,
        forall|qx: int, qy: int|
            0 <= qx < old(fb).width && 0 <= qy < old(fb).height && sx0 <= qx < sx0
                + MINIMAP_SCALE && sy0 <= qy < sy0 + MINIMAP_SCALE ==> final(fb).spec_pixel(
                qx,
                qy,
            ) == color,
        forall|qx: int, qy: int|
            0 <= qx < old(fb).width && 0 <= qy < old(fb).height && !(sx0 <= qx < sx0
                + MINIMAP_SCALE && sy0 <= qy < sy0 + MINIMAP_SCALE) ==> final(fb).spec_pixel(
                qx,
                qy,
            ) == old(fb).spec_pixel(qx, qy),
{
    fb.set_current_color(color);
    let mut v: i64 = 0;
    while v < MINIMAP_SCALE
        invariant
            fb.wf(),
            fb.width == old(fb).width,
            fb.height == old(fb).height,
            fb.background_color == old(fb).background_color,
            fb.current_color == color,
            0 <= sx0 <= 0x8000,
            0 <= sy0 <= 0x8000,
            0 <= v <= MINIMAP_SCALE,
            forall|qx: int, qy: int|
                0 <= qx < old(fb).width && 0 <= qy < old(fb).height && sx0 <= qx < sx0
                    + MINIMAP_SCALE && sy0 <= qy < sy0 + v ==> fb.spec_pixel(qx, qy) == color,
            forall|qx: int, qy: int|
                0 <= qx < old(fb).width && 0 <= qy < old(fb).height && !(sx0 <= qx < sx0
                    + MINIMAP_SCALE && sy0 <= qy < sy0 + v) ==> fb.spec_pixel(qx, qy) == old(
                    fb).spec_pixel(qx, qy),
        decreases MINIMAP_SCALE - v,
    {
        let mut u: i64 = 0;
        while u < MINIMAP_SCALE
            invariant
                fb.wf(),
                fb.width == old(fb).width,
                fb.height == old(fb).height,
                fb.background_color == old(fb).background_color,
                fb.current_color == color,
                0 <= sx0 <= 0x8000,
                0 <= sy0 <= 0x8000,
                0 <= v < MINIMAP_SCALE,
                0 <= u <= MINIMAP_SCALE,
                forall|qx: int, qy: int|
                    0 <= qx < old(fb).width && 0 <= qy < old(fb).height && sx0 <= qx < sx0
                        + MINIMAP_SCALE && sy0 <= qy < sy0 + v ==> fb.spec_pixel(qx, qy)
                        == color,
                forall|qx: int, qy: int|
                    0 <= qx < old(fb).width && 0 <= qy < old(fb).height && qy == sy0 + v && sx0
                        <= qx < sx0 + u ==> fb.spec_pixel(qx, qy) == color,
                forall|qx: int, qy: int|
                    0 <= qx < old(fb).width && 0 <= qy < old(fb).height && !(sx0 <= qx < sx0
                        + MINIMAP_SCALE && sy0 <= qy <= sy0 + v) ==> fb.spec_pixel(qx, qy)
                        == old(fb).spec_pixel(qx, qy),
                forall|qx: int, qy: int|
                    0 <= qx < old(fb).width && 0 <= qy < old(fb).height && qy == sy0 + v && !(sx0
                        <= qx < sx0 + u) ==> fb.spec_pixel(qx, qy) == old(fb).spec_pixel(qx, qy),
            decreases MINIMAP_SCALE - u,
        {
            let sx: i64 = sx0 + u;
            let sy: i64 = sy0 + v;
            if sx < fb.width as i64 && sy < fb.height as i64 {
                fb.set_pixel(sx as u32, sy as u32);
            }
            u = u + 1;
        }
        v = v + 1;
    }
}

/// Overlays the minimap: a dark backdrop in the top-right corner, one
/// scaled block per cell (white walls, dark grey floors, exactly the
/// caster\'s classification of the cell symbol), a highlight square at the
/// observer\'s scaled position, and a short heading segment in the
/// direction `(head_x, head_y)` (the heading\'s fixed-point unit vector).
/// Writes stay inside the minimap rectangle, the marker box and the
/// heading segment\'s bounding box; every rectangle pixel the marker and
/// segment leave alone holds its cell\'s classification color.
#[verifier::rlimit(100)]
pub fn draw_minimap(fb: &mut Framebuffer, maze: &Maze, player: &Player, head_x: i64, head_y: i64)
    requires
        old(fb).wf(),
        maze.wf(),
        player.wf(),
        -FP <= head_x <= FP,
        -FP <= head_y <= FP,
    ensures
        final(fb).wf(),
        final(fb).width == old(fb).width,
        final(fb).height == old(fb).height,
        final(fb).background_color == old(fb).background_color,
        forall|qx: int, qy: int|
            0 <= qx < old(fb).width && 0 <= qy < old(fb).height && !in_minimap_rect(
                maze,
                old(fb).width as int,
                qx,
                qy,
            ) && !in_marker_box(maze, player, old(fb).width as int, old(fb).height as int, qx, qy)
                && !in_heading_box(maze, player, head_x as int, head_y as int, old(fb).width as int, qx, qy)
                ==> final(fb).spec_pixel(qx, qy) == old(fb).spec_pixel(qx, qy),
        forall|qx: int, qy: int|
            0 <= qx < old(fb).width && 0 <= qy < old(fb).height && in_minimap_rect(
                maze,
                old(fb).width as int,
                qx,
                qy,
            ) && !in_marker_box(maze, player, old(fb).width as int, old(fb).height as int, qx, qy)
                && !in_heading_box(maze, player, head_x as int, head_y as int, old(fb).width as int, qx, qy)
                ==> final(fb).spec_pixel(qx, qy) == minimap_cell_color_spec(
                maze.grid[(qy - MINIMAP_PAD) / (MINIMAP_SCALE as int)][(qx - minimap_origin_x(
                    maze,
                    old(fb).width as int,
                )) / (MINIMAP_SCALE as int)],
            ),
        forall|qx: int, qy: int|
            0 <= qx < old(fb).width && 0 <= qy < old(fb).height && in_marker_box(
                maze,
                player,
                old(fb).width as int,
                old(fb).height as int,
                qx,
                qy,
            ) ==> final(fb).spec_pixel(qx, qy) == (Color { r: 253, g: 249, b: 0, a: 255 }),
        (0 <= heading_tip_x(maze, player, head_x as int, old(fb).width as int) < old(fb).width
            && 0 <= heading_tip_y(maze, player, head_y as int) < old(fb).height) ==> final(
            fb).spec_pixel(
            heading_tip_x(maze, player, head_x as int, old(fb).width as int),
            heading_tip_y(maze, player, head_y as int),
        ) == (Color { r: 253, g: 249, b: 0, a: 255 }),
{
    let map_w: i64 = (maze.width as i64) * MINIMAP_SCALE;
    let map_h: i64 = (maze.height as i64) * MINIMAP_SCALE;
    let fbw: i64 = fb.width as i64;
    let fbh: i64 = fb.height as i64;

    let origin_x: i64 = if fbw - map_w - MINIMAP_PAD > 0 {
        fbw - map_w - MINIMAP_PAD
    } else {
        0
    };
    proof {
        assert(origin_x == minimap_origin_x(maze, old(fb).width as int));
    }

    // dark backdrop sized to the scaled map (fully repainted cell by cell
    // just below; only its confinement matters to the contract)
    fb.set_current_color(Color { r: 20, g: 20, b: 20, a: 255 });
    let mut yy: i64 = 0;
    while yy < map_h
        invariant
            fb.wf(),
            fb.width == old(fb).width,
            fb.height == old(fb).height,
            fb.background_color == old(fb).background_color,
            maze.wf(),
            0 <= yy <= map_h,
            map_w == (maze.width as int) * (MINIMAP_SCALE as int),
            map_h == (maze.height as int) * (MINIMAP_SCALE as int),
            0 <= map_w <= 0x4000,
            0 <= map_h <= 0x4000,
            origin_x == minimap_origin_x(maze, old(fb).width as int),
            0 <= origin_x <= 0x2000,
            fb.current_color == (Color { r: 20, g: 20, b: 20, a: 255 }),
            forall|qx: int, qy: int|
                0 <= qx < old(fb).width && 0 <= qy < old(fb).height && !in_minimap_rect(
                    maze,
                    old(fb).width as int,
                    qx,
                    qy,
                ) ==> fb.spec_pixel(qx, qy) == old(fb).spec_pixel(qx, qy),
        decreases map_h - yy,
    {
        let mut xx: i64 = 0;
        while xx < map_w
            invariant
                fb.wf(),
                fb.width == old(fb).width,
                fb.height == old(fb).height,
                fb.background_color == old(fb).background_color,
                maze.wf(),
                0 <= xx <= map_w,
                0 <= yy < map_h,
                map_w == (maze.width as int) * (MINIMAP_SCALE as int),
                map_h == (maze.height as int) * (MINIMAP_SCALE as int),
                0 <= map_w <= 0x4000,
                0 <= map_h <= 0x4000,
                origin_x == minimap_origin_x(maze, old(fb).width as int),
                0 <= origin_x <= 0x2000,
                fb.current_color == (Color { r: 20, g: 20, b: 20, a: 255 }),
                forall|qx: int, qy: int|
                    0 <= qx < old(fb).width && 0 <= qy < old(fb).height && !in_minimap_rect(
                        maze,
                        old(fb).width as int,
                        qx,
                        qy,
                    ) ==> fb.spec_pixel(qx, qy) == old(fb).spec_pixel(qx, qy),
            decreases map_w - xx,
        {
            fb.set_pixel((origin_x + xx) as u32, (MINIMAP_PAD + yy) as u32);
            xx = xx + 1;
        }
        yy = yy + 1;
    }

    // one scaled block per cell, classified as the caster classifies it
    let mut j: usize = 0;
    while j < maze.height
        invariant
            fb.wf(),
            fb.width == old(fb).width,
            fb.height == old(fb).height,
            fb.background_color == old(fb).background_color,
            maze.wf(),
            j <= maze.height,
            map_w == (maze.width as int) * (MINIMAP_SCALE as int),
            map_h == (maze.height as int) * (MINIMAP_SCALE as int),
            origin_x == minimap_origin_x(maze, old(fb).width as int),
            0 <= origin_x <= 0x2000,
            forall|qx: int, qy: int|
                0 <= qx < old(fb).width && 0 <= qy < old(fb).height && !in_minimap_rect(
                    maze,
                    old(fb).width as int,
                    qx,
                    qy,
                ) ==> fb.spec_pixel(qx, qy) == old(fb).spec_pixel(qx, qy),
            forall|qx: int, qy: int|
                0 <= qx < old(fb).width && 0 <= qy < old(fb).height && in_minimap_rect(
                    maze,
                    old(fb).width as int,
                    qx,
                    qy,
                ) && (qy - MINIMAP_PAD) / (MINIMAP_SCALE as int) < j ==> fb.spec_pixel(qx, qy)
                    == minimap_cell_color_spec(
                    maze.grid[(qy - MINIMAP_PAD) / (MINIMAP_SCALE as int)][(qx - origin_x) / (
                    MINIMAP_SCALE as int)],
                ),
        decreases maze.height - j,
    {
        let mut i: usize = 0;
        while i < maze.width
            invariant
                fb.wf(),
                fb.width == old(fb).width,
                fb.height == old(fb).height,
                fb.background_color == old(fb).background_color,
                maze.wf(),
                j < maze.height,
                i <= maze.width,
                map_w == (maze.width as int) * (MINIMAP_SCALE as int),
                map_h == (maze.height as int) * (MINIMAP_SCALE as int),
                origin_x == minimap_origin_x(maze, old(fb).width as int),
                0 <= origin_x <= 0x2000,
                forall|qx: int, qy: int|
                    0 <= qx < old(fb).width && 0 <= qy < old(fb).height && !in_minimap_rect(
                        maze,
                        old(fb).width as int,
                        qx,
                        qy,
                    ) ==> fb.spec_pixel(qx, qy) == old(fb).spec_pixel(qx, qy),
                forall|qx: int, qy: int|
                    0 <= qx < old(fb).width && 0 <= qy < old(fb).height && in_minimap_rect(
                        maze,
                        old(fb).width as int,
                        qx,
                        qy,
                    ) && ((qy - MINIMAP_PAD) / (MINIMAP_SCALE as int) < j || ((qy - MINIMAP_PAD)
                        / (MINIMAP_SCALE as int) == j && (qx - origin_x) / (MINIMAP_SCALE as int)
                        < i)) ==> fb.spec_pixel(qx, qy) == minimap_cell_color_spec(
                        maze.grid[(qy - MINIMAP_PAD) / (MINIMAP_SCALE as int)][(qx - origin_x) / (
                        MINIMAP_SCALE as int)],
                    ),
            decreases maze.width - i,
        {
            assert(maze.grid[j as int].len() == maze.width);
            let ch = maze.grid[j][i];
            let col = minimap_cell_color(ch);
            let sx0: i64 = origin_x + (i as i64) * MINIMAP_SCALE;
            let sy0: i64 = MINIMAP_PAD + (j as i64) * MINIMAP_SCALE;
            draw_cell_block(fb, sx0, sy0, col);
            i = i + 1;
        }
        j = j + 1;
    }

    // observer highlight: a 3 by 3 square at the scaled position
    let bs = maze.block_size as i64;
    let pcx: i64 = ((player.pos_x as u64) / (bs as u64)) as i64;
    let pcy: i64 = ((player.pos_y as u64) / (bs as u64)) as i64;
    proof {
        vstd::arithmetic::div_mod::lemma_div_nonincreasing(player.pos_x as int, bs as int);
        vstd::arithmetic::div_mod::lemma_div_nonincreasing(player.pos_y as int, bs as int);
        vstd::arithmetic::div_mod::lemma_div_nonincreasing(
            (pcx * MINIMAP_SCALE) as int,
            FP as int,
        );
        vstd::arithmetic::div_mod::lemma_div_nonincreasing(
            (pcy * MINIMAP_SCALE) as int,
            FP as int,
        );
    }
    let px0: i64 = origin_x + (((pcx * MINIMAP_SCALE) as u64) / (FP as u64)) as i64;
    let py0: i64 = MINIMAP_PAD + (((pcy * MINIMAP_SCALE) as u64) / (FP as u64)) as i64;
    proof {
        assert(px0 == marker_px(maze, player, old(fb).width as int));
        assert(py0 == marker_py(maze, player));
    }
    fb.set_current_color(Color { r: 253, g: 249, b: 0, a: 255 });
    let ghost mid = *fb;
    let fbw1: i64 = fb.width as i64 - 1;
    let fbh1: i64 = fb.height as i64 - 1;
    let mxl: i64 = if px0 - 1 < 0 {
        0
    } else if px0 - 1 > fbw1 {
        fbw1
    } else {
        px0 - 1
    };
    let mxc: i64 = if px0 > fbw1 {
        fbw1
    } else {
        px0
    };
    let mxr: i64 = if px0 + 1 > fbw1 {
        fbw1
    } else {
        px0 + 1
    };
    let myt: i64 = if py0 - 1 < 0 {
        0
    } else if py0 - 1 > fbh1 {
        fbh1
    } else {
        py0 - 1
    };
    let myc: i64 = if py0 > fbh1 {
        fbh1
    } else {
        py0
    };
    let myb: i64 = if py0 + 1 > fbh1 {
        fbh1
    } else {
        py0 + 1
    };
    fb.set_pixel(mxl as u32, myt as u32);
    fb.set_pixel(mxc as u32, myt as u32);
    fb.set_pixel(mxr as u32, myt as u32);
    fb.set_pixel(mxl as u32, myc as u32);
    fb.set_pixel(mxc as u32, myc as u32);
    fb.set_pixel(mxr as u32, myc as u32);
    fb.set_pixel(mxl as u32, myb as u32);
    fb.set_pixel(mxc as u32, myb as u32);
    fb.set_pixel(mxr as u32, myb as u32);
    proof {
        // the clamped columns and rows tile the whole marker box
        assert forall|qx: int, qy: int|
            0 <= qx < old(fb).width && 0 <= qy < old(fb).height && in_marker_box(
                maze,
                player,
                old(fb).width as int,
                old(fb).height as int,
                qx,
                qy,
            ) implies fb.spec_pixel(qx, qy) == (Color { r: 253, g: 249, b: 0, a: 255 }) by {
            assert(qx == mxl || qx == mxc || qx == mxr);
            assert(qy == myt || qy == myc || qy == myb);
        }
        assert forall|qx: int, qy: int|
            0 <= qx < old(fb).width && 0 <= qy < old(fb).height && !in_marker_box(
                maze,
                player,
                old(fb).width as int,
                old(fb).height as int,
                qx,
                qy,
            ) implies fb.spec_pixel(qx, qy) == mid.spec_pixel(qx, qy) by {}
    }

    // heading indicator: a fixed-length segment along the heading
    let seg: i64 = 6 * MINIMAP_SCALE;
    let ex: i64 = px0 + if head_x >= 0 {
        (((head_x * seg) as u64) / (FP as u64)) as i64
    } else {
        -((((-head_x * seg) as u64) / (FP as u64)) as i64)
    };
    let ey: i64 = py0 + if head_y >= 0 {
        (((head_y * seg) as u64) / (FP as u64)) as i64
    } else {
        -((((-head_y * seg) as u64) / (FP as u64)) as i64)
    };
    let lx0: i64 = if px0 > 0x20_0000 {
        0x20_0000
    } else {
        px0
    };
    let ly0: i64 = if py0 > 0x20_0000 {
        0x20_0000
    } else {
        py0
    };
    let lx1: i64 = if ex > 0x20_0000 {
        0x20_0000
    } else {
        ex
    };
    let ly1: i64 = if ey > 0x20_0000 {
        0x20_0000
    } else {
        ey
    };
    let ghost mid2 = *fb;
    proof {
        assert(lx1 == heading_tip_x(maze, player, head_x as int, old(fb).width as int));
        assert(ly1 == heading_tip_y(maze, player, head_y as int));
    }
    draw_line_pixels(fb, lx0, ly0, lx1, ly1, Color { r: 253, g: 249, b: 0, a: 255 });
    proof {
        assert forall|qx: int, qy: int|
            0 <= qx < old(fb).width && 0 <= qy < old(fb).height && in_marker_box(
                maze,
                player,
                old(fb).width as int,
                old(fb).height as int,
                qx,
                qy,
            ) implies fb.spec_pixel(qx, qy) == (Color { r: 253, g: 249, b: 0, a: 255 }) by {
            assert(mid2.spec_pixel(qx, qy) == (Color { r: 253, g: 249, b: 0, a: 255 }));
        }
        assert forall|qx: int, qy: int|
            0 <= qx < old(fb).width && 0 <= qy < old(fb).height && !in_heading_box(
                maze,
                player,
                head_x as int,
                head_y as int,
                old(fb).width as int,
                qx,
                qy,
            ) implies fb.spec_pixel(qx, qy) == mid2.spec_pixel(qx, qy) by {}
        assert forall|qx: int, qy: int|
            0 <= qx < old(fb).width && 0 <= qy < old(fb).height && in_minimap_rect(
                maze,
                old(fb).width as int,
                qx,
                qy,
            ) && !in_marker_box(maze, player, old(fb).width as int, old(fb).height as int, qx, qy)
                && !in_heading_box(
                maze,
                player,
                head_x as int,
                head_y as int,
                old(fb).width as int,
                qx,
                qy,
            ) implies fb.spec_pixel(qx, qy) == minimap_cell_color_spec(
            maze.grid[(qy - MINIMAP_PAD) / (MINIMAP_SCALE as int)][(qx - minimap_origin_x(
                maze,
                old(fb).width as int,
            )) / (MINIMAP_SCALE as int)],
        ) by {
            assert(fb.spec_pixel(qx, qy) == mid2.spec_pixel(qx, qy));
            assert(mid2.spec_pixel(qx, qy) == mid.spec_pixel(qx, qy));
            assert((qy - MINIMAP_PAD) / (MINIMAP_SCALE as int) < maze.height);
            assert(mid.spec_pixel(qx, qy) == minimap_cell_color_spec(
                maze.grid[(qy - MINIMAP_PAD) / (MINIMAP_SCALE as int)][(qx - minimap_origin_x(
                    maze,
                    old(fb).width as int,
                )) / (MINIMAP_SCALE as int)],
            ));
        }
    }
}

} // verus!
