//! The scene renderer: a flat sky and floor, then one ray per screen
//! column. Each hit becomes a vertical wall slice with
//! perspective-correct height; a registered texture is sampled
//! nearest-neighbor, an unregistered tile is flat light grey, and a hit
//! that crossed a horizontal grid line is darkened by the fixed shading
//! factor. The whole frame is specified pixel by pixel: [`column_pixel`]
//! is the mathematical value of every sample the renderer leaves behind.

use vstd::prelude::*;

use crate::caster::{cast_ray, cell_fp, dda_walk, init_side, perp_world, start_cell, wall_frac};
use crate::color::{Color, darken, darkened};
use crate::fixed::FP;
use crate::framebuffer::Framebuffer;
use crate::maze::Maze;
use crate::player::Player;
use crate::textures::TextureManager;

verus! {

/// The fixed sky color of the upper half of the frame.
pub open spec fn sky_color() -> Color {
    Color { r: 60, g: 80, b: 140, a: 255 }
}

/// The fixed floor color of the lower half of the frame.
pub open spec fn floor_color() -> Color {
    Color { r: 40, g: 40, b: 40, a: 255 }
}

/// The flat fallback color for tiles with no registered texture.
pub open spec fn flat_grey() -> Color {
    Color { r: 200, g: 200, b: 200, a: 255 }
}

/// What a row holds outside any wall slice: sky in the upper half of the
/// frame, floor in the lower.
pub open spec fn backdrop(fbh: int, y: int) -> Color {
    if y < fbh / 2 {
        sky_color()
    } else {
        floor_color()
    }
}

/// The color the renderer leaves at row `y` of the column whose ray has
/// direction `(dir_x, dir_y)`: the ray's hit is taken from the caster's
/// walk model, its distance (clamped to one world unit) fixes the slice
/// extent around the frame's vertical midpoint, rows outside the slice
/// keep the sky/floor backdrop, and rows inside sample the hit tile's
/// texture (or flat grey without one), darkened on a side-1 hit.
pub open spec fn column_pixel(
    maze: &Maze,
    pos_x: int,
    pos_y: int,
    dir_x: int,
    dir_y: int,
    dist_to_proj: int,
    texman: &TextureManager,
    fbh: int,
    y: int,
) -> Color {
    let bs = maze.block_size as int;
    let hit3 = dda_walk(
        maze,
        start_cell(pos_x, bs),
        start_cell(pos_y, bs),
        init_side(cell_fp(pos_x, bs), dir_x),
        init_side(cell_fp(pos_y, bs), dir_y),
        dir_x,
        dir_y,
    );
    let tile = maze.spec_tile(hit3.0, hit3.1);
    let distance = perp_world(
        bs,
        cell_fp(pos_x, bs),
        cell_fp(pos_y, bs),
        dir_x,
        dir_y,
        hit3.0,
        hit3.1,
        hit3.2,
    );
    let dist = if distance < FP {
        FP as int
    } else {
        distance
    };
    let line_h = (bs * (FP as int) * dist_to_proj) / dist;
    let half_fp = (fbh * (FP as int)) / 2;
    let half_line = line_h / 2;
    let top_fp = half_fp - half_line;
    let bot_fp = half_fp + half_line;
    let top0 = if top_fp < 0 {
        0
    } else {
        top_fp / (FP as int)
    };
    let top = if top0 > fbh - 1 {
        fbh - 1
    } else {
        top0
    };
    let bot0 = bot_fp / (FP as int);
    let bot = if bot0 > fbh - 1 {
        fbh - 1
    } else {
        bot0
    };
    if y < top || y > bot {
        backdrop(fbh, y)
    } else if texman.spec_has(tile) {
        let img = texman.spec_lookup(tile);
        let wx = wall_frac(
            cell_fp(pos_x, bs),
            cell_fp(pos_y, bs),
            dir_x,
            dir_y,
            hit3.0,
            hit3.1,
            hit3.2,
        );
        let tx0 = (wx * (img.width as int)) / (FP as int);
        let tx = if tx0 > img.width - 1 {
            img.width - 1
        } else {
            tx0
        };
        let dyf = y * (FP as int) - top_fp;
        let ty = if line_h > 0 && dyf > 0 {
            let t = (dyf * (img.height - 1)) / line_h;
            if t > img.height - 1 {
                img.height - 1
            } else {
                t
            }
        } else {
            0
        };
        let c = img.spec_sample(tx, ty);
        if hit3.2 == 1 {
            darkened(c)
        } else {
            c
        }
    } else {
        if hit3.2 == 1 {
            darkened(flat_grey())
        } else {
            flat_grey()
        }
    }
}

/// Draws one column's wall slice over the sky/floor backdrop: afterwards
/// every row of column `x` holds exactly [`column_pixel`] of that row, and
/// no other column changes.
#[verifier::rlimit(100)]
fn render_column(
    fb: &mut Framebuffer,
    maze: &Maze,
    pos_x: i64,
    pos_y: i64,
    dir_x: i64,
    dir_y: i64,
    dist_to_proj: i64,
    texman: &TextureManager,
    x: u32,
)
    requires
        old(fb).wf(),
        maze.wf(),
        texman.wf(),
        0 <= pos_x < (maze.width as int) * (maze.block_size as int) * (FP as int),
        0 <= pos_y < (maze.height as int) * (maze.block_size as int) * (FP as int),
        -FP <= dir_x <= FP,
        -FP <= dir_y <= FP,
        dir_x != 0 || dir_y != 0,
        0 <= dist_to_proj <= 0x1_0000_0000,
        x < old(fb).width,
        forall|py: int|
            0 <= py < old(fb).height ==> old(fb).spec_pixel(x as int, py) == backdrop(
                old(fb).height as int,
                py,
            ),
    ensures
        final(fb).wf(),
        final(fb).width == old(fb).width,
        final(fb).height == old(fb).height,
        final(fb).background_color == old(fb).background_color,
        forall|py: int|
            0 <= py < old(fb).height ==> final(fb).spec_pixel(x as int, py) == column_pixel(
                maze,
                pos_x as int,
                pos_y as int,
                dir_x as int,
                dir_y as int,
                dist_to_proj as int,
                texman,
                old(fb).height as int,
                py,
            ),
        forall|px: int, py: int|
            0 <= px < old(fb).width && 0 <= py < old(fb).height && px != x ==> final(
                fb).spec_pixel(px, py) == old(fb).spec_pixel(px, py),
{
    let fbh: u32 = fb.height;
    let bs_fp: i64 = (maze.block_size as i64) * FP;
    let hit = cast_ray(maze, pos_x, pos_y, dir_x, dir_y);

    // clamp to one world unit so nearby walls cannot blow the height up
    let dist: i64 = if hit.distance < FP {
        FP
    } else {
        hit.distance
    };

    // perspective-correct slice height in pixels (16.16)
    proof {
        assert(bs_fp * dist_to_proj <= 0x1000_0000 * 0x1_0000_0000) by (nonlinear_arith)
            requires
                0 < bs_fp <= 0x1000_0000,
                0 <= dist_to_proj <= 0x1_0000_0000,
        ;
        vstd::arithmetic::div_mod::lemma_div_nonincreasing(
            (bs_fp * dist_to_proj) as int,
            dist as int,
        );
    }
    let line_h: i64 = (((bs_fp as u64) * (dist_to_proj as u64)) / (dist as u64)) as i64;

    let half_fp: i64 = (((fbh as u64) * (FP as u64)) / 2) as i64;
    let half_line: i64 = ((line_h as u64) / 2) as i64;
    let top_fp: i64 = half_fp - half_line;
    let bot_fp: i64 = half_fp + half_line;
    let mut top: i64 = if top_fp < 0 {
        0
    } else {
        (((top_fp as u64) / (FP as u64)) as i64)
    };
    if top > (fbh as i64) - 1 {
        top = (fbh as i64) - 1;
    }
    let mut bot: i64 = ((bot_fp as u64) / (FP as u64)) as i64;
    proof {
        vstd::arithmetic::div_mod::lemma_div_nonincreasing(bot_fp as int, FP as int);
        if top_fp >= 0 {
            vstd::arithmetic::div_mod::lemma_div_nonincreasing(top_fp as int, FP as int);
            vstd::arithmetic::div_mod::lemma_div_is_ordered(top_fp as int, bot_fp as int, FP as int);
        }
    }
    if bot > (fbh as i64) - 1 {
        bot = (fbh as i64) - 1;
    }

    if texman.has_image(hit.tile) {
        let (tw, th) = match texman.image_size(hit.tile) {
            Some(wh) => wh,
            None => (128, 128),
        };
        proof {
            assert(0 <= hit.wall_x * tw < 0x10000 * (tw as int)) by (nonlinear_arith)
                requires
                    0 <= hit.wall_x < 0x10000,
                    1 <= tw <= 0x10000,
            ;
            crate::fixed::lemma_div_below((hit.wall_x * tw) as int, FP as int, tw as int);
        }
        let mut tx: i64 = (((hit.wall_x as u64) * (tw as u64)) / (FP as u64)) as i64;
        if tx > (tw as i64) - 1 {
            tx = (tw as i64) - 1;
        }
        let mut yy: i64 = top;
        while yy <= bot
            invariant
                fb.wf(),
                fb.width == old(fb).width,
                fb.height == old(fb).height,
                fb.background_color == old(fb).background_color,
                fbh == fb.height,
                1 <= fbh <= 4096,
                maze.wf(),
                texman.wf(),
                x < fb.width,
                0 <= pos_x < (maze.width as int) * (maze.block_size as int) * (FP as int),
                0 <= pos_y < (maze.height as int) * (maze.block_size as int) * (FP as int),
                -FP <= dir_x <= FP,
                -FP <= dir_y <= FP,
                dir_x != 0 || dir_y != 0,
                0 <= dist_to_proj <= 0x1_0000_0000,
                bs_fp == (maze.block_size as int) * (FP as int),
                0 < bs_fp <= 0x1000_0000,
                (hit.cell_x as int, hit.cell_y as int, hit.side as int) == dda_walk(
                    maze,
                    start_cell(pos_x as int, maze.block_size as int),
                    start_cell(pos_y as int, maze.block_size as int),
                    init_side(cell_fp(pos_x as int, maze.block_size as int), dir_x as int),
                    init_side(cell_fp(pos_y as int, maze.block_size as int), dir_y as int),
                    dir_x as int,
                    dir_y as int,
                ),
                hit.tile == maze.spec_tile(hit.cell_x as int, hit.cell_y as int),
                hit.distance == perp_world(
                    maze.block_size as int,
                    cell_fp(pos_x as int, maze.block_size as int),
                    cell_fp(pos_y as int, maze.block_size as int),
                    dir_x as int,
                    dir_y as int,
                    hit.cell_x as int,
                    hit.cell_y as int,
                    hit.side as int,
                ),
                hit.wall_x == wall_frac(
                    cell_fp(pos_x as int, maze.block_size as int),
                    cell_fp(pos_y as int, maze.block_size as int),
                    dir_x as int,
                    dir_y as int,
                    hit.cell_x as int,
                    hit.cell_y as int,
                    hit.side as int,
                ),
                hit.side == 0 || hit.side == 1,
                0 <= hit.wall_x < FP,
                hit.distance >= 0,
                dist == (if hit.distance < FP {
                    FP as int
                } else {
                    hit.distance as int
                }),
                line_h as int == (bs_fp as int * (dist_to_proj as int)) / (dist as int),
                0 <= line_h <= 0x1000_0000_0000_0000,
                -0x1000_0000_0000_0000 <= top_fp <= 0x1000_0000,
                0 <= bot_fp <= 0x1000_0000_0000_0001 + 0x1000_0000,
                half_fp as int == ((fbh as int) * (FP as int)) / 2,
                half_line as int == (line_h as int) / 2,
                top_fp == half_fp - half_line,
                bot_fp == half_fp + half_line,
                top as int == (if ({
                    let t0 = if top_fp < 0 {
                        0int
                    } else {
                        (top_fp as int) / (FP as int)
                    };
                    t0 > fbh - 1
                }) {
                    fbh - 1
                } else {
                    if top_fp < 0 {
                        0int
                    } else {
                        (top_fp as int) / (FP as int)
                    }
                }),
                bot as int == (if (bot_fp as int) / (FP as int) > fbh - 1 {
                    fbh - 1
                } else {
                    (bot_fp as int) / (FP as int)
                }),
                0 <= top <= yy,
                bot <= fbh - 1,
                yy <= bot + 1,
                texman.spec_has(hit.tile),
                tw == texman.spec_lookup(hit.tile).width,
                th == texman.spec_lookup(hit.tile).height,
                1 <= tw <= 0x4000,
                1 <= th <= 0x4000,
                tx as int == ({
                    let t0 = ((hit.wall_x as int) * (tw as int)) / (FP as int);
                    if t0 > tw - 1 {
                        tw - 1
                    } else {
                        t0
                    }
                }),
                0 <= tx < tw,
                forall|py: int|
                    0 <= py < fbh && top <= py < yy ==> fb.spec_pixel(x as int, py)
                        == column_pixel(
                        maze,
                        pos_x as int,
                        pos_y as int,
                        dir_x as int,
                        dir_y as int,
                        dist_to_proj as int,
                        texman,
                        fbh as int,
                        py,
                    ),
                forall|py: int|
                    0 <= py < fbh && !(top <= py < yy) ==> fb.spec_pixel(x as int, py) == old(
                        fb,
                    ).spec_pixel(x as int, py),
                forall|px: int, py: int|
                    0 <= px < fb.width && 0 <= py < fbh && px != x ==> fb.spec_pixel(px, py)
                        == old(fb).spec_pixel(px, py),
            decreases bot + 1 - yy,
        {
            // vertical texel row from the row's position in the slice
            let dy_fp: i64 = yy * FP - top_fp;
            let ty: u32 = if line_h > 0 && dy_fp > 0 {
                proof {
                    assert((dy_fp as int) * ((th - 1) as int) <= 0x4000_0000_0000_0000 * 0x4000)
                        by (nonlinear_arith)
                        requires
                            0 <= dy_fp as int <= 0x4000_0000_0000_0000,
                            0 <= (th - 1) as int <= 0x4000,
                    ;
                }
                let t: u128 = ((dy_fp as u128) * ((th - 1) as u128)) / (line_h as u128);
                if t > (th - 1) as u128 {
                    th - 1
                } else {
                    t as u32
                }
            } else {
                0
            };
            let c0 = match texman.get_pixel_color(hit.tile, tx as u32, ty) {
                Some(c) => c,
                None => Color { r: 255, g: 255, b: 255, a: 255 },
            };
            let c = if hit.side == 1 {
                darken(c0)
            } else {
                c0
            };
            proof {
                assert(c == column_pixel(
                    maze,
                    pos_x as int,
                    pos_y as int,
                    dir_x as int,
                    dir_y as int,
                    dist_to_proj as int,
                    texman,
                    fbh as int,
                    yy as int,
                ));
            }
            fb.set_current_color(c);
            fb.set_pixel(x, yy as u32);
            yy = yy + 1;
        }
        proof {
            assert forall|py: int| 0 <= py < fbh && !(top <= py <= bot) implies column_pixel(
                maze,
                pos_x as int,
                pos_y as int,
                dir_x as int,
                dir_y as int,
                dist_to_proj as int,
                texman,
                fbh as int,
                py,
            ) == backdrop(fbh as int, py) by {}
        }
    } else {
        // no texture: flat light grey, darkened on side hits
        let base = Color { r: 200, g: 200, b: 200, a: 255 };
        let c = if hit.side == 1 {
            darken(base)
        } else {
            base
        };
        fb.set_current_color(c);
        let mut yy: i64 = top;
        while yy <= bot
            invariant
                fb.wf(),
                fb.width == old(fb).width,
                fb.height == old(fb).height,
                fb.background_color == old(fb).background_color,
                fb.current_color == c,
                fbh == fb.height,
                1 <= fbh <= 4096,
                maze.wf(),
                texman.wf(),
                x < fb.width,
                0 <= pos_x < (maze.width as int) * (maze.block_size as int) * (FP as int),
                0 <= pos_y < (maze.height as int) * (maze.block_size as int) * (FP as int),
                -FP <= dir_x <= FP,
                -FP <= dir_y <= FP,
                dir_x != 0 || dir_y != 0,
                0 <= dist_to_proj <= 0x1_0000_0000,
                bs_fp == (maze.block_size as int) * (FP as int),
                0 < bs_fp <= 0x1000_0000,
                (hit.cell_x as int, hit.cell_y as int, hit.side as int) == dda_walk(
                    maze,
                    start_cell(pos_x as int, maze.block_size as int),
                    start_cell(pos_y as int, maze.block_size as int),
                    init_side(cell_fp(pos_x as int, maze.block_size as int), dir_x as int),
                    init_side(cell_fp(pos_y as int, maze.block_size as int), dir_y as int),
                    dir_x as int,
                    dir_y as int,
                ),
                hit.tile == maze.spec_tile(hit.cell_x as int, hit.cell_y as int),
                hit.distance == perp_world(
                    maze.block_size as int,
                    cell_fp(pos_x as int, maze.block_size as int),
                    cell_fp(pos_y as int, maze.block_size as int),
                    dir_x as int,
                    dir_y as int,
                    hit.cell_x as int,
                    hit.cell_y as int,
                    hit.side as int,
                ),
                hit.side == 0 || hit.side == 1,
                hit.distance >= 0,
                !texman.spec_has(hit.tile),
                c == (if hit.side as int == 1 {
                    darkened(flat_grey())
                } else {
                    flat_grey()
                }),
                dist == (if hit.distance < FP {
                    FP as int
                } else {
                    hit.distance as int
                }),
                line_h as int == (bs_fp as int * (dist_to_proj as int)) / (dist as int),
                0 <= line_h <= 0x1000_0000_0000_0000,
                -0x1000_0000_0000_0000 <= top_fp <= 0x1000_0000,
                0 <= bot_fp <= 0x1000_0000_0000_0001 + 0x1000_0000,
                half_fp as int == ((fbh as int) * (FP as int)) / 2,
                half_line as int == (line_h as int) / 2,
                top_fp == half_fp - half_line,
                bot_fp == half_fp + half_line,
                top as int == (if ({
                    let t0 = if top_fp < 0 {
                        0int
                    } else {
                        (top_fp as int) / (FP as int)
                    };
                    t0 > fbh - 1
                }) {
                    fbh - 1
                } else {
                    if top_fp < 0 {
                        0int
                    } else {
                        (top_fp as int) / (FP as int)
                    }
                }),
                bot as int == (if (bot_fp as int) / (FP as int) > fbh - 1 {
                    fbh - 1
                } else {
                    (bot_fp as int) / (FP as int)
                }),
                0 <= top <= yy,
                bot <= fbh - 1,
                yy <= bot + 1,
                forall|py: int|
                    0 <= py < fbh && top <= py < yy ==> fb.spec_pixel(x as int, py)
                        == column_pixel(
                        maze,
                        pos_x as int,
                        pos_y as int,
                        dir_x as int,
                        dir_y as int,
                        dist_to_proj as int,
                        texman,
                        fbh as int,
                        py,
                    ),
                forall|py: int|
                    0 <= py < fbh && !(top <= py < yy) ==> fb.spec_pixel(x as int, py) == old(
                        fb,
                    ).spec_pixel(x as int, py),
                forall|px: int, py: int|
                    0 <= px < fb.width && 0 <= py < fbh && px != x ==> fb.spec_pixel(px, py)
                        == old(fb).spec_pixel(px, py),
            decreases bot + 1 - yy,
        {
            proof {
                assert(c == column_pixel(
                    maze,
                    pos_x as int,
                    pos_y as int,
                    dir_x as int,
                    dir_y as int,
                    dist_to_proj as int,
                    texman,
                    fbh as int,
                    yy as int,
                ));
            }
            fb.set_pixel(x, yy as u32);
            yy = yy + 1;
        }
    }
}

/// Renders one frame into `fb`: sky over floor, then for each column `x`
/// the ray with direction `dirs[x]` (the per-column fixed-point unit
/// vectors, fanned across the field of view by the caller) is cast and
/// its slice drawn. `dist_to_proj` is the distance to the projection
/// plane in pixels (16.16): `width / (2 * tan(fov / 2))`. Afterwards
/// every pixel of the buffer holds exactly [`column_pixel`] of its
/// coordinates: the frame is a pure function of the map, the observer,
/// the column directions and the texture store.
pub fn render3d(
    fb: &mut Framebuffer,
    maze: &Maze,
    player: &Player,
    dirs: &Vec<(i64, i64)>,
    dist_to_proj: i64,
    texman: &TextureManager,
)
    requires
        old(fb).wf(),
        maze.wf(),
        texman.wf(),
        player.wf(),
        0 <= player.pos_x < (maze.width as int) * (maze.block_size as int) * (FP as int),
        0 <= player.pos_y < (maze.height as int) * (maze.block_size as int) * (FP as int),
        dirs.len() == old(fb).width,
        forall|i: int|
            0 <= i < dirs.len() ==> -FP <= (#[trigger] dirs[i]).0 <= FP && -FP <= dirs[i].1 <= FP
                && !(dirs[i].0 == 0 && dirs[i].1 == 0),
        0 <= dist_to_proj <= 0x1_0000_0000,
    ensures
        final(fb).wf(),
        final(fb).width == old(fb).width,
        final(fb).height == old(fb).height,
        final(fb).background_color == old(fb).background_color,
        forall|px: int, py: int|
            0 <= px < old(fb).width && 0 <= py < old(fb).height ==> final(fb).spec_pixel(px, py)
                == column_pixel(
                maze,
                player.pos_x as int,
                player.pos_y as int,
                dirs[px].0 as int,
                dirs[px].1 as int,
                dist_to_proj as int,
                texman,
                old(fb).height as int,
                py,
            ),
{
    let hh: u32 = fb.height / 2;
    let fbw: u32 = fb.width;
    let fbh: u32 = fb.height;

    // upper half: flat sky color
    fb.set_current_color(Color { r: 60, g: 80, b: 140, a: 255 });
    let mut y: u32 = 0;
    while y < hh
        invariant
            fb.wf(),
            fb.width == old(fb).width,
            fb.height == old(fb).height,
            fb.background_color == old(fb).background_color,
            fb.current_color == sky_color(),
            fbw == fb.width,
            fbh == fb.height,
            hh == fbh / 2,
            y <= hh,
            forall|px: int, py: int|
                0 <= px < fbw && 0 <= py < y ==> fb.spec_pixel(px, py) == sky_color(),
        decreases hh - y,
    {
        let mut x: u32 = 0;
        while x < fbw
            invariant
                fb.wf(),
                fb.width == old(fb).width,
                fb.height == old(fb).height,
                fb.background_color == old(fb).background_color,
                fb.current_color == sky_color(),
                fbw == fb.width,
                fbh == fb.height,
                y < fbh,
                x <= fbw,
                forall|px: int, py: int|
                    0 <= px < fbw && 0 <= py < y ==> fb.spec_pixel(px, py) == sky_color(),
                forall|px: int| 0 <= px < x ==> fb.spec_pixel(px, y as int) == sky_color(),
            decreases fbw - x,
        {
            fb.set_pixel(x, y);
            x = x + 1;
        }
        y = y + 1;
    }

    proof {
        assert(forall|px: int, py: int|
            0 <= px < fbw && 0 <= py < hh ==> fb.spec_pixel(px, py) == sky_color());
    }

    // lower half: flat floor color
    fb.set_current_color(Color { r: 40, g: 40, b: 40, a: 255 });
    let mut y2: u32 = hh;
    while y2 < fbh
        invariant
            fb.wf(),
            fb.width == old(fb).width,
            fb.height == old(fb).height,
            fb.background_color == old(fb).background_color,
            fb.current_color == floor_color(),
            fbw == fb.width,
            fbh == fb.height,
            hh == fbh / 2,
            hh <= y2 <= fbh,
            forall|px: int, py: int|
                0 <= px < fbw && 0 <= py < hh ==> fb.spec_pixel(px, py) == sky_color(),
            forall|px: int, py: int|
                0 <= px < fbw && hh <= py < y2 ==> fb.spec_pixel(px, py) == floor_color(),
        decreases fbh - y2,
    {
        let mut x: u32 = 0;
        while x < fbw
            invariant
                fb.wf(),
                fb.width == old(fb).width,
                fb.height == old(fb).height,
                fb.background_color == old(fb).background_color,
                fb.current_color == floor_color(),
                fbw == fb.width,
                fbh == fb.height,
                hh <= y2 < fbh,
                hh == fbh / 2,
                x <= fbw,
                forall|px: int, py: int|
                    0 <= px < fbw && 0 <= py < hh ==> fb.spec_pixel(px, py) == sky_color(),
                forall|px: int, py: int|
                    0 <= px < fbw && hh <= py < y2 ==> fb.spec_pixel(px, py) == floor_color(),
                forall|px: int| 0 <= px < x ==> fb.spec_pixel(px, y2 as int) == floor_color(),
            decreases fbw - x,
        {
            fb.set_pixel(x, y2);
            x = x + 1;
        }
        y2 = y2 + 1;
    }

    proof {
        assert(forall|px: int, py: int|
            0 <= px < fbw && 0 <= py < fbh ==> fb.spec_pixel(px, py) == backdrop(
                fbh as int,
                py,
            ));
    }

    // one ray per column
    let mut x: u32 = 0;
    while x < fbw
        invariant
            fb.wf(),
            fb.width == old(fb).width,
            fb.height == old(fb).height,
            fb.background_color == old(fb).background_color,
            fbw == fb.width,
            fbh == fb.height,
            hh == fbh / 2,
            x <= fbw,
            maze.wf(),
            texman.wf(),
            player.wf(),
            0 <= player.pos_x < (maze.width as int) * (maze.block_size as int) * (FP as int),
            0 <= player.pos_y < (maze.height as int) * (maze.block_size as int) * (FP as int),
            dirs.len() == fbw,
            forall|i: int|
                0 <= i < dirs.len() ==> -FP <= (#[trigger] dirs[i]).0 <= FP && -FP
                    <= dirs[i].1 <= FP && !(dirs[i].0 == 0 && dirs[i].1 == 0),
            0 <= dist_to_proj <= 0x1_0000_0000,
            forall|px: int, py: int|
                0 <= px < x && 0 <= py < fbh ==> fb.spec_pixel(px, py) == column_pixel(
                    maze,
                    player.pos_x as int,
                    player.pos_y as int,
                    dirs[px].0 as int,
                    dirs[px].1 as int,
                    dist_to_proj as int,
                    texman,
                    fbh as int,
                    py,
                ),
            forall|px: int, py: int|
                x <= px < fbw && 0 <= py < fbh ==> fb.spec_pixel(px, py) == backdrop(
                    fbh as int,
                    py,
                ),
        decreases fbw - x,
    {
        let d = dirs[x as usize];
        render_column(fb, maze, player.pos_x, player.pos_y, d.0, d.1, dist_to_proj, texman, x);
        x = x + 1;
    }
}

} // verus!
