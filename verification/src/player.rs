//! The observer: position, heading and speeds in 16.16 fixed point, and
//! the per-frame update rules. Rotation is pure fixed-point arithmetic;
//! movement combines the held keys into a candidate direction, normalizes
//! it, and accepts the candidate position only if its destination cell is
//! passable.

use vstd::prelude::*;

use crate::fixed::{FP, abs_i, div_trunc, isqrt, lemma_div_at_least, lemma_div_at_most, lemma_div_below, lemma_sqrt_of, sqrt_of};
use crate::maze::Maze;

verus! {

/// Default movement speed: 180 world units per second, in 16.16 fixed
/// point.
pub const DEFAULT_MOVE_SPEED: i64 = 11796480;

/// Default rotation speed: 7/10 radians per second (and per pointer-drag
/// unit), in 16.16 fixed point.
pub const DEFAULT_ROT_SPEED: i64 = 45875;

/// Default field of view: one third of pi radians, in 16.16 fixed point.
pub const DEFAULT_FOV: i64 = 68629;

/// The observer: current and previous world position (16.16), heading
/// angle in radians (16.16), movement and rotation speeds, and field of
/// view.
pub struct Player {
    pub pos_x: i64,
    pub pos_y: i64,
    pub prev_x: i64,
    pub prev_y: i64,
    pub a: i64,
    pub move_speed: i64,
    pub rot_speed: i64,
    pub fov: i64,
}

impl Player {
    /// Well-formedness: every scalar stays in a range where one frame of
    /// arithmetic cannot overflow.
    pub open spec fn wf(&self) -> bool {
        &&& 0 <= self.pos_x <= 0x100_0000_0000
        &&& 0 <= self.pos_y <= 0x100_0000_0000
        &&& -0x100_0000_0000 <= self.a <= 0x100_0000_0000
        &&& 0 <= self.move_speed <= 0x400_0000
        &&& 0 <= self.rot_speed <= 0x400_0000
        &&& 0 < self.fov <= 0x4_0000
    }

    /// A new observer at the given position, heading along positive x,
    /// with the default speeds and field of view.
    pub fn new(pos_x: i64, pos_y: i64) -> (p: Player)
        requires
            0 <= pos_x <= 0x100_0000_0000,
            0 <= pos_y <= 0x100_0000_0000,
        ensures
            p.wf(),
            p.pos_x == pos_x,
            p.pos_y == pos_y,
            p.prev_x == pos_x,
            p.prev_y == pos_y,
            p.a == 0,
            p.move_speed == DEFAULT_MOVE_SPEED,
            p.rot_speed == DEFAULT_ROT_SPEED,
            p.fov == DEFAULT_FOV,
    {
        Player {
            pos_x,
            pos_y,
            prev_x: pos_x,
            prev_y: pos_y,
            a: 0,
            move_speed: DEFAULT_MOVE_SPEED,
            rot_speed: DEFAULT_ROT_SPEED,
            fov: DEFAULT_FOV,
        }
    }

    /// The cell a world coordinate falls in: its floor in cell units, with
    /// everything left of the map collapsed to the out-of-bounds index -1
    /// (the wall classification of all negative cells is the same).
    pub open spec fn spec_cell_of(v: int, bs: int) -> int {
        if v < 0 {
            -1
        } else {
            v / (bs * (FP as int))
        }
    }

    /// Whether the destination `(nx, ny)` (world units, 16.16) lies in a
    /// passable cell of the maze.
    pub fn can_move_to(&self, maze: &Maze, nx: i64, ny: i64) -> (b: bool)
        requires
            maze.wf(),
            -0x4000_0000_0000 <= nx <= 0x4000_0000_0000,
            -0x4000_0000_0000 <= ny <= 0x4000_0000_0000,
        ensures
            b == !maze.spec_is_wall(
                Self::spec_cell_of(nx as int, maze.block_size as int),
                Self::spec_cell_of(ny as int, maze.block_size as int),
            ),
    {
        let bs = maze.block_size as i64;
        let cell_w: i64 = bs * FP;
        let cx: i64 = if nx < 0 {
            -1
        } else {
            proof {
                lemma_div_below(nx as int, cell_w as int, 0x4000_0000_0000);
            }
            ((nx as u64) / (cell_w as u64)) as i64
        };
        let cy: i64 = if ny < 0 {
            -1
        } else {
            proof {
                lemma_div_below(ny as int, cell_w as int, 0x4000_0000_0000);
            }
            ((ny as u64) / (cell_w as u64)) as i64
        };
        let cxi: isize = if cx > 0x7fff {
            0x7fff
        } else {
            cx as isize
        };
        let cyi: isize = if cy > 0x7fff {
            0x7fff
        } else {
            cy as isize
        };
        proof {
            if cxi != cx {
                assert(maze.spec_is_wall(cx as int, cy as int) && maze.spec_is_wall(
                    cxi as int,
                    cyi as int,
                ));
            }
            if cyi != cy {
                assert(maze.spec_is_wall(cx as int, cy as int) && maze.spec_is_wall(
                    cxi as int,
                    cyi as int,
                ));
            }
        }
        !maze.is_wall(cxi, cyi)
    }

    /// Remembers the current position (for rollback bookkeeping) and moves
    /// to `(nx, ny)` exactly when its cell is passable; a destination in a
    /// wall cell leaves the position unchanged.
    pub fn try_move(&mut self, maze: &Maze, nx: i64, ny: i64) -> (moved: bool)
        requires
            old(self).wf(),
            maze.wf(),
            -0x4000_0000_0000 <= nx <= 0x4000_0000_0000,
            -0x4000_0000_0000 <= ny <= 0x4000_0000_0000,
        ensures
            moved == !maze.spec_is_wall(
                Self::spec_cell_of(nx as int, maze.block_size as int),
                Self::spec_cell_of(ny as int, maze.block_size as int),
            ),
            moved ==> final(self).pos_x == nx && final(self).pos_y == ny,
            !moved ==> final(self).pos_x == old(self).pos_x && final(self).pos_y == old(
                self,
            ).pos_y,
            final(self).prev_x == old(self).pos_x,
            final(self).prev_y == old(self).pos_y,
            final(self).a == old(self).a,
            final(self).move_speed == old(self).move_speed,
            final(self).rot_speed == old(self).rot_speed,
            final(self).fov == old(self).fov,
    {
        self.prev_x = self.pos_x;
        self.prev_y = self.pos_y;
        if self.can_move_to(maze, nx, ny) {
            self.pos_x = nx;
            self.pos_y = ny;
            true
        } else {
            false
        }
    }

    /// One frame of rotation: the held left/right keys turn at the
    /// rotation speed scaled by the frame time, and a pointer drag turns
    /// by its horizontal delta scaled by the rotation speed. The frame
    /// time is bounded by one second (`FP`) only so the fixed-point
    /// products provably stay inside `i64`.
    pub fn apply_rotation(
        &mut self,
        left: bool,
        right: bool,
        mouse_held: bool,
        mouse_dx: i64,
        dt: i64,
    )
        requires
            old(self).wf(),
            0 <= dt <= FP,
            -0x1000_0000 <= mouse_dx <= 0x1000_0000,
            -0xff_0000_0000 <= old(self).a <= 0xff_0000_0000,
        ensures
            final(self).a == old(self).a + (if right {
                old(self).rot_speed * dt / (FP as int)
            } else {
                0
            }) - (if left {
                old(self).rot_speed * dt / (FP as int)
            } else {
                0
            }) + (if mouse_held {
                div_trunc(mouse_dx * old(self).rot_speed, FP as int)
            } else {
                0
            }),
            final(self).pos_x == old(self).pos_x,
            final(self).pos_y == old(self).pos_y,
            final(self).prev_x == old(self).prev_x,
            final(self).prev_y == old(self).prev_y,
            final(self).move_speed == old(self).move_speed,
            final(self).rot_speed == old(self).rot_speed,
            final(self).fov == old(self).fov,
    {
        let rs: i64 = self.rot_speed;
        proof {
            assert(0 <= rs * dt <= 0x400_0000 * 0x10000) by (nonlinear_arith)
                requires
                    0 <= rs <= 0x400_0000,
                    0 <= dt <= 0x10000,
            ;
            lemma_div_below((rs * dt) as int, FP as int, 0x400_0001);
        }
        let turn: i64 = (((rs as u64) * (dt as u64)) / (FP as u64)) as i64;
        if left {
            self.a = self.a - turn;
        }
        if right {
            self.a = self.a + turn;
        }
        if mouse_held {
            let drag_abs: i64 = if mouse_dx < 0 {
                -mouse_dx
            } else {
                mouse_dx
            };
            proof {
                assert(0 <= drag_abs * rs <= 0x1000_0000 * 0x400_0000) by (nonlinear_arith)
                    requires
                        0 <= drag_abs <= 0x1000_0000,
                        0 <= rs <= 0x400_0000,
                ;
                lemma_div_below((drag_abs * rs) as int, FP as int, 0x400_0000_0000_0001);
            }
            let q: i64 = (((drag_abs as u64) * (rs as u64)) / (FP as u64)) as i64;
            let drag: i64 = if mouse_dx < 0 {
                -q
            } else {
                q
            };
            proof {
                if mouse_dx < 0 {
                    assert(drag_abs * rs == -(mouse_dx * rs)) by (nonlinear_arith)
                        requires
                            drag_abs == -mouse_dx,
                    ;
                } else {
                    assert(drag_abs * rs == mouse_dx * rs);
                }
            }
            self.a = self.a + drag;
        }
    }

    /// One frame of movement. The held keys combine the heading direction
    /// `(hx, hy)` (the fixed-point unit vector of the current heading) and
    /// its perpendicular into a candidate velocity; when it is non-zero it
    /// is normalized by its integer length and scaled by the movement
    /// speed and the frame time, and the exact candidate destination so
    /// fixed is accepted only if its cell is passable. One frame never
    /// moves farther than `move_speed * dt` on either axis, and a rejected
    /// destination leaves the position exactly where it was. The frame
    /// time is bounded by one second (`FP`) only so the fixed-point
    /// products provably stay inside `i64`.
    #[verifier::rlimit(100)]
    pub fn apply_movement(
        &mut self,
        maze: &Maze,
        hx: i64,
        hy: i64,
        key_w: bool,
        key_s: bool,
        key_a: bool,
        key_d: bool,
        dt: i64,
    ) -> (moved: bool)
        requires
            old(self).wf(),
            maze.wf(),
            -FP <= hx <= FP,
            -FP <= hy <= FP,
            0 <= dt <= FP,
        ensures
            final(self).wf(),
            final(self).prev_x == old(self).pos_x,
            final(self).prev_y == old(self).pos_y,
            final(self).a == old(self).a,
            final(self).move_speed == old(self).move_speed,
            final(self).rot_speed == old(self).rot_speed,
            final(self).fov == old(self).fov,
            !moved ==> final(self).pos_x == old(self).pos_x && final(self).pos_y == old(
                self,
            ).pos_y,
            moved ==> !maze.spec_is_wall(
                Self::spec_cell_of(final(self).pos_x as int, maze.block_size as int),
                Self::spec_cell_of(final(self).pos_y as int, maze.block_size as int),
            ),
            ({
                let f = (if key_w {
                    1int
                } else {
                    0
                }) - (if key_s {
                    1int
                } else {
                    0
                });
                let g = (if key_d {
                    1int
                } else {
                    0
                }) - (if key_a {
                    1int
                } else {
                    0
                });
                (f * hx - g * hy == 0 && f * hy + g * hx == 0) ==> !moved
            }),
            abs_i(final(self).pos_x - old(self).pos_x) <= old(self).move_speed * dt / (FP as int),
            abs_i(final(self).pos_y - old(self).pos_y) <= old(self).move_speed * dt / (FP as int),
            ({
                let f = (if key_w {
                    1int
                } else {
                    0
                }) - (if key_s {
                    1int
                } else {
                    0
                });
                let ga = (if key_d {
                    1int
                } else {
                    0
                }) - (if key_a {
                    1int
                } else {
                    0
                });
                let vx = f * hx - ga * hy;
                let vy = f * hy + ga * hx;
                let step = old(self).move_speed * dt / (FP as int);
                (vy == 0 && vx != 0) ==> {
                    let cand = old(self).pos_x + (if vx > 0 {
                        step
                    } else {
                        -step
                    });
                    &&& moved == !maze.spec_is_wall(
                        Self::spec_cell_of(cand, maze.block_size as int),
                        Self::spec_cell_of(old(self).pos_y as int, maze.block_size as int),
                    )
                    &&& moved ==> final(self).pos_x == cand && final(self).pos_y == old(
                        self,
                    ).pos_y
                }
            }),
            ({
                let f = (if key_w {
                    1int
                } else {
                    0
                }) - (if key_s {
                    1int
                } else {
                    0
                });
                let ga = (if key_d {
                    1int
                } else {
                    0
                }) - (if key_a {
                    1int
                } else {
                    0
                });
                let vx = f * hx - ga * hy;
                let vy = f * hy + ga * hx;
                let step = old(self).move_speed * dt / (FP as int);
                (vx == 0 && vy != 0) ==> {
                    let cand = old(self).pos_y + (if vy > 0 {
                        step
                    } else {
                        -step
                    });
                    &&& moved == !maze.spec_is_wall(
                        Self::spec_cell_of(old(self).pos_x as int, maze.block_size as int),
                        Self::spec_cell_of(cand, maze.block_size as int),
                    )
                    &&& moved ==> final(self).pos_y == cand && final(self).pos_x == old(
                        self,
                    ).pos_x
                }
            }),
            ({
                let f = (if key_w {
                    1int
                } else {
                    0
                }) - (if key_s {
                    1int
                } else {
                    0
                });
                let ga = (if key_d {
                    1int
                } else {
                    0
                }) - (if key_a {
                    1int
                } else {
                    0
                });
                let vx = f * hx - ga * hy;
                let vy = f * hy + ga * hx;
                let step = old(self).move_speed * dt / (FP as int);
                let len = sqrt_of(vx * vx + vy * vy);
                (vx != 0 && vy != 0) ==> {
                    let cx = old(self).pos_x + (if vx >= 0 {
                        ((vx * (FP as int) / len) * step) / (FP as int)
                    } else {
                        -((((-vx) * (FP as int) / len) * step) / (FP as int))
                    });
                    let cy = old(self).pos_y + (if vy >= 0 {
                        ((vy * (FP as int) / len) * step) / (FP as int)
                    } else {
                        -((((-vy) * (FP as int) / len) * step) / (FP as int))
                    });
                    &&& moved == !maze.spec_is_wall(
                        Self::spec_cell_of(cx, maze.block_size as int),
                        Self::spec_cell_of(cy, maze.block_size as int),
                    )
                    &&& moved ==> final(self).pos_x == cx && final(self).pos_y == cy
                }
            }),
    {
        let fw: i64 = (if key_w {
            1
        } else {
            0
        }) - (if key_s {
            1
        } else {
            0
        });
        let st: i64 = (if key_d {
            1
        } else {
            0
        }) - (if key_a {
            1
        } else {
            0
        });
        proof {
            assert(-0x2_0000 <= fw * hx <= 0x2_0000 && -0x2_0000 <= fw * hy <= 0x2_0000
                && -0x2_0000 <= st * hx <= 0x2_0000 && -0x2_0000 <= st * hy <= 0x2_0000)
                by (nonlinear_arith)
                requires
                    -1 <= fw <= 1,
                    -1 <= st <= 1,
                    -0x1_0000 <= hx <= 0x1_0000,
                    -0x1_0000 <= hy <= 0x1_0000,
            ;
        }
        let vx: i64 = fw * hx - st * hy;
        let vy: i64 = fw * hy + st * hx;
        if vx == 0 && vy == 0 {
            self.prev_x = self.pos_x;
            self.prev_y = self.pos_y;
            return false;
        }
        let vxa: i64 = if vx < 0 {
            -vx
        } else {
            vx
        };
        let vya: i64 = if vy < 0 {
            -vy
        } else {
            vy
        };
        proof {
            assert(0 <= vxa * vxa <= 0x4_0000 * 0x4_0000 && 0 <= vya * vya <= 0x4_0000 * 0x4_0000
                && vxa * vxa == vx * vx && vya * vya == vy * vy) by (nonlinear_arith)
                requires
                    0 <= vxa <= 0x4_0000,
                    0 <= vya <= 0x4_0000,
                    vxa == abs_i(vx as int),
                    vya == abs_i(vy as int),
            ;
        }
        let n: u64 = ((vxa * vxa) as u64) + ((vya * vya) as u64);
        let len: u64 = isqrt(n);
        proof {
            assert(n >= 1) by (nonlinear_arith)
                requires
                    n == vxa * vxa + vya * vya,
                    0 <= vxa,
                    0 <= vya,
                    vxa >= 1 || vya >= 1,
            ;
            assert(len >= 1) by (nonlinear_arith)
                requires
                    n >= 1,
                    len * len <= n < (len + 1) * (len + 1),
                    len >= 0,
            ;
            // each component is at most the vector's length
            assert(vxa <= len && vya <= len) by (nonlinear_arith)
                requires
                    0 <= vxa,
                    0 <= vya,
                    vxa * vxa + vya * vya < (len + 1) * (len + 1),
                    0 <= len,
            ;
        }
        let ms: i64 = self.move_speed;
        proof {
            assert(0 <= ms * dt <= 0x400_0000 * 0x10000) by (nonlinear_arith)
                requires
                    0 <= ms <= 0x400_0000,
                    0 <= dt <= 0x10000,
            ;
            lemma_div_below((ms * dt) as int, FP as int, 0x400_0001);
        }
        let step: i64 = (((ms as u64) * (dt as u64)) / (FP as u64)) as i64;
        // normalized direction component, in [0, FP], then one axis step
        let qx: i64 = (((vxa as u64) * (FP as u64)) / len) as i64;
        let qy: i64 = (((vya as u64) * (FP as u64)) / len) as i64;
        proof {
            lemma_div_at_most((vxa * FP) as int, len as int, FP as int);
            lemma_div_at_most((vya * FP) as int, len as int, FP as int);
            assert(0 <= qx * step <= 0x10000 * 0x400_0000 && qx * step <= 0x10000 * step && 0
                <= qy * step <= 0x10000 * 0x400_0000 && qy * step <= 0x10000 * step)
                by (nonlinear_arith)
                requires
                    0 <= qx <= 0x10000,
                    0 <= qy <= 0x10000,
                    0 <= step <= 0x400_0000,
            ;
            lemma_div_at_most((qx * step) as int, FP as int, step as int);
            lemma_div_at_most((qy * step) as int, FP as int, step as int);
        }
        // an axis-aligned velocity normalizes to exactly one step on that
        // axis and none on the other, so those cases need no square root
        let dx: i64;
        let dy: i64;
        if vya == 0 {
            dx = if vx < 0 {
                -step
            } else {
                step
            };
            dy = 0;
        } else if vxa == 0 {
            dx = 0;
            dy = if vy < 0 {
                -step
            } else {
                step
            };
        } else {
            let dxa: i64 = (((qx as u64) * (step as u64)) / (FP as u64)) as i64;
            let dya: i64 = (((qy as u64) * (step as u64)) / (FP as u64)) as i64;
            dx = if vx < 0 {
                -dxa
            } else {
                dxa
            };
            dy = if vy < 0 {
                -dya
            } else {
                dya
            };
        }
        let nx: i64 = self.pos_x + dx;
        let ny: i64 = self.pos_y + dy;
        let moved = self.try_move(maze, nx, ny);
        proof {
            // the diagonal case: the destination is exactly the normalized
            // candidate over the unique integer square root
            if vxa != 0 && vya != 0 {
                lemma_sqrt_of((vxa * vxa + vya * vya) as int, len as int);
                let f_s = (if key_w {
                    1int
                } else {
                    0
                }) - (if key_s {
                    1int
                } else {
                    0
                });
                let ga_s = (if key_d {
                    1int
                } else {
                    0
                }) - (if key_a {
                    1int
                } else {
                    0
                });
                let vx_s = f_s * (hx as int) - ga_s * (hy as int);
                let vy_s = f_s * (hy as int) + ga_s * (hx as int);
                let vxi = vx as int;
                let vyi = vy as int;
                let leni = len as int;
                let stepi = old(self).move_speed * dt / (FP as int);
                assert(vx_s == vxi && vy_s == vyi);
                assert(stepi == step as int);
                assert(vx_s * vx_s == (vxa as int) * (vxa as int) && vy_s * vy_s == (
                vya as int) * (vya as int)) by (nonlinear_arith)
                    requires
                        vx_s == vxi,
                        vy_s == vyi,
                        vxa as int == abs_i(vxi),
                        vya as int == abs_i(vyi),
                ;
                assert(sqrt_of(vx_s * vx_s + vy_s * vy_s) == leni);
                assert(vx_s * (FP as int) == (vxa as int) * (FP as int) || (-vx_s) * (
                FP as int) == (vxa as int) * (FP as int)) by (nonlinear_arith)
                    requires
                        vx_s == vxi,
                        vxa as int == abs_i(vxi),
                ;
                assert(vy_s * (FP as int) == (vya as int) * (FP as int) || (-vy_s) * (
                FP as int) == (vya as int) * (FP as int)) by (nonlinear_arith)
                    requires
                        vy_s == vyi,
                        vya as int == abs_i(vyi),
                ;
                if vxi >= 0 {
                    assert(vx_s * (FP as int) / leni == qx as int);
                    assert((vx_s * (FP as int) / leni) * stepi == (qx as int) * stepi)
                        by (nonlinear_arith)
                        requires
                            vx_s * (FP as int) / leni == qx as int,
                    ;
                    assert(nx as int == old(self).pos_x + ((vx_s * (FP as int) / leni) * stepi)
                        / (FP as int));
                } else {
                    assert((-vx_s) * (FP as int) / leni == qx as int);
                    assert(((-vx_s) * (FP as int) / leni) * stepi == (qx as int) * stepi)
                        by (nonlinear_arith)
                        requires
                            (-vx_s) * (FP as int) / leni == qx as int,
                    ;
                    assert(nx as int == old(self).pos_x + -((((-vx_s) * (FP as int) / leni)
                        * stepi) / (FP as int)));
                }
                if vyi >= 0 {
                    assert(vy_s * (FP as int) / leni == qy as int);
                    assert((vy_s * (FP as int) / leni) * stepi == (qy as int) * stepi)
                        by (nonlinear_arith)
                        requires
                            vy_s * (FP as int) / leni == qy as int,
                    ;
                    assert(ny as int == old(self).pos_y + ((vy_s * (FP as int) / leni) * stepi)
                        / (FP as int));
                } else {
                    assert((-vy_s) * (FP as int) / leni == qy as int);
                    assert(((-vy_s) * (FP as int) / leni) * stepi == (qy as int) * stepi)
                        by (nonlinear_arith)
                        requires
                            (-vy_s) * (FP as int) / leni == qy as int,
                    ;
                    assert(ny as int == old(self).pos_y + -((((-vy_s) * (FP as int) / leni)
                        * stepi) / (FP as int)));
                }
            }
            // restate the axis-aligned cases directly over the contract's
            // key combination, so the exactness clauses follow verbatim
            assert(({
                let f = (if key_w {
                    1int
                } else {
                    0
                }) - (if key_s {
                    1int
                } else {
                    0
                });
                let ga = (if key_d {
                    1int
                } else {
                    0
                }) - (if key_a {
                    1int
                } else {
                    0
                });
                let vxs = f * hx - ga * hy;
                let vys = f * hy + ga * hx;
                let steps = old(self).move_speed * dt / (FP as int);
                (vys == 0 && vxs != 0) ==> {
                    let cand = old(self).pos_x + (if vxs > 0 {
                        steps
                    } else {
                        -steps
                    });
                    &&& moved == !maze.spec_is_wall(
                        Self::spec_cell_of(cand, maze.block_size as int),
                        Self::spec_cell_of(old(self).pos_y as int, maze.block_size as int),
                    )
                    &&& moved ==> self.pos_x == cand && self.pos_y == old(self).pos_y
                }
            }));
            assert(({
                let f = (if key_w {
                    1int
                } else {
                    0
                }) - (if key_s {
                    1int
                } else {
                    0
                });
                let ga = (if key_d {
                    1int
                } else {
                    0
                }) - (if key_a {
                    1int
                } else {
                    0
                });
                let vxs = f * hx - ga * hy;
                let vys = f * hy + ga * hx;
                let steps = old(self).move_speed * dt / (FP as int);
                (vxs == 0 && vys != 0) ==> {
                    let cand = old(self).pos_y + (if vys > 0 {
                        steps
                    } else {
                        -steps
                    });
                    &&& moved == !maze.spec_is_wall(
                        Self::spec_cell_of(old(self).pos_x as int, maze.block_size as int),
                        Self::spec_cell_of(cand, maze.block_size as int),
                    )
                    &&& moved ==> self.pos_y == cand && self.pos_x == old(self).pos_x
                }
            }));
            let bsf = (maze.block_size as int) * (FP as int);
            assert(0 < bsf <= 0x1000_0000);
            if moved {
                if nx > 0x100_0000_0000 {
                    assert(bsf * (maze.width as int) <= 0x100_0000_0000) by (nonlinear_arith)
                        requires
                            bsf == (maze.block_size as int) * (FP as int),
                            maze.block_size <= 4096,
                            maze.width <= 4096,
                            FP == 0x10000,
                    ;
                    lemma_div_at_least(nx as int, bsf, maze.width as int);
                    assert(maze.spec_is_wall(
                        Self::spec_cell_of(nx as int, maze.block_size as int),
                        Self::spec_cell_of(ny as int, maze.block_size as int),
                    ));
                }
                if ny > 0x100_0000_0000 {
                    assert(bsf * (maze.height as int) <= 0x100_0000_0000) by (nonlinear_arith)
                        requires
                            bsf == (maze.block_size as int) * (FP as int),
                            maze.block_size <= 4096,
                            maze.height <= 4096,
                            FP == 0x10000,
                    ;
                    lemma_div_at_least(ny as int, bsf, maze.height as int);
                    assert(maze.spec_is_wall(
                        Self::spec_cell_of(nx as int, maze.block_size as int),
                        Self::spec_cell_of(ny as int, maze.block_size as int),
                    ));
                }
            }
        }
        moved
    }
}

} // verus!
