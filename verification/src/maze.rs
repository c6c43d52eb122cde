//! The tile grid: a rectangular map of single-character symbols with a
//! physical cell size, and the single wall-classification predicate that
//! the caster, the renderer, the minimap and movement all share.

use vstd::prelude::*;

verus! {

/// The symbols that a ray can pass through and the observer can walk on:
/// space, the start marker `S`, and the exit markers `E` and `e`. Every
/// other symbol (including unrecognized ones) is a wall, and so is any
/// out-of-bounds coordinate.
pub open spec fn is_passable_char(c: char) -> bool {
    c == ' ' || c == 'S' || c == 'E' || c == 'e'
}

/// Wall classification of a single tile symbol (see [`is_passable_char`]).
pub fn is_wall_ch(c: char) -> (b: bool)
    ensures
        b == !is_passable_char(c),
{
    !(c == ' ' || c == 'S' || c == 'E' || c == 'e')
}

/// A rectangular tile grid. `width` and `height` are cached from the grid,
/// `block_size` is the physical size of one cell in world units.
pub struct Maze {
    pub grid: Vec<Vec<char>>,
    pub width: usize,
    pub height: usize,
    pub block_size: usize,
}

impl Maze {
    /// Well-formedness: the cached dimensions match the grid, every row has
    /// the same length, the map is non-empty, and the dimensions are small
    /// enough that every fixed-point world coordinate fits comfortably in
    /// an `i64`.
    pub open spec fn wf(&self) -> bool {
        &&& self.grid.len() == self.height
        &&& 1 <= self.height <= 4096
        &&& 1 <= self.width <= 4096
        &&& 1 <= self.block_size <= 4096
        &&& forall|j: int| 0 <= j < self.height ==> #[trigger] self.grid[j].len() == self.width
    }

    /// The symbol at cell `(cx, cy)`, with out-of-bounds treated as the
    /// boundary wall `'#'`.
    pub open spec fn spec_tile(&self, cx: int, cy: int) -> char {
        if cx < 0 || cy < 0 || cx >= self.width || cy >= self.height {
            '#'
        } else {
            self.grid[cy][cx]
        }
    }

    /// Whether cell `(cx, cy)` is a wall; out-of-bounds is always a wall.
    pub open spec fn spec_is_wall(&self, cx: int, cy: int) -> bool {
        !is_passable_char(self.spec_tile(cx, cy))
    }

    /// Builds a map from rows of symbols. The rows must form a non-empty
    /// rectangle: an empty grid, an empty first row, a ragged row, or a
    /// dimension over the supported limit is rejected with `None` (ragged
    /// input is treated as a hard validation error rather than padded).
    pub fn new(grid: Vec<Vec<char>>, block_size: usize) -> (r: Option<Maze>)
        ensures
            match r {
                Some(m) => {
                    &&& m.wf()
                    &&& m.grid == grid
                    &&& m.block_size == block_size
                    &&& m.height == grid.len()
                    &&& grid.len() > 0 && m.width == grid[0].len()
                },
                None => {
                    ||| grid.len() == 0
                    ||| grid.len() > 4096
                    ||| grid.len() > 0 && (grid[0].len() == 0 || grid[0].len() > 4096)
                    ||| !(1 <= block_size <= 4096)
                    ||| exists|j: int|
                        0 <= j < grid.len() && #[trigger] grid[j].len() != grid[0].len()
                },
            },
    {
        let height = grid.len();
        if height == 0 || height > 4096 {
            return None;
        }
        let width = grid[0].len();
        if width == 0 || width > 4096 {
            return None;
        }
        if block_size == 0 || block_size > 4096 {
            return None;
        }
        for j in 0..height
            invariant
                height == grid.len(),
                width == grid[0].len(),
                forall|k: int| 0 <= k < j ==> #[trigger] grid[k].len() == width,
        {
            if grid[j].len() != width {
                return None;
            }
        }
        Some(Maze { grid, width, height, block_size })
    }

    /// The symbol at cell `(cx, cy)`; out-of-bounds reads the boundary
    /// wall symbol `'#'`.
    pub fn tile(&self, cx: isize, cy: isize) -> (c: char)
        requires
            self.wf(),
        ensures
            c == self.spec_tile(cx as int, cy as int),
    {
        if cx < 0 || cy < 0 || cx >= self.width as isize || cy >= self.height as isize {
            return '#';
        }
        assert(self.grid[cy as int].len() == self.width);
        self.grid[cy as usize][cx as usize]
    }

    /// Whether cell `(cx, cy)` blocks rays and movement. Uses the same
    /// classification as the scene renderer and the minimap.
    pub fn is_wall(&self, cx: isize, cy: isize) -> (b: bool)
        requires
            self.wf(),
        ensures
            b == self.spec_is_wall(cx as int, cy as int),
    {
        let ch = self.tile(cx, cy);
        is_wall_ch(ch)
    }
}

} // verus!
