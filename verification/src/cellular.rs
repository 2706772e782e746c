//! Cellular-automata smoothing: `build` scrambles every cell with a coin
//! flip; each `iterate` recomputes the whole grid from a snapshot by the
//! Moore-neighbor rule, up to a fixed number of passes.

use vstd::prelude::*;
use vstd::arithmetic::div_mod::lemma_fundamental_div_mod_converse;

use crate::builder::MapBuilder;
use crate::grid::{Grid, GridView, TileType};
use crate::rng::RandomSource;
use crate::text::{spec_decimal, u64_to_string};

verus! {

/// Smoothing stops after this many passes.
pub const CELLULAR_MAX_ITERATIONS: u32 = 16;

/// 1 when `(x, y)` lies on the grid and holds a wall, else 0: out-of-grid
/// neighbors are simply omitted from the count.
pub open spec fn wall_indicator(v: GridView, x: int, y: int) -> int {
    if v.in_bounds(x, y) && v.at(x, y) == TileType::Wall {
        1
    } else {
        0
    }
}

/// How many of the 8 Moore neighbors of `(x, y)` are walls.
pub open spec fn neighbor_walls(v: GridView, x: int, y: int) -> int {
    wall_indicator(v, x - 1, y - 1) + wall_indicator(v, x - 1, y) + wall_indicator(
        v,
        x - 1,
        y + 1,
    ) + wall_indicator(v, x, y - 1) + wall_indicator(v, x, y + 1) + wall_indicator(
        v,
        x + 1,
        y - 1,
    ) + wall_indicator(v, x + 1, y) + wall_indicator(v, x + 1, y + 1)
}

/// The smoothing rule: a wall where more than 4 neighbors are walls, a floor
/// where 0 to 4 are.
pub open spec fn smooth_tile(v: GridView, x: int, y: int) -> TileType {
    if neighbor_walls(v, x, y) > 4 {
        TileType::Wall
    } else {
        TileType::Floor
    }
}

/// One whole smoothing pass, computed cell by cell from the old grid alone.
pub open spec fn smoothed(v: GridView) -> GridView {
    GridView {
        width: v.width,
        height: v.height,
        tiles: Seq::new(
            v.width * v.height,
            |i: int| smooth_tile(v, i % (v.width as int), i / (v.width as int)),
        ),
    }
}

pub struct CellularAutomataBuilder<R: RandomSource> {
    pub map: Grid,
    pub iterations: u32,
    pub rng: R,
}

impl<R: RandomSource> CellularAutomataBuilder<R> {
    pub fn new(width: usize, height: usize, rng: R) -> (b: Self)
        requires
            1 <= width <= 4096,
            1 <= height <= 4096,
        ensures
            b.wf(),
            b.map@.width == width,
            b.map@.height == height,
            b.iterations == 0,
            forall|i: int| 0 <= i < b.map@.tiles.len() ==> b.map@.tiles[i] == TileType::Wall,
    {
        proof {
            assert(width * height <= usize::MAX) by (nonlinear_arith)
                requires
                    width <= 4096,
                    height <= 4096,
            ;
        }
        CellularAutomataBuilder { map: Grid::new(width, height), iterations: 0, rng }
    }

    /// Fills every cell independently with a coin flip and resets the pass
    /// counter. Which tiles come out depends on the random source alone.
    pub fn scramble(&mut self)
        requires
            old(self).wf(),
        ensures
            final(self).wf(),
            final(self).map@.same_dims(old(self).map@),
            final(self).iterations == 0,
    {
        let w = self.map.width;
        let h = self.map.height;
        proof {
            assert(w * h <= usize::MAX) by (nonlinear_arith)
                requires
                    w <= 4096,
                    h <= 4096,
            ;
        }
        let n = w * h;
        self.map.tiles.clear();
        self.iterations = 0;
        let mut k: usize = 0;
        while k < n
            invariant
                k <= n,
                self.map@.width == w,
                self.map@.height == h,
                n == w * h,
                self.map@.tiles.len() == k,
                self.iterations == 0,
                1 <= w <= 4096,
                1 <= h <= 4096,
            decreases n - k,
        {
            let coin = self.rng.next_below(2);
            if coin == 0 {
                self.map.tiles.push(TileType::Floor);
            } else {
                self.map.tiles.push(TileType::Wall);
            }
            k = k + 1;
        }
    }

    /// 1 when the cell holds a wall, 0 when it holds a floor or lies off the
    /// grid.
    pub fn has_neighbor(&self, x: usize, y: usize) -> (n: i32)
        requires
            self.wf(),
        ensures
            n == wall_indicator(self.map@, x as int, y as int),
    {
        match self.map.get(x, y) {
            Some(t) => if t == TileType::Wall {
                1
            } else {
                0
            },
            None => 0,
        }
    }

    /// Counts the wall tiles among the 8 Moore neighbors, omitting neighbors
    /// that fall off the grid.
    pub fn count_neighbors(&self, x: usize, y: usize) -> (n: i32)
        requires
            self.wf(),
            x < self.map@.width,
            y < self.map@.height,
        ensures
            n == neighbor_walls(self.map@, x as int, y as int),
    {
        let w = self.map.width;
        let h = self.map.height;
        let mut n: i32 = 0;
        if x > 0 && y > 0 {
            n = n + self.has_neighbor(x - 1, y - 1);
        }
        if x > 0 {
            n = n + self.has_neighbor(x - 1, y);
        }
        if x > 0 && y < h - 1 {
            n = n + self.has_neighbor(x - 1, y + 1);
        }
        if x < w - 1 {
            n = n + self.has_neighbor(x + 1, y);
        }
        if y < h - 1 {
            n = n + self.has_neighbor(x, y + 1);
        }
        if y > 0 {
            n = n + self.has_neighbor(x, y - 1);
        }
        if x < w - 1 && y > 0 {
            n = n + self.has_neighbor(x + 1, y - 1);
        }
        if x < w - 1 && y < h - 1 {
            n = n + self.has_neighbor(x + 1, y + 1);
        }
        n
    }

    /// One smoothing pass: recomputes every cell from a read-only snapshot of
    /// the previous grid and swaps the result in, then counts the pass. A
    /// no-op once the cap is reached.
    pub fn iterate(&mut self)
        requires
            old(self).wf(),
        ensures
            final(self).wf(),
            final(self).map@.same_dims(old(self).map@),
            old(self).iterations < CELLULAR_MAX_ITERATIONS ==> final(self).map@ == smoothed(
                old(self).map@,
            ) && final(self).iterations == old(self).iterations + 1,
            old(self).iterations >= CELLULAR_MAX_ITERATIONS ==> *final(self) == *old(self),
    {
        if self.iterations >= CELLULAR_MAX_ITERATIONS {
            return ;
        }
        let ghost v0 = self.map@;
        let w = self.map.width;
        let h = self.map.height;
        let mut new_tiles: Vec<TileType> = Vec::new();
        let mut y: usize = 0;
        while y < h
            invariant
                self.map@ == v0,
                self.wf(),
                w == v0.width,
                h == v0.height,
                y <= h,
                new_tiles@.len() == y * w,
                forall|i: int| 0 <= i < new_tiles@.len()
                    ==> new_tiles@[i] == smoothed(v0).tiles[i],
            decreases h - y,
        {
            let mut x: usize = 0;
            while x < w
                invariant
                    self.map@ == v0,
                    self.wf(),
                    w == v0.width,
                    h == v0.height,
                    y < h,
                    x <= w,
                    new_tiles@.len() == y * w + x,
                    forall|i: int| 0 <= i < new_tiles@.len()
                        ==> new_tiles@[i] == smoothed(v0).tiles[i],
                decreases w - x,
            {
                let n = self.count_neighbors(x, y);
                if n > 4 {
                    new_tiles.push(TileType::Wall);
                } else {
                    new_tiles.push(TileType::Floor);
                }
                proof {
                    let i = y * w + x;
                    crate::grid::lemma_idx_bound(x as int, y as int, w as int, h as int);
                    lemma_fundamental_div_mod_converse(i as int, w as int, y as int, x as int);
                    assert(new_tiles@[i as int] == smoothed(v0).tiles[i as int]);
                }
                x = x + 1;
            }
            proof {
                assert((y + 1) * w == y * w + w) by (nonlinear_arith);
            }
            y = y + 1;
        }
        proof {
            assert((y * w) as int == (w * h) as int) by (nonlinear_arith)
                requires
                    y == h,
            ;
        }
        self.map.tiles = new_tiles;
        self.iterations = self.iterations + 1;
        proof {
            assert(self.map@ =~= smoothed(v0));
        }
    }

    pub fn update_map_data(&self, map_data: &mut Vec<(&'static str, String)>)
        ensures
            final(map_data)@.len() == self.stats().len(),
            forall|i: int| 0 <= i < self.stats().len()
                ==> (#[trigger] final(map_data)@[i]).0@ == self.stats()[i].0
                    && final(map_data)@[i].1@ == self.stats()[i].1,
    {
        map_data.clear();
        map_data.push(("Name", "Cellular Automata".to_owned()));
        map_data.push(("Max Iterations", u64_to_string(CELLULAR_MAX_ITERATIONS as u64)));
        map_data.push(("Iteration", u64_to_string(self.iterations as u64)));
    }
}

impl<R: RandomSource> MapBuilder for CellularAutomataBuilder<R> {
    open spec fn wf(&self) -> bool {
        &&& self.map@.wf()
        &&& 1 <= self.map@.width <= 4096
        &&& 1 <= self.map@.height <= 4096
    }

    open spec fn grid(&self) -> GridView {
        self.map@
    }

    open spec fn stats(&self) -> Seq<(Seq<char>, Seq<char>)> {
        seq![
            ("Name"@, "Cellular Automata"@),
            ("Max Iterations"@, spec_decimal(CELLULAR_MAX_ITERATIONS as nat)),
            ("Iteration"@, spec_decimal(self.iterations as nat)),
        ]
    }

    open spec fn notes_spec(&self) -> Seq<char> {
        ""@
    }

    proof fn grid_area_invariant(&self) {
    }

    fn build(&mut self)
        ensures
            final(self).iterations == 0,
    {
        self.scramble();
    }

    fn iterate(&mut self)
        ensures
            old(self).iterations < CELLULAR_MAX_ITERATIONS ==> final(self).map@ == smoothed(
                old(self).map@,
            ) && final(self).iterations == old(self).iterations + 1,
            old(self).iterations >= CELLULAR_MAX_ITERATIONS ==> *final(self) == *old(self),
    {
        self.iterate();
    }

    fn get_map(&self) -> Grid {
        self.map.duplicate()
    }

    fn update_map_data(&self, map_data: &mut Vec<(&'static str, String)>) {
        self.update_map_data(map_data)
    }

    fn notes(&self) -> &str {
        ""
    }
}

} // verus!
