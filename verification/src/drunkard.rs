//! The drunkard's-walk carver: `build` seeds a plus-shaped patch of floor at
//! the grid's center, and each `iterate` starts a bounded random walk on
//! existing floor and converts every wall it stumbles onto.

use vstd::prelude::*;

use crate::builder::MapBuilder;
use crate::grid::{
    count_tiles, floor_preserved, lemma_count_le_len, lemma_count_update, lemma_idx_injective,
    seed_cross_cell, Grid, GridView, TileType,
};
use crate::rng::{rand_range, RandomSource};
use crate::text::{spec_decimal, u64_to_string};

verus! {

/// Walking stops after this many `iterate` calls.
pub const DRUNKARD_MAX_ITERATIONS: u32 = 24;

/// How often the walk start is redrawn before the iteration gives up
/// instead of spinning forever on a grid with no floor in the start region.
pub const DRUNKARD_SEED_ATTEMPTS: u32 = 1000;

/// The width of the border the walk start is kept away from: 10 tiles where
/// the grid allows it, and narrower on small grids so the start region
/// always contains the center seed.
pub open spec fn drunkard_inset(w: int, h: int) -> int {
    let m = if w < h {
        w
    } else {
        h
    };
    let half = m / 2 - 1;
    if half > 10 {
        10
    } else {
        half
    }
}

pub struct DrunkardBuilder<R: RandomSource> {
    pub map: Grid,
    pub iterations: u32,
    pub max_steps: u32,
    pub rng: R,
}

impl<R: RandomSource> DrunkardBuilder<R> {
    pub fn new(width: usize, height: usize, rng: R) -> (b: Self)
        requires
            3 <= width <= 4096,
            3 <= height <= 4096,
        ensures
            b.wf(),
            b.map@.width == width,
            b.map@.height == height,
            b.iterations == 0,
            b.max_steps == 100,
    {
        proof {
            assert(width * height <= usize::MAX) by (nonlinear_arith)
                requires
                    width <= 4096,
                    height <= 4096,
            ;
        }
        DrunkardBuilder { map: Grid::new(width, height), iterations: 0, max_steps: 100, rng }
    }

    /// Back to an all-wall grid with the iteration counter reset.
    pub fn clear(&mut self)
        requires
            old(self).wf(),
        ensures
            final(self).wf(),
            final(self).map@.same_dims(old(self).map@),
            final(self).iterations == 0,
            final(self).max_steps == old(self).max_steps,
            forall|i: int| 0 <= i < final(self).map@.tiles.len()
                ==> final(self).map@.tiles[i] == TileType::Wall,
    {
        let w = self.map.width;
        let h = self.map.height;
        proof {
            assert(w * h <= usize::MAX) by (nonlinear_arith)
                requires
                    w <= 4096,
                    h <= 4096,
            ;
        }
        self.iterations = 0;
        self.map = Grid::new(w, h);
    }

    /// Carves the plus-shaped floor seed at the grid's center; every other
    /// cell keeps its tile.
    pub fn seed(&mut self)
        requires
            old(self).wf(),
        ensures
            final(self).wf(),
            final(self).map@.same_dims(old(self).map@),
            final(self).iterations == old(self).iterations,
            final(self).max_steps == old(self).max_steps,
            forall|x: int, y: int| old(self).map@.in_bounds(x, y)
                ==> #[trigger] final(self).map@.at(x, y) == if seed_cross_cell(
                    old(self).map@,
                    x,
                    y,
                ) {
                    TileType::Floor
                } else {
                    old(self).map@.at(x, y)
                },
    {
        let ghost v0 = self.map@;
        let x = self.map.width / 2;
        let y = self.map.height / 2;
        let _ = self.map.set(TileType::Floor, x, y - 1);
        let _ = self.map.set(TileType::Floor, x - 1, y);
        let _ = self.map.set(TileType::Floor, x, y);
        let _ = self.map.set(TileType::Floor, x + 1, y);
        let _ = self.map.set(TileType::Floor, x, y + 1);
        proof {
            let w = v0.width as int;
            let h = v0.height as int;
            let cx = x as int;
            let cy = y as int;
            let vf = self.map@;
            assert forall|i: int, j: int| v0.in_bounds(i, j)
                implies #[trigger] vf.at(i, j) == if seed_cross_cell(v0, i, j) {
                    TileType::Floor
                } else {
                    v0.at(i, j)
                } by {
                crate::grid::lemma_idx_bound(i, j, w, h);
                crate::grid::lemma_idx_bound(cx, cy - 1, w, h);
                crate::grid::lemma_idx_bound(cx - 1, cy, w, h);
                crate::grid::lemma_idx_bound(cx, cy, w, h);
                crate::grid::lemma_idx_bound(cx + 1, cy, w, h);
                crate::grid::lemma_idx_bound(cx, cy + 1, w, h);
                if !seed_cross_cell(v0, i, j) {
                    lemma_idx_injective(i, j, cx, cy - 1, w);
                    lemma_idx_injective(i, j, cx - 1, cy, w);
                    lemma_idx_injective(i, j, cx, cy, w);
                    lemma_idx_injective(i, j, cx + 1, cy, w);
                    lemma_idx_injective(i, j, cx, cy + 1, w);
                }
            }
        }
    }

    /// One walk: a start cell that already holds floor is drawn from the
    /// inset start region (giving up after a bounded number of draws), then
    /// up to `max_steps` unit steps in random cardinal directions convert
    /// each wall they land on to floor, stopping early at the boundary ring.
    /// Carving never removes floor, so the floor count never decreases.
    /// Returns false when no start was found or the iteration cap was hit;
    /// the grid is then unchanged.
    pub fn iterate(&mut self) -> (placed: bool)
        requires
            old(self).wf(),
        ensures
            final(self).wf(),
            final(self).map@.same_dims(old(self).map@),
            final(self).max_steps == old(self).max_steps,
            floor_preserved(old(self).map@, final(self).map@),
            old(self).iterations < DRUNKARD_MAX_ITERATIONS ==> final(self).iterations == old(
                self,
            ).iterations + 1,
            old(self).iterations >= DRUNKARD_MAX_ITERATIONS ==> *final(self) == *old(self),
            !placed ==> final(self).map@ == old(self).map@,
            count_tiles(final(self).map@.tiles, TileType::Floor) <= count_tiles(
                old(self).map@.tiles,
                TileType::Floor,
            ) + old(self).max_steps,
            placed ==> exists|x: int, y: int|
                {
                    let ins = drunkard_inset(
                        old(self).map@.width as int,
                        old(self).map@.height as int,
                    );
                    &&& ins <= x < old(self).map@.width - ins
                    &&& ins <= y < old(self).map@.height - ins
                    &&& #[trigger] old(self).map@.at(x, y) == TileType::Floor
                },
    {
        if self.iterations >= DRUNKARD_MAX_ITERATIONS {
            return false;
        }
        self.iterations = self.iterations + 1;
        let ghost pre = self.map@;
        let w = self.map.width;
        let h = self.map.height;
        let m = if w < h {
            w
        } else {
            h
        };
        let half = m / 2 - 1;
        let inset = if half > 10 {
            10
        } else {
            half
        };
        proof {
            assert(inset == drunkard_inset(pre.width as int, pre.height as int));
        }
        let ghost its = self.iterations;
        let ghost steps_cap = self.max_steps;
        let mut sx: usize = 0;
        let mut sy: usize = 0;
        let mut found = false;
        let mut tries: u32 = 0;
        while tries < DRUNKARD_SEED_ATTEMPTS && !found
            invariant
                self.map@ == pre,
                self.wf(),
                self.iterations == its,
                self.max_steps == steps_cap,
                w == pre.width,
                h == pre.height,
                inset < w - inset,
                inset < h - inset,
                inset == drunkard_inset(pre.width as int, pre.height as int),
                found ==> inset <= sx < w - inset && inset <= sy < h - inset && pre.at(
                    sx as int,
                    sy as int,
                ) == TileType::Floor,
            decreases DRUNKARD_SEED_ATTEMPTS - tries, 1int - if found {
                1int
            } else {
                0int
            },
        {
            let x = rand_range(&mut self.rng, inset, w - inset);
            let y = rand_range(&mut self.rng, inset, h - inset);
            match self.map.get(x, y) {
                Some(t) => {
                    if t == TileType::Floor {
                        sx = x;
                        sy = y;
                        found = true;
                    }
                },
                None => {},
            }
            tries = tries + 1;
        }
        if !found {
            return false;
        }
        proof {
            assert(pre.at(sx as int, sy as int) == TileType::Floor);
        }

        let mut x = sx;
        let mut y = sy;
        let mut step: u32 = 0;
        let max_steps = self.max_steps;
        while step < max_steps
            invariant
                self.wf(),
                self.iterations == its,
                self.max_steps == steps_cap,
                self.map@.same_dims(pre),
                w == pre.width,
                h == pre.height,
                x < w,
                y < h,
                step <= max_steps,
                self.map@.tiles.len() == pre.tiles.len(),
                floor_preserved(pre, self.map@),
                count_tiles(self.map@.tiles, TileType::Floor) <= count_tiles(
                    pre.tiles,
                    TileType::Floor,
                ) + step,
            decreases max_steps - step,
        {
            if x == 0 || y == 0 || x == w - 1 || y == h - 1 {
                break ;
            }
            let dir = self.rng.next_below(4);
            if dir == 0 {
                y = y - 1;
            } else if dir == 1 {
                y = y + 1;
            } else if dir == 2 {
                x = x - 1;
            } else {
                x = x + 1;
            }
            let ghost mid = self.map@;
            match self.map.get(x, y) {
                Some(t) => {
                    if t == TileType::Wall {
                        let _ = self.map.set(TileType::Floor, x, y);
                        proof {
                            crate::grid::lemma_idx_bound(x as int, y as int, w as int, h as int);
                            lemma_count_update(
                                mid.tiles,
                                mid.idx(x as int, y as int),
                                TileType::Floor,
                            );
                        }
                    }
                },
                None => {},
            }
            proof {
                let cur = self.map@;
                crate::grid::lemma_idx_bound(x as int, y as int, w as int, h as int);
                assert forall|i: int|
                    0 <= i < pre.tiles.len() && pre.tiles[i] == TileType::Floor
                        implies #[trigger] cur.tiles[i] == TileType::Floor by {
                    assert(mid.tiles[i] == TileType::Floor);
                }
            }
            step = step + 1;
        }
        true
    }

    /// How many cells still hold a wall.
    pub fn num_walls(&self) -> (n: usize)
        ensures
            n == count_tiles(self.map@.tiles, TileType::Wall),
    {
        self.map.count(TileType::Wall)
    }

    /// Fills the sink with the builder's statistics. The occupancy entry is
    /// rendered as a whole-number percentage (`walls * 100 / area`, rounded
    /// down), the library holding no floating point.
    pub fn update_map_data(&self, map_data: &mut Vec<(&'static str, String)>)
        requires
            self.wf(),
        ensures
            final(map_data)@.len() == self.stats().len(),
            forall|i: int| 0 <= i < self.stats().len()
                ==> (#[trigger] final(map_data)@[i]).0@ == self.stats()[i].0
                    && final(map_data)@[i].1@ == self.stats()[i].1,
    {
        let w = self.map.width;
        let h = self.map.height;
        proof {
            assert(9 <= w * h <= 16777216) by (nonlinear_arith)
                requires
                    3 <= w <= 4096,
                    3 <= h <= 4096,
            ;
            lemma_count_le_len(self.map@.tiles, TileType::Wall);
        }
        let total = w * h;
        let num_walls = self.num_walls();
        proof {
            assert(total == self.map@.tiles.len());
        }
        map_data.clear();
        map_data.push(("Name", "Drunkard's Walk".to_owned()));
        map_data.push(("Max Iterations", u64_to_string(DRUNKARD_MAX_ITERATIONS as u64)));
        map_data.push(("Steps Per Iteration", u64_to_string(self.max_steps as u64)));
        map_data.push(("Iteration", u64_to_string(self.iterations as u64)));
        map_data.push(("Total Number of Walls", u64_to_string(num_walls as u64)));
        map_data.push(("Total Empty Space", u64_to_string((total - num_walls) as u64)));
        map_data.push(("% Occupied", u64_to_string((num_walls as u64) * 100 / (total as u64))));
    }
}

impl<R: RandomSource> MapBuilder for DrunkardBuilder<R> {
    open spec fn wf(&self) -> bool {
        &&& self.map@.wf()
        &&& 3 <= self.map@.width <= 4096
        &&& 3 <= self.map@.height <= 4096
    }

    open spec fn grid(&self) -> GridView {
        self.map@
    }

    open spec fn stats(&self) -> Seq<(Seq<char>, Seq<char>)> {
        let area = self.map@.tiles.len();
        let walls = count_tiles(self.map@.tiles, TileType::Wall);
        seq![
            ("Name"@, "Drunkard's Walk"@),
            ("Max Iterations"@, spec_decimal(DRUNKARD_MAX_ITERATIONS as nat)),
            ("Steps Per Iteration"@, spec_decimal(self.max_steps as nat)),
            ("Iteration"@, spec_decimal(self.iterations as nat)),
            ("Total Number of Walls"@, spec_decimal(walls)),
            ("Total Empty Space"@, spec_decimal((area - walls) as nat)),
            ("% Occupied"@, spec_decimal(walls * 100 / area)),
        ]
    }

    open spec fn notes_spec(&self) -> Seq<char> {
        ""@
    }

    proof fn grid_area_invariant(&self) {
    }

    fn build(&mut self)
        ensures
            final(self).iterations == 0,
            final(self).max_steps == old(self).max_steps,
            forall|x: int, y: int| final(self).map@.in_bounds(x, y)
                ==> #[trigger] final(self).map@.at(x, y) == if seed_cross_cell(
                    final(self).map@,
                    x,
                    y,
                ) {
                    TileType::Floor
                } else {
                    TileType::Wall
                },
    {
        self.clear();
        let ghost mid = self.map@;
        self.seed();
        proof {
            let vf = self.map@;
            assert forall|x: int, y: int| vf.in_bounds(x, y)
                implies #[trigger] vf.at(x, y) == if seed_cross_cell(vf, x, y) {
                    TileType::Floor
                } else {
                    TileType::Wall
                } by {
                crate::grid::lemma_idx_bound(x, y, mid.width as int, mid.height as int);
                assert(mid.at(x, y) == TileType::Wall);
            }
        }
    }

    fn iterate(&mut self)
        ensures
            floor_preserved(old(self).map@, final(self).map@),
            final(self).max_steps == old(self).max_steps,
            old(self).iterations < DRUNKARD_MAX_ITERATIONS ==> final(self).iterations == old(
                self,
            ).iterations + 1,
            old(self).iterations >= DRUNKARD_MAX_ITERATIONS ==> *final(self) == *old(self),
            count_tiles(final(self).map@.tiles, TileType::Floor) <= count_tiles(
                old(self).map@.tiles,
                TileType::Floor,
            ) + old(self).max_steps,
    {
        let _placed = self.iterate();
    }

    fn get_map(&self) -> Grid {
        self.map.duplicate()
    }

    fn update_map_data(&self, map_data: &mut Vec<(&'static str, String)>) {
        self.update_map_data(map_data)
    }

    fn notes(&self) -> &str {
        ""
    }
}

} // verus!
