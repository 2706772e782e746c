//! Diffusion-limited aggregation: `build` seeds the center cross, and each
//! `iterate` launches random walkers from the map's edge ring that stick to
//! the growing floor aggregate on first contact.

use vstd::prelude::*;

use crate::builder::MapBuilder;
use crate::grid::{
    count_tiles, floor_preserved, lemma_count_le_len, lemma_count_update, seed_cross_cell, Grid,
    GridView, TileType,
};
use crate::rng::{rand_range, RandomSource};
use crate::text::{spec_decimal, u64_to_string};

verus! {

/// Aggregation stops after this many `iterate` calls.
pub const DLA_MAX_ITERATIONS: u32 = 16;

/// How many floor tiles one `iterate` tries to add.
pub const DLA_DESIRED_TILES: u32 = 20;

/// How many walker launches one `iterate` spends before giving up instead
/// of spinning forever on a grid with no suitable edge seed.
pub const DLA_SEED_ATTEMPTS: u32 = 2000;

/// How many steps one walker may take before its attempt is abandoned.
pub const DLA_STEP_BUDGET: u32 = 2000;

/// Where a walker may stick: strictly inside the outer boundary ring, with
/// a cardinally adjacent floor cell — the aggregate it stuck to.
pub open spec fn stuck_cell(v: GridView, x: int, y: int) -> bool {
    &&& 1 <= x <= v.width - 2
    &&& 1 <= y <= v.height - 2
    &&& (v.at(x - 1, y) == TileType::Floor || v.at(x + 1, y) == TileType::Floor || v.at(
        x,
        y - 1,
    ) == TileType::Floor || v.at(x, y + 1) == TileType::Floor)
}

/// Every cell the pass converted from wall to floor is a sticking cell of
/// the resulting grid: the aggregate only grows by adjacent accretion.
pub open spec fn sticks_marked(a: GridView, b: GridView) -> bool {
    forall|x: int, y: int| a.in_bounds(x, y) && a.at(x, y) == TileType::Wall && b.at(x, y)
        == TileType::Floor ==> #[trigger] stuck_cell(b, x, y)
}

pub struct DiffusionLimitedAggregationBuilder<R: RandomSource> {
    pub map: Grid,
    pub iterations: u32,
    pub rng: R,
}

impl<R: RandomSource> DiffusionLimitedAggregationBuilder<R> {
    pub fn new(width: usize, height: usize, rng: R) -> (b: Self)
        requires
            3 <= width <= 4096,
            3 <= height <= 4096,
        ensures
            b.wf(),
            b.map@.width == width,
            b.map@.height == height,
            b.iterations == 0,
    {
        proof {
            assert(width * height <= usize::MAX) by (nonlinear_arith)
                requires
                    width <= 4096,
                    height <= 4096,
            ;
        }
        DiffusionLimitedAggregationBuilder { map: Grid::new(width, height), iterations: 0, rng }
    }

    /// Back to an all-wall grid with the iteration counter reset.
    pub fn clear(&mut self)
        requires
            old(self).wf(),
        ensures
            final(self).wf(),
            final(self).map@.same_dims(old(self).map@),
            final(self).iterations == 0,
            forall|i: int| 0 <= i < final(self).map@.tiles.len()
                ==> final(self).map@.tiles[i] == TileType::Wall,
    {
        let w = self.map.width;
        let h = self.map.height;
        proof {
            assert(w * h <= usize::MAX) by (nonlinear_arith)
                requires
                    w <= 4096,
                    h <= 4096,
            ;
        }
        self.iterations = 0;
        self.map = Grid::new(w, h);
    }

    /// Carves the plus-shaped floor seed at the grid's center; every other
    /// cell keeps its tile.
    pub fn seed(&mut self)
        requires
            old(self).wf(),
        ensures
            final(self).wf(),
            final(self).map@.same_dims(old(self).map@),
            final(self).iterations == old(self).iterations,
            forall|x: int, y: int| old(self).map@.in_bounds(x, y)
                ==> #[trigger] final(self).map@.at(x, y) == if seed_cross_cell(
                    old(self).map@,
                    x,
                    y,
                ) {
                    TileType::Floor
                } else {
                    old(self).map@.at(x, y)
                },
    {
        let ghost v0 = self.map@;
        let x = self.map.width / 2;
        let y = self.map.height / 2;
        let _ = self.map.set(TileType::Floor, x, y - 1);
        let _ = self.map.set(TileType::Floor, x - 1, y);
        let _ = self.map.set(TileType::Floor, x, y);
        let _ = self.map.set(TileType::Floor, x + 1, y);
        let _ = self.map.set(TileType::Floor, x, y + 1);
        proof {
            let w = v0.width as int;
            let h = v0.height as int;
            let cx = x as int;
            let cy = y as int;
            let vf = self.map@;
            assert forall|i: int, j: int| v0.in_bounds(i, j)
                implies #[trigger] vf.at(i, j) == if seed_cross_cell(v0, i, j) {
                    TileType::Floor
                } else {
                    v0.at(i, j)
                } by {
                crate::grid::lemma_idx_bound(i, j, w, h);
                crate::grid::lemma_idx_bound(cx, cy - 1, w, h);
                crate::grid::lemma_idx_bound(cx - 1, cy, w, h);
                crate::grid::lemma_idx_bound(cx, cy, w, h);
                crate::grid::lemma_idx_bound(cx + 1, cy, w, h);
                crate::grid::lemma_idx_bound(cx, cy + 1, w, h);
                if !seed_cross_cell(v0, i, j) {
                    crate::grid::lemma_idx_injective(i, j, cx, cy - 1, w);
                    crate::grid::lemma_idx_injective(i, j, cx - 1, cy, w);
                    crate::grid::lemma_idx_injective(i, j, cx, cy, w);
                    crate::grid::lemma_idx_injective(i, j, cx + 1, cy, w);
                    crate::grid::lemma_idx_injective(i, j, cx, cy + 1, w);
                }
            }
        }
    }

    /// Adds up to `desired_tiles` floor tiles: walkers start on wall cells of
    /// the edge ring and drift one cardinal step at a time; a walker that
    /// leaves the interior is abandoned, and one that steps onto floor turns
    /// its previous cell into floor. Every launch and every walk is bounded,
    /// so a grid without a suitable seed ends the call instead of hanging it;
    /// the return value says how many tiles were actually added. A stick
    /// converts exactly one wall, so the call grows the floor count by
    /// exactly the returned number and never removes floor.
    pub fn iterate(&mut self, desired_tiles: u32) -> (added: u32)
        requires
            old(self).wf(),
        ensures
            final(self).wf(),
            final(self).map@.same_dims(old(self).map@),
            final(self).iterations == old(self).iterations,
            floor_preserved(old(self).map@, final(self).map@),
            added <= desired_tiles,
            count_tiles(final(self).map@.tiles, TileType::Floor) == count_tiles(
                old(self).map@.tiles,
                TileType::Floor,
            ) + added,
            sticks_marked(old(self).map@, final(self).map@),
    {
        let ghost pre = self.map@;
        let ghost its = self.iterations;
        let w = self.map.width;
        let h = self.map.height;
        let mut added: u32 = 0;
        let mut attempts: u32 = 0;
        while added < desired_tiles && attempts < DLA_SEED_ATTEMPTS
            invariant
                self.wf(),
                self.iterations == its,
                self.map@.same_dims(pre),
                self.map@.tiles.len() == pre.tiles.len(),
                w == pre.width,
                h == pre.height,
                3 <= w,
                3 <= h,
                floor_preserved(pre, self.map@),
                added <= desired_tiles,
                count_tiles(self.map@.tiles, TileType::Floor) == count_tiles(
                    pre.tiles,
                    TileType::Floor,
                ) + added,
                sticks_marked(pre, self.map@),
            decreases DLA_SEED_ATTEMPTS - attempts,
        {
            attempts = attempts + 1;
            let x0 = rand_range(&mut self.rng, 0, w);
            let y0 = rand_range(&mut self.rng, 0, h);
            let is_wall = match self.map.get(x0, y0) {
                Some(t) => t == TileType::Wall,
                None => false,
            };
            if is_wall && (x0 == 1 || y0 == 1 || x0 == w - 2 || y0 == h - 2) {
                let mut x = x0;
                let mut y = y0;
                let mut steps: u32 = 0;
                while steps < DLA_STEP_BUDGET
                    invariant_except_break
                        added < desired_tiles,
                        self.map@.at(x as int, y as int) == TileType::Wall,
                    invariant
                        self.wf(),
                        self.iterations == its,
                        self.map@.same_dims(pre),
                        self.map@.tiles.len() == pre.tiles.len(),
                        w == pre.width,
                        h == pre.height,
                        floor_preserved(pre, self.map@),
                        x < w,
                        y < h,
                        count_tiles(self.map@.tiles, TileType::Floor) == count_tiles(
                            pre.tiles,
                            TileType::Floor,
                        ) + added,
                        sticks_marked(pre, self.map@),
                    ensures
                        added <= desired_tiles,
                        count_tiles(self.map@.tiles, TileType::Floor) == count_tiles(
                            pre.tiles,
                            TileType::Floor,
                        ) + added,
                        sticks_marked(pre, self.map@),
                    decreases DLA_STEP_BUDGET - steps,
                {
                    steps = steps + 1;
                    if x == 0 || y == 0 || x == w - 1 || y == h - 1 {
                        break ;
                    }
                    let last_x = x;
                    let last_y = y;
                    let dir = self.rng.next_below(4);
                    if dir == 0 {
                        y = y - 1;
                    } else if dir == 1 {
                        y = y + 1;
                    } else if dir == 2 {
                        x = x - 1;
                    } else {
                        x = x + 1;
                    }
                    let hit_floor = match self.map.get(x, y) {
                        Some(t) => t == TileType::Floor,
                        None => false,
                    };
                    if hit_floor {
                        let ghost mid = self.map@;
                        let _ = self.map.set(TileType::Floor, last_x, last_y);
                        added = added + 1;
                        proof {
                            let cur = self.map@;
                            crate::grid::lemma_idx_bound(
                                last_x as int,
                                last_y as int,
                                w as int,
                                h as int,
                            );
                            lemma_count_update(
                                mid.tiles,
                                mid.idx(last_x as int, last_y as int),
                                TileType::Floor,
                            );
                            assert(mid.tiles[mid.idx(last_x as int, last_y as int)]
                                == TileType::Wall);
                            assert forall|i: int|
                                0 <= i < pre.tiles.len() && pre.tiles[i] == TileType::Floor
                                    implies #[trigger] cur.tiles[i] == TileType::Floor by {
                                assert(mid.tiles[i] == TileType::Floor);
                            }
                            let lx = last_x as int;
                            let ly = last_y as int;
                            let wi = w as int;
                            let hi = h as int;
                            crate::grid::lemma_idx_bound(x as int, y as int, wi, hi);
                            crate::grid::lemma_idx_injective(x as int, y as int, lx, ly, wi);
                            assert(cur.at(x as int, y as int) == TileType::Floor);
                            assert forall|i: int, j: int|
                                pre.in_bounds(i, j) && pre.at(i, j) == TileType::Wall && cur.at(
                                    i,
                                    j,
                                ) == TileType::Floor implies #[trigger] stuck_cell(cur, i, j) by {
                                crate::grid::lemma_idx_bound(i, j, wi, hi);
                                if i == lx && j == ly {
                                    assert(stuck_cell(cur, i, j));
                                } else {
                                    crate::grid::lemma_idx_injective(i, j, lx, ly, wi);
                                    assert(mid.at(i, j) == TileType::Floor);
                                    assert(stuck_cell(mid, i, j));
                                    crate::grid::lemma_idx_bound(i - 1, j, wi, hi);
                                    crate::grid::lemma_idx_bound(i + 1, j, wi, hi);
                                    crate::grid::lemma_idx_bound(i, j - 1, wi, hi);
                                    crate::grid::lemma_idx_bound(i, j + 1, wi, hi);
                                    assert(stuck_cell(cur, i, j));
                                }
                            }
                        }
                        break ;
                    }
                }
            }
        }
        added
    }

    /// How many cells still hold a wall.
    pub fn num_walls(&self) -> (n: usize)
        ensures
            n == count_tiles(self.map@.tiles, TileType::Wall),
    {
        self.map.count(TileType::Wall)
    }

    /// Fills the sink with the builder's statistics. The occupancy entry is
    /// rendered as a whole-number percentage (`walls * 100 / area`, rounded
    /// down), the library holding no floating point.
    pub fn update_map_data(&self, map_data: &mut Vec<(&'static str, String)>)
        requires
            self.wf(),
        ensures
            final(map_data)@.len() == self.stats().len(),
            forall|i: int| 0 <= i < self.stats().len()
                ==> (#[trigger] final(map_data)@[i]).0@ == self.stats()[i].0
                    && final(map_data)@[i].1@ == self.stats()[i].1,
    {
        let w = self.map.width;
        let h = self.map.height;
        proof {
            assert(9 <= w * h <= 16777216) by (nonlinear_arith)
                requires
                    3 <= w <= 4096,
                    3 <= h <= 4096,
            ;
            lemma_count_le_len(self.map@.tiles, TileType::Wall);
        }
        let total = w * h;
        let num_walls = self.num_walls();
        proof {
            assert(total == self.map@.tiles.len());
        }
        map_data.clear();
        map_data.push(("Name", "Diffusion-Limited Aggregation".to_owned()));
        map_data.push(("Max Iterations", u64_to_string(DLA_MAX_ITERATIONS as u64)));
        map_data.push(("Iteration", u64_to_string(self.iterations as u64)));
        map_data.push(("Total Number of Walls", u64_to_string(num_walls as u64)));
        map_data.push(("Total Empty Space", u64_to_string((total - num_walls) as u64)));
        map_data.push(("% Occupied", u64_to_string((num_walls as u64) * 100 / (total as u64))));
    }
}

impl<R: RandomSource> MapBuilder for DiffusionLimitedAggregationBuilder<R> {
    open spec fn wf(&self) -> bool {
        &&& self.map@.wf()
        &&& 3 <= self.map@.width <= 4096
        &&& 3 <= self.map@.height <= 4096
    }

    open spec fn grid(&self) -> GridView {
        self.map@
    }

    open spec fn stats(&self) -> Seq<(Seq<char>, Seq<char>)> {
        let area = self.map@.tiles.len();
        let walls = count_tiles(self.map@.tiles, TileType::Wall);
        seq![
            ("Name"@, "Diffusion-Limited Aggregation"@),
            ("Max Iterations"@, spec_decimal(DLA_MAX_ITERATIONS as nat)),
            ("Iteration"@, spec_decimal(self.iterations as nat)),
            ("Total Number of Walls"@, spec_decimal(walls)),
            ("Total Empty Space"@, spec_decimal((area - walls) as nat)),
            ("% Occupied"@, spec_decimal(walls * 100 / area)),
        ]
    }

    open spec fn notes_spec(&self) -> Seq<char> {
        "The intense generation time is mostly spent finding a suitable point on the bounding edge of the map, not its unique aggregation. This specific application is more so focused on 'beauty' rather than 'performance'."@
    }

    proof fn grid_area_invariant(&self) {
    }

    fn build(&mut self)
        ensures
            final(self).iterations == 0,
            forall|x: int, y: int| final(self).map@.in_bounds(x, y)
                ==> #[trigger] final(self).map@.at(x, y) == if seed_cross_cell(
                    final(self).map@,
                    x,
                    y,
                ) {
                    TileType::Floor
                } else {
                    TileType::Wall
                },
    {
        self.clear();
        let ghost mid = self.map@;
        self.seed();
        proof {
            let vf = self.map@;
            assert forall|x: int, y: int| vf.in_bounds(x, y)
                implies #[trigger] vf.at(x, y) == if seed_cross_cell(vf, x, y) {
                    TileType::Floor
                } else {
                    TileType::Wall
                } by {
                crate::grid::lemma_idx_bound(x, y, mid.width as int, mid.height as int);
                assert(mid.at(x, y) == TileType::Wall);
            }
        }
    }

    fn iterate(&mut self)
        ensures
            floor_preserved(old(self).map@, final(self).map@),
            sticks_marked(old(self).map@, final(self).map@),
            old(self).iterations >= DLA_MAX_ITERATIONS ==> *final(self) == *old(self),
            old(self).iterations < DLA_MAX_ITERATIONS ==> final(self).iterations == old(
                self,
            ).iterations + 1 && count_tiles(old(self).map@.tiles, TileType::Floor) <= count_tiles(
                final(self).map@.tiles,
                TileType::Floor,
            ) <= count_tiles(old(self).map@.tiles, TileType::Floor) + DLA_DESIRED_TILES,
    {
        if self.iterations < DLA_MAX_ITERATIONS {
            let _added = self.iterate(DLA_DESIRED_TILES);
            self.iterations = self.iterations + 1;
        }
    }

    fn get_map(&self) -> Grid {
        self.map.duplicate()
    }

    fn update_map_data(&self, map_data: &mut Vec<(&'static str, String)>) {
        self.update_map_data(map_data)
    }

    fn notes(&self) -> &str {
        "The intense generation time is mostly spent finding a suitable point on the bounding edge of the map, not its unique aggregation. This specific application is more so focused on 'beauty' rather than 'performance'."
    }
}

} // verus!
