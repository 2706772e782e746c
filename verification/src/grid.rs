//! The tile grid: a fixed `width x height` board of wall/floor cells stored
//! row-major, with bounds-checked accessors and a text projection.

use vstd::prelude::*;

verus! {

/// One cell of the grid: solid wall or open floor.
#[derive(Clone, Copy, PartialEq, Eq, Structural, Debug)]
pub enum TileType {
    Wall,
    Floor,
}

/// Mathematical model of a grid: its dimensions and the row-major tile
/// sequence. `wf()` is the area invariant that every operation preserves.
#[verifier::ext_equal]
pub struct GridView {
    pub width: nat,
    pub height: nat,
    pub tiles: Seq<TileType>,
}

impl GridView {
    /// The grid always holds exactly `width * height` tiles.
    pub open spec fn wf(self) -> bool {
        self.tiles.len() == self.width * self.height
    }

    pub open spec fn in_bounds(self, x: int, y: int) -> bool {
        0 <= x < self.width && 0 <= y < self.height
    }

    /// Row-major position of cell `(x, y)`.
    pub open spec fn idx(self, x: int, y: int) -> int {
        y * self.width + x
    }

    /// The tile at cell `(x, y)`.
    pub open spec fn at(self, x: int, y: int) -> TileType {
        self.tiles[self.idx(x, y)]
    }

    pub open spec fn same_dims(self, other: GridView) -> bool {
        self.width == other.width && self.height == other.height
    }
}

/// A cell inside the bounds of a well-formed grid has a row-major position
/// inside the tile sequence.
pub proof fn lemma_idx_bound(x: int, y: int, w: int, h: int)
    requires
        0 <= x < w,
        0 <= y < h,
    ensures
        0 <= y * w + x < w * h,
{
    assert(y * w + x < w * h) by (nonlinear_arith)
        requires
            0 <= x < w,
            0 <= y < h,
    ;
}

/// Distinct in-bounds cells have distinct row-major positions.
pub proof fn lemma_idx_injective(x1: int, y1: int, x2: int, y2: int, w: int)
    requires
        0 <= x1 < w,
        0 <= x2 < w,
        0 <= y1,
        0 <= y2,
        x1 != x2 || y1 != y2,
    ensures
        y1 * w + x1 != y2 * w + x2,
{
    assert(y1 * w + x1 != y2 * w + x2) by (nonlinear_arith)
        requires
            0 <= x1 < w,
            0 <= x2 < w,
            0 <= y1,
            0 <= y2,
            x1 != x2 || y1 != y2,
    ;
}

/// How many tiles of `s` equal `t`.
pub open spec fn count_tiles(s: Seq<TileType>, t: TileType) -> nat
    decreases s.len(),
{
    if s.len() == 0 {
        0
    } else {
        count_tiles(s.drop_last(), t) + if s.last() == t {
            1nat
        } else {
            0nat
        }
    }
}

/// A count of matching tiles never exceeds the number of tiles.
pub proof fn lemma_count_le_len(s: Seq<TileType>, t: TileType)
    ensures
        count_tiles(s, t) <= s.len(),
    decreases s.len(),
{
    if s.len() > 0 {
        lemma_count_le_len(s.drop_last(), t);
    }
}

/// Overwriting one cell with `t` raises the count of `t` by one, or leaves
/// it unchanged when the cell already held `t`.
pub proof fn lemma_count_update(s: Seq<TileType>, i: int, t: TileType)
    requires
        0 <= i < s.len(),
    ensures
        count_tiles(s.update(i, t), t) == count_tiles(s, t) + if s[i] == t {
            0int
        } else {
            1int
        },
    decreases s.len(),
{
    let u = s.update(i, t);
    if i == s.len() - 1 {
        assert(u.drop_last() =~= s.drop_last());
    } else {
        assert(u.drop_last() =~= s.drop_last().update(i, t));
        lemma_count_update(s.drop_last(), i, t);
    }
}

/// Carving never removes floor: a cell-by-cell change that keeps every floor
/// tile a floor tile can only increase the floor count.
pub proof fn lemma_floor_count_monotone(a: Seq<TileType>, b: Seq<TileType>)
    requires
        a.len() == b.len(),
        forall|i: int| 0 <= i < a.len() && a[i] == TileType::Floor ==> b[i] == TileType::Floor,
    ensures
        count_tiles(a, TileType::Floor) <= count_tiles(b, TileType::Floor),
    decreases a.len(),
{
    if a.len() > 0 {
        assert(forall|i: int|
            0 <= i < a.drop_last().len() && a.drop_last()[i] == TileType::Floor
                ==> b.drop_last()[i] == TileType::Floor);
        lemma_floor_count_monotone(a.drop_last(), b.drop_last());
    }
}

/// A cell-by-cell change that never turns a floor tile back into a wall:
/// what the carving algorithms promise of every step.
pub open spec fn floor_preserved(a: GridView, b: GridView) -> bool {
    forall|i: int| 0 <= i < a.tiles.len() && a.tiles[i] == TileType::Floor
        ==> #[trigger] b.tiles[i] == TileType::Floor
}

/// The five cells of the plus-shaped seed the carving algorithms start from:
/// the grid's center and its four cardinal neighbors.
pub open spec fn seed_cross_cell(v: GridView, x: int, y: int) -> bool {
    let cx = v.width as int / 2;
    let cy = v.height as int / 2;
    (x == cx && cy - 1 <= y <= cy + 1) || (y == cy && cx - 1 <= x <= cx + 1)
}

/// The first of the two characters a tile is drawn with.
pub open spec fn tile_first_char(t: TileType) -> char {
    if t == TileType::Wall {
        '■'
    } else {
        ' '
    }
}

/// Where the two characters of cell `(x, y)` stand in the text projection.
pub open spec fn cell_pos(v: GridView, x: int, y: int) -> int {
    y * (2 * v.width + 1) + 2 * x
}

/// Where row `y`'s terminating newline stands in the text projection.
pub open spec fn newline_pos(v: GridView, y: int) -> int {
    y * (2 * v.width + 1) + 2 * v.width
}

/// Characters of earlier cells stand strictly before the cell `(x, y)`.
pub proof fn lemma_cell_pos_order(v: GridView, i: int, j: int, x: int, y: int)
    requires
        0 <= i < v.width,
        0 <= j,
        j < y || (j == y && i < x),
        0 <= x <= v.width,
    ensures
        0 <= cell_pos(v, i, j),
        cell_pos(v, i, j) + 2 <= cell_pos(v, x, y),
{
    assert(0 <= cell_pos(v, i, j) && cell_pos(v, i, j) + 2 <= cell_pos(v, x, y))
        by (nonlinear_arith)
        requires
            0 <= i < v.width,
            0 <= j,
            j < y || (j == y && i < x),
            0 <= x <= v.width,
    ;
}

/// Earlier newlines stand strictly before the cell `(x, y)`.
pub proof fn lemma_newline_pos_order(v: GridView, j: int, x: int, y: int)
    requires
        0 <= j < y,
        0 <= x,
    ensures
        0 <= newline_pos(v, j),
        newline_pos(v, j) < cell_pos(v, x, y),
{
    assert(0 <= newline_pos(v, j) && newline_pos(v, j) < cell_pos(v, x, y))
        by (nonlinear_arith)
        requires
            0 <= j < y,
            0 <= x,
    ;
}

/// The grid itself: plain storage with bounds-checked access, no algorithm.
pub struct Grid {
    pub width: usize,
    pub height: usize,
    pub tiles: Vec<TileType>,
}

impl View for Grid {
    type V = GridView;

    open spec fn view(&self) -> GridView {
        GridView {
            width: self.width as nat,
            height: self.height as nat,
            tiles: self.tiles@,
        }
    }
}

impl Grid {
    /// A fresh grid with every cell a wall.
    pub fn new(width: usize, height: usize) -> (g: Grid)
        requires
            width * height <= usize::MAX,
        ensures
            g@.wf(),
            g@.width == width,
            g@.height == height,
            forall|i: int| 0 <= i < g@.tiles.len() ==> g@.tiles[i] == TileType::Wall,
    {
        let n = width * height;
        let mut tiles: Vec<TileType> = Vec::new();
        let mut k: usize = 0;
        while k < n
            invariant
                k <= n,
                tiles@.len() == k,
                forall|i: int| 0 <= i < k ==> tiles@[i] == TileType::Wall,
            decreases n - k,
        {
            tiles.push(TileType::Wall);
            k = k + 1;
        }
        Grid { width, height, tiles }
    }

    /// Row-major position of an in-bounds cell.
    pub fn xy_idx(&self, x: i32, y: i32) -> (idx: usize)
        requires
            self@.wf(),
            0 <= x < self@.width,
            0 <= y < self@.height,
        ensures
            idx == self@.idx(x as int, y as int),
            idx < self@.tiles.len(),
    {
        let n = self.tiles.len();
        proof {
            lemma_idx_bound(x as int, y as int, self@.width as int, self@.height as int);
        }
        (y as usize) * self.width + (x as usize)
    }

    /// The tile at `(x, y)`, or `None` when the cell is out of bounds.
    pub fn get(&self, x: usize, y: usize) -> (t: Option<TileType>)
        requires
            self@.wf(),
        ensures
            t matches Some(tile) ==> self@.in_bounds(x as int, y as int)
                && tile == self@.at(x as int, y as int),
            t is None <==> !self@.in_bounds(x as int, y as int),
    {
        if x < self.width && y < self.height {
            let n = self.tiles.len();
            proof {
                lemma_idx_bound(x as int, y as int, self@.width as int, self@.height as int);
            }
            Some(self.tiles[y * self.width + x])
        } else {
            None
        }
    }

    /// Overwrites the tile at `(x, y)` in place. Returns whether the cell was
    /// in bounds; an out-of-bounds write is reported, never applied.
    pub fn set(&mut self, new_tile: TileType, x: usize, y: usize) -> (ok: bool)
        requires
            old(self)@.wf(),
        ensures
            final(self)@.wf(),
            final(self)@.same_dims(old(self)@),
            ok <==> old(self)@.in_bounds(x as int, y as int),
            ok ==> final(self)@.tiles
                == old(self)@.tiles.update(old(self)@.idx(x as int, y as int), new_tile),
            !ok ==> final(self)@ == old(self)@,
    {
        if x < self.width && y < self.height {
            let n = self.tiles.len();
            proof {
                lemma_idx_bound(x as int, y as int, self@.width as int, self@.height as int);
            }
            self.tiles.set(y * self.width + x, new_tile);
            true
        } else {
            false
        }
    }

    /// An independent copy: the snapshot a builder hands out.
    pub fn duplicate(&self) -> (g: Grid)
        ensures
            g@ == self@,
    {
        let mut tiles: Vec<TileType> = Vec::new();
        let mut k: usize = 0;
        let len = self.tiles.len();
        while k < len
            invariant
                k <= len,
                len == self.tiles@.len(),
                tiles@ == self.tiles@.take(k as int),
            decreases len - k,
        {
            tiles.push(self.tiles[k]);
            proof {
                assert(self.tiles@.take(k as int).push(self.tiles@[k as int])
                    =~= self.tiles@.take(k + 1 as int));
            }
            k = k + 1;
        }
        proof {
            assert(self.tiles@.take(len as int) =~= self.tiles@);
        }
        Grid { width: self.width, height: self.height, tiles }
    }

    /// How many cells hold the given tile.
    pub fn count(&self, t: TileType) -> (n: usize)
        ensures
            n == count_tiles(self@.tiles, t),
    {
        let mut n: usize = 0;
        let mut k: usize = 0;
        let len = self.tiles.len();
        while k < len
            invariant
                k <= len,
                len == self.tiles@.len(),
                n == count_tiles(self.tiles@.take(k as int), t),
                n <= k,
            decreases len - k,
        {
            proof {
                assert(self.tiles@.take(k + 1 as int).drop_last() =~= self.tiles@.take(k as int));
            }
            if self.tiles[k] == t {
                n = n + 1;
            }
            k = k + 1;
        }
        proof {
            assert(self.tiles@.take(len as int) =~= self.tiles@);
        }
        n
    }

    /// The text projection: each cell as two characters, each row closed by a
    /// newline. The contract pins every character of the result.
    pub fn to_text(&self) -> (s: String)
        requires
            self@.wf(),
        ensures
            s@.len() == self@.height * (2 * self@.width + 1),
            forall|x: int, y: int| self@.in_bounds(x, y)
                ==> s@[#[trigger] cell_pos(self@, x, y)] == tile_first_char(self@.at(x, y))
                    && s@[cell_pos(self@, x, y) + 1] == ' ',
            forall|y: int| 0 <= y < self@.height ==> s@[#[trigger] newline_pos(self@, y)] == '\n',
    {
        let ghost v = self@;
        let mut s = String::new();
        let mut y: usize = 0;
        while y < self.height
            invariant
                self@ == v,
                self@.wf(),
                y <= v.height,
                s@.len() == cell_pos(v, 0, y as int),
                forall|i: int, j: int| v.in_bounds(i, j) && j < y
                    ==> s@[#[trigger] cell_pos(v, i, j)] == tile_first_char(v.at(i, j))
                        && s@[cell_pos(v, i, j) + 1] == ' ',
                forall|j: int| 0 <= j < y ==> s@[#[trigger] newline_pos(v, j)] == '\n',
            decreases v.height - y,
        {
            let mut x: usize = 0;
            while x < self.width
                invariant
                    self@ == v,
                    self@.wf(),
                    y < v.height,
                    x <= v.width,
                    s@.len() == cell_pos(v, x as int, y as int),
                    forall|i: int, j: int| v.in_bounds(i, j) && (j < y || (j == y && i < x))
                        ==> s@[#[trigger] cell_pos(v, i, j)] == tile_first_char(v.at(i, j))
                            && s@[cell_pos(v, i, j) + 1] == ' ',
                    forall|j: int| 0 <= j < y ==> s@[#[trigger] newline_pos(v, j)] == '\n',
                decreases v.width - x,
            {
                let n = self.tiles.len();
                proof {
                    lemma_idx_bound(x as int, y as int, v.width as int, v.height as int);
                }
                let tile = self.tiles[y * self.width + x];
                let pair: &'static str = if tile == TileType::Wall {
                    "■ "
                } else {
                    "  "
                };
                proof {
                    reveal_strlit("■ ");
                    reveal_strlit("  ");
                    assert(pair@.len() == 2 && pair@[0] == tile_first_char(v.at(x as int, y as int))
                        && pair@[1] == ' ');
                }
                let ghost pre = s@;
                s.append(pair);
                proof {
                    assert forall|i: int, j: int|
                        v.in_bounds(i, j) && (j < y || (j == y && i < x + 1))
                            implies s@[#[trigger] cell_pos(v, i, j)] == tile_first_char(v.at(i, j))
                                && s@[cell_pos(v, i, j) + 1] == ' ' by {
                        if j < y || (j == y && i < x) {
                            lemma_cell_pos_order(v, i, j, x as int, y as int);
                            assert(s@[cell_pos(v, i, j)] == pre[cell_pos(v, i, j)]);
                            assert(s@[cell_pos(v, i, j) + 1] == pre[cell_pos(v, i, j) + 1]);
                        } else {
                            assert(cell_pos(v, i, j) == pre.len());
                        }
                    }
                    assert forall|j: int| 0 <= j < y
                        implies s@[#[trigger] newline_pos(v, j)] == '\n' by {
                        lemma_newline_pos_order(v, j, x as int, y as int);
                    }
                }
                x = x + 1;
            }
            let ghost pre = s@;
            s.append("\n");
            proof {
                reveal_strlit("\n");
                assert("\n"@.len() == 1 && "\n"@[0] == '\n');
                assert(cell_pos(v, v.width as int, y as int) == newline_pos(v, y as int));
                assert(cell_pos(v, 0, y + 1) == newline_pos(v, y as int) + 1) by (nonlinear_arith);
                assert forall|i: int, j: int| v.in_bounds(i, j) && j < y + 1
                    implies s@[#[trigger] cell_pos(v, i, j)] == tile_first_char(v.at(i, j))
                        && s@[cell_pos(v, i, j) + 1] == ' ' by {
                    lemma_cell_pos_order(v, i, j, v.width as int, y as int);
                    assert(s@[cell_pos(v, i, j)] == pre[cell_pos(v, i, j)]);
                    assert(s@[cell_pos(v, i, j) + 1] == pre[cell_pos(v, i, j) + 1]);
                }
                assert forall|j: int| 0 <= j < y + 1
                    implies s@[#[trigger] newline_pos(v, j)] == '\n' by {
                    if j < y {
                        lemma_newline_pos_order(v, j, v.width as int, y as int);
                    } else {
                        assert(newline_pos(v, j) == pre.len());
                    }
                }
            }
            y = y + 1;
        }
        proof {
            assert(s@.len() == v.height * (2 * v.width + 1)) by (nonlinear_arith)
                requires
                    s@.len() == cell_pos(v, 0, v.height as int),
            ;
        }
        s
    }
}

} // verus!
