//! The binary-space-partition dungeon: `build` quarters candidate
//! rectangles from a work-list, stamps non-overlapping rooms where a
//! 2-tile-margin feasibility check passes, sorts the rooms by their left
//! edge, and joins each adjacent pair with an L-shaped corridor.

use vstd::prelude::*;

use crate::builder::MapBuilder;
use crate::grid::{floor_preserved, Grid, GridView, TileType};
use crate::rect::Rect;
use crate::rng::{rand_range, rand_range_i32, RandomSource};
use crate::text::{spec_decimal, u64_to_string};

verus! {

/// How many candidate draws one `build` spends placing rooms.
pub const BSP_ROOM_ATTEMPTS: u32 = 240;

/// A cell the feasibility check accepts: strictly inside the outer border
/// and still a wall.
pub open spec fn cell_ok(v: GridView, x: int, y: int) -> bool {
    1 <= x <= v.width - 2 && 1 <= y <= v.height - 2 && v.at(x, y) == TileType::Wall
}

/// The candidate rectangle expanded by the 2-tile margin.
pub open spec fn in_expanded(r: Rect, x: int, y: int) -> bool {
    r.x1 - 2 <= x <= r.x2 + 2 && r.y1 - 2 <= y <= r.y2 + 2
}

/// What a passing feasibility check means: every cell of the expanded
/// candidate is in bounds and still a wall.
pub open spec fn region_clear(v: GridView, r: Rect) -> bool {
    forall|x: int, y: int| in_expanded(r, x, y) ==> #[trigger] cell_ok(v, x, y)
}

/// What the feasibility scan has established after reaching cell
/// `(xx, yy)` of the expanded candidate, sweeping row by row.
pub open spec fn box_prefix_ok(v: GridView, r: Rect, yy: int, xx: int) -> bool {
    forall|x: int, y: int| in_expanded(r, x, y) && (y < yy || (y == yy && x < xx))
        ==> #[trigger] cell_ok(v, x, y)
}

/// The cells a placed room stamps with floor.
pub open spec fn in_room_interior(r: Rect, x: int, y: int) -> bool {
    r.x1 + 1 <= x <= r.x2 && r.y1 + 1 <= y <= r.y2
}

/// Every stamped cell of the room holds floor.
pub open spec fn interior_floor(v: GridView, r: Rect) -> bool {
    forall|x: int, y: int| in_room_interior(r, x, y) ==> #[trigger] v.at(x, y)
        == TileType::Floor
}

/// A placed room's geometry: its expanded margin fits strictly inside the
/// border, and its extent is the one the candidate draw allows.
pub open spec fn room_in_grid(r: Rect, v: GridView) -> bool {
    &&& 3 <= r.x1
    &&& r.x1 + 4 <= r.x2
    &&& r.x2 - r.x1 <= 9
    &&& r.x2 <= v.width - 4
    &&& 3 <= r.y1
    &&& r.y1 + 4 <= r.y2
    &&& r.y2 - r.y1 <= 9
    &&& r.y2 <= v.height - 4
}

/// Half of an extent, never less than one cell.
pub open spec fn half_extent(d: int) -> int {
    if d / 2 > 1 {
        d / 2
    } else {
        1
    }
}

/// A work-list rectangle stays inside the grid's box.
pub open spec fn rect_in_box(r: Rect, v: GridView) -> bool {
    &&& 0 <= r.x1 <= r.x2 <= v.width
    &&& 0 <= r.y1 <= r.y2 <= v.height
}

/// Two placed rooms leave at least two wall cells between their stamped
/// interiors, in x or in y: the trace the 2-tile feasibility margin leaves.
pub open spec fn rooms_separated_pair(a: Rect, b: Rect) -> bool {
    a.x2 + 2 <= b.x1 || b.x2 + 2 <= a.x1 || a.y2 + 2 <= b.y1 || b.y2 + 2 <= a.y1
}

/// Pairwise separation of the whole room list. It implies in particular
/// that no two placed rooms overlap.
pub open spec fn rooms_separated(rooms: Seq<Rect>) -> bool {
    forall|i: int, j: int| 0 <= i < rooms.len() && 0 <= j < rooms.len() && i != j
        ==> #[trigger] rooms_separated_pair(rooms[i], rooms[j])
}

/// The room list is ordered by left edge, the order corridors are drawn in.
pub open spec fn sorted_by_x1(s: Seq<Rect>) -> bool {
    forall|i: int, j: int| 0 <= i < j < s.len() ==> #[trigger] s[i].x1 <= #[trigger] s[j].x1
}

/// The step the corridor walk takes from `(x, y)` toward `(x2, y2)`: the
/// vertical segment first, at the start's column, then the horizontal
/// segment along the resulting row, one cell at a time.
pub open spec fn corridor_next(x: int, y: int, x2: int, y2: int) -> (int, int) {
    if y < y2 {
        (x, y + 1)
    } else if y > y2 {
        (x, y - 1)
    } else if x < x2 {
        (x + 1, y)
    } else {
        (x - 1, y)
    }
}

/// The L-shaped corridor as the sequence of cells the walk visits, start
/// and end included.
pub open spec fn corridor_path(x1: int, y1: int, x2: int, y2: int) -> Seq<(int, int)>
    decreases vstd::math::abs(x1 - x2) + vstd::math::abs(y1 - y2),
{
    if x1 == x2 && y1 == y2 {
        seq![(x1, y1)]
    } else {
        seq![(x1, y1)] + corridor_path(
            corridor_next(x1, y1, x2, y2).0,
            corridor_next(x1, y1, x2, y2).1,
            x2,
            y2,
        )
    }
}

/// Two cells a single cardinal step apart.
pub open spec fn step_adjacent(a: (int, int), b: (int, int)) -> bool {
    vstd::math::abs(a.0 - b.0) + vstd::math::abs(a.1 - b.1) == 1
}

/// The corridor runs from its start to its end in unit cardinal steps: it
/// is 4-connected, with no diagonal jump.
pub proof fn lemma_corridor_path_connected(x1: int, y1: int, x2: int, y2: int)
    ensures
        corridor_path(x1, y1, x2, y2).len() >= 1,
        corridor_path(x1, y1, x2, y2)[0] == (x1, y1),
        corridor_path(x1, y1, x2, y2).last() == (x2, y2),
        forall|k: int| 0 <= k < corridor_path(x1, y1, x2, y2).len() - 1 ==> step_adjacent(
            #[trigger] corridor_path(x1, y1, x2, y2)[k],
            corridor_path(x1, y1, x2, y2)[k + 1],
        ),
    decreases vstd::math::abs(x1 - x2) + vstd::math::abs(y1 - y2),
{
    let p = corridor_path(x1, y1, x2, y2);
    if !(x1 == x2 && y1 == y2) {
        let n = corridor_next(x1, y1, x2, y2);
        let sub = corridor_path(n.0, n.1, x2, y2);
        lemma_corridor_path_connected(n.0, n.1, x2, y2);
        assert(p == seq![(x1, y1)] + sub);
        assert forall|k: int| 0 <= k < p.len() - 1 implies step_adjacent(
            #[trigger] p[k],
            p[k + 1],
        ) by {
            if k == 0 {
                assert(p[0] == (x1, y1) && p[1] == sub[0]);
            } else {
                assert(p[k] == sub[k - 1] && p[k + 1] == sub[k]);
                assert(step_adjacent(sub[k - 1], sub[k]));
            }
        }
    }
}

/// An L-shaped corridor recorded between two rooms: its endpoints lie
/// inside the rooms' rectangles, and every carved cell of its path is
/// floor on the grid.
pub open spec fn corridor_link(v: GridView, a: Rect, b: Rect, e: (int, int, int, int)) -> bool {
    &&& a.x1 <= e.0 <= a.x2 - 2
    &&& a.y1 <= e.1 <= a.y2 - 2
    &&& b.x1 <= e.2 <= b.x2 - 2
    &&& b.y1 <= e.3 <= b.y2 - 2
    &&& forall|k: int| 1 <= k < corridor_path(e.0, e.1, e.2, e.3).len() ==> v.in_bounds(
        (#[trigger] corridor_path(e.0, e.1, e.2, e.3)[k]).0,
        corridor_path(e.0, e.1, e.2, e.3)[k].1,
    ) && v.at(
        corridor_path(e.0, e.1, e.2, e.3)[k].0,
        corridor_path(e.0, e.1, e.2, e.3)[k].1,
    ) == TileType::Floor
}

/// Every adjacent pair of the x-sorted room list is joined by a carved
/// L-corridor whose tiles are all floor; `corridor_path` being a chain of
/// unit cardinal steps, the link is 4-connected.
pub open spec fn corridors_connected(
    v: GridView,
    rooms: Seq<Rect>,
    ends: Seq<(int, int, int, int)>,
) -> bool {
    &&& ends.len() + 1 == rooms.len()
    &&& forall|i: int| 0 <= i < ends.len() ==> corridor_link(
        v,
        rooms[i],
        rooms[i + 1],
        #[trigger] ends[i],
    )
}

/// Every floor tile is accounted for: it lies in some placed room's
/// stamped interior, or on the carved part of some recorded corridor.
/// Nothing else is ever carved.
pub open spec fn floor_covered(
    v: GridView,
    rooms: Seq<Rect>,
    ends: Seq<(int, int, int, int)>,
) -> bool {
    forall|x: int, y: int| v.in_bounds(x, y) && #[trigger] v.at(x, y) == TileType::Floor ==> {
        ||| exists|i: int| 0 <= i < rooms.len() && in_room_interior(#[trigger] rooms[i], x, y)
        ||| exists|i: int| 0 <= i < ends.len() && corridor_path(
            (#[trigger] ends[i]).0,
            ends[i].1,
            ends[i].2,
            ends[i].3,
        ).drop_first().contains((x, y))
    }
}

/// The corridor never leaves the bounding box of its two endpoints.
pub proof fn lemma_corridor_path_in_box(x1: int, y1: int, x2: int, y2: int)
    ensures
        forall|k: int| 0 <= k < corridor_path(x1, y1, x2, y2).len() ==> {
            let p = #[trigger] corridor_path(x1, y1, x2, y2)[k];
            &&& (x1 <= p.0 <= x2 || x2 <= p.0 <= x1)
            &&& (y1 <= p.1 <= y2 || y2 <= p.1 <= y1)
        },
    decreases vstd::math::abs(x1 - x2) + vstd::math::abs(y1 - y2),
{
    let p = corridor_path(x1, y1, x2, y2);
    if !(x1 == x2 && y1 == y2) {
        let n = corridor_next(x1, y1, x2, y2);
        let sub = corridor_path(n.0, n.1, x2, y2);
        lemma_corridor_path_in_box(n.0, n.1, x2, y2);
        assert(p == seq![(x1, y1)] + sub);
        assert forall|k: int| 0 <= k < p.len() implies {
            let q = #[trigger] p[k];
            &&& (x1 <= q.0 <= x2 || x2 <= q.0 <= x1)
            &&& (y1 <= q.1 <= y2 || y2 <= q.1 <= y1)
        } by {
            if k > 0 {
                assert(p[k] == sub[k - 1]);
                assert((n.0 <= sub[k - 1].0 <= x2 || x2 <= sub[k - 1].0 <= n.0) && (n.1 <= sub[k
                    - 1].1 <= y2 || y2 <= sub[k - 1].1 <= n.1));
            }
        }
    }
}

/// Separated rooms never intersect, even counting shared edges.
pub proof fn lemma_separated_rooms_disjoint(a: Rect, b: Rect)
    requires
        rooms_separated_pair(a, b),
    ensures
        !a.spec_intersect(b),
{
}

/// Whether the room occurs somewhere in the list.
pub open spec fn appears_in(r: Rect, s: Seq<Rect>) -> bool {
    exists|j: int| 0 <= j < s.len() && s[j] == r
}

/// Swapping two rooms in the list keeps every per-room and pairwise
/// property: the list is merely reordered.
proof fn lemma_room_props_swap(v: GridView, s: Seq<Rect>, t: Seq<Rect>, p: int, q: int)
    requires
        0 <= p < s.len(),
        0 <= q < s.len(),
        t == s.update(p, s[q]).update(q, s[p]),
        forall|i: int| 0 <= i < s.len() ==> room_in_grid(#[trigger] s[i], v),
        forall|i: int| 0 <= i < s.len() ==> interior_floor(v, #[trigger] s[i]),
        rooms_separated(s),
    ensures
        t.len() == s.len(),
        forall|i: int| 0 <= i < t.len() ==> room_in_grid(#[trigger] t[i], v),
        forall|i: int| 0 <= i < t.len() ==> interior_floor(v, #[trigger] t[i]),
        rooms_separated(t),
        forall|i: int| 0 <= i < s.len() ==> #[trigger] appears_in(s[i], t),
{
    assert forall|i: int| 0 <= i < s.len() implies #[trigger] appears_in(s[i], t) by {
        if i == p {
            assert(t[q] == s[p]);
        } else if i == q {
            assert(t[p] == s[q]);
        } else {
            assert(t[i] == s[i]);
        }
    }
    assert forall|i: int| 0 <= i < t.len() implies room_in_grid(#[trigger] t[i], v)
        && interior_floor(v, t[i]) by {
        if i == q {
            assert(room_in_grid(s[p], v) && interior_floor(v, s[p]));
        } else if i == p {
            assert(room_in_grid(s[q], v) && interior_floor(v, s[q]));
        } else {
            assert(room_in_grid(s[i], v) && interior_floor(v, s[i]));
        }
    }
    assert forall|i: int, j: int| 0 <= i < t.len() && 0 <= j < t.len() && i != j
        implies #[trigger] rooms_separated_pair(t[i], t[j]) by {
        let si = if i == q {
            p
        } else if i == p {
            q
        } else {
            i
        };
        let sj = if j == q {
            p
        } else if j == p {
            q
        } else {
            j
        };
        if si != sj {
            assert(rooms_separated_pair(s[si], s[sj]));
        } else {
            assert(rooms_separated_pair(s[p], s[q]));
        }
    }
}

/// Carving more floor keeps every placed room's interior floor.
proof fn lemma_rooms_keep_floor(v0: GridView, vf: GridView, rooms: Seq<Rect>)
    requires
        v0.wf(),
        vf.same_dims(v0),
        vf.tiles.len() == v0.tiles.len(),
        floor_preserved(v0, vf),
        forall|i: int| 0 <= i < rooms.len() ==> room_in_grid(#[trigger] rooms[i], v0),
        forall|i: int| 0 <= i < rooms.len() ==> interior_floor(v0, #[trigger] rooms[i]),
    ensures
        forall|i: int| 0 <= i < rooms.len() ==> interior_floor(vf, #[trigger] rooms[i]),
{
    assert forall|i: int| 0 <= i < rooms.len() implies interior_floor(
        vf,
        #[trigger] rooms[i],
    ) by {
        assert forall|x: int, y: int| in_room_interior(rooms[i], x, y)
            implies #[trigger] vf.at(x, y) == TileType::Floor by {
            assert(v0.at(x, y) == TileType::Floor);
            crate::grid::lemma_idx_bound(x, y, v0.width as int, v0.height as int);
            assert(vf.tiles[v0.idx(x, y)] == TileType::Floor);
        }
    }
}

pub struct BSPDungeonBuilder<R: RandomSource> {
    pub map: Grid,
    pub rooms: Vec<Rect>,
    pub rects: Vec<Rect>,
    pub rng: R,
}

impl<R: RandomSource> BSPDungeonBuilder<R> {
    pub fn new(width: usize, height: usize, rng: R) -> (b: Self)
        requires
            8 <= width <= 4096,
            8 <= height <= 4096,
        ensures
            b.wf(),
            b.map@.width == width,
            b.map@.height == height,
            b.rooms@.len() == 0,
            b.rects@.len() == 0,
    {
        proof {
            assert(width * height <= usize::MAX) by (nonlinear_arith)
                requires
                    width <= 4096,
                    height <= 4096,
            ;
        }
        BSPDungeonBuilder {
            map: Grid::new(width, height),
            rooms: Vec::new(),
            rects: Vec::new(),
            rng,
        }
    }

    /// Discards rooms, work-list and grid.
    pub fn clear(&mut self)
        requires
            old(self).wf(),
        ensures
            final(self).wf(),
            final(self).map@.same_dims(old(self).map@),
            final(self).rooms@.len() == 0,
            final(self).rects@.len() == 0,
            forall|i: int| 0 <= i < final(self).map@.tiles.len()
                ==> final(self).map@.tiles[i] == TileType::Wall,
    {
        let w = self.map.width;
        let h = self.map.height;
        proof {
            assert(w * h <= usize::MAX) by (nonlinear_arith)
                requires
                    w <= 4096,
                    h <= 4096,
            ;
        }
        self.map = Grid::new(w, h);
        self.rooms = Vec::new();
        self.rects = Vec::new();
    }

    /// Quarters the rectangle and pushes the four halves onto the work-list.
    fn add_subrects(&mut self, rect: Rect)
        requires
            old(self).wf(),
            rect_in_box(rect, old(self).map@),
            rect.x2 - rect.x1 >= 2,
            rect.y2 - rect.y1 >= 2,
        ensures
            final(self).wf(),
            final(self).map == old(self).map,
            final(self).rooms@ == old(self).rooms@,
            final(self).rects@.len() == old(self).rects@.len() + 4,
            forall|i: int| 0 <= i < old(self).rects@.len()
                ==> final(self).rects@[i] == old(self).rects@[i],
            ({
                let hw = half_extent(rect.x2 - rect.x1);
                let hh = half_extent(rect.y2 - rect.y1);
                let n = old(self).rects@.len() as int;
                let q0 = final(self).rects@[n];
                let q1 = final(self).rects@[n + 1];
                let q2 = final(self).rects@[n + 2];
                let q3 = final(self).rects@[n + 3];
                &&& q0.x1 == rect.x1 && q0.y1 == rect.y1 && q0.x2 == rect.x1 + hw && q0.y2
                    == rect.y1 + hh
                &&& q1.x1 == rect.x1 && q1.y1 == rect.y1 + hh && q1.x2 == rect.x1 + hw && q1.y2
                    == rect.y1 + hh + hh
                &&& q2.x1 == rect.x1 + hw && q2.y1 == rect.y1 && q2.x2 == rect.x1 + hw + hw
                    && q2.y2 == rect.y1 + hh
                &&& q3.x1 == rect.x1 + hw && q3.y1 == rect.y1 + hh && q3.x2 == rect.x1 + hw + hw
                    && q3.y2 == rect.y1 + hh + hh
            }),
    {
        let width = rect.x2 - rect.x1;
        let height = rect.y2 - rect.y1;
        let half_width = if width / 2 > 1 {
            width / 2
        } else {
            1
        };
        let half_height = if height / 2 > 1 {
            height / 2
        } else {
            1
        };
        self.rects.push(Rect::new(rect.x1, rect.y1, half_width, half_height));
        self.rects.push(Rect::new(rect.x1, rect.y1 + half_height, half_width, half_height));
        self.rects.push(Rect::new(rect.x1 + half_width, rect.y1, half_width, half_height));
        self.rects.push(
            Rect::new(rect.x1 + half_width, rect.y1 + half_height, half_width, half_height),
        );
    }

    /// One rectangle drawn from the work-list.
    fn get_random_rect(&mut self) -> (r: Rect)
        requires
            old(self).wf(),
            old(self).rects@.len() >= 1,
        ensures
            final(self).wf(),
            final(self).map == old(self).map,
            final(self).rooms@ == old(self).rooms@,
            final(self).rects@ == old(self).rects@,
            exists|i: int| 0 <= i < old(self).rects@.len() && r == old(self).rects@[i],
    {
        if self.rects.len() == 1 {
            return self.rects[0];
        }
        let idx = rand_range(&mut self.rng, 0, self.rects.len() - 1);
        self.rects[idx]
    }

    /// A random smaller rectangle inside the drawn one, or nothing when the
    /// rectangle is too small to subdivide and the candidate is discarded.
    fn get_random_sub_rect(&mut self, rect: Rect) -> (res: Option<Rect>)
        requires
            old(self).wf(),
            rect_in_box(rect, old(self).map@),
        ensures
            final(self).wf(),
            final(self).map == old(self).map,
            final(self).rooms@ == old(self).rooms@,
            final(self).rects@ == old(self).rects@,
            res matches Some(c) ==> {
                &&& rect.x2 - rect.x1 >= 2
                &&& rect.y2 - rect.y1 >= 2
                &&& rect.x1 <= c.x1 <= rect.x1 + 4
                &&& rect.y1 <= c.y1 <= rect.y1 + 4
                &&& 4 <= c.x2 - c.x1 <= 9
                &&& 4 <= c.y2 - c.y1 <= 9
            },
            res is None <==> (rect.x2 - rect.x1 < 2 || rect.y2 - rect.y1 < 2),
    {
        let rect_width = rect.x2 - rect.x1;
        let rect_height = rect.y2 - rect.y1;
        if rect_width < 2 || rect_height < 2 {
            return None;
        }
        let wcap = if rect_width < 10 {
            rect_width
        } else {
            10
        };
        let hcap = if rect_height < 10 {
            rect_height
        } else {
            10
        };
        let wd = rand_range_i32(&mut self.rng, 1, wcap) - 1;
        let w = (if wd < 3 {
            3
        } else {
            wd
        }) + 1;
        let hd = rand_range_i32(&mut self.rng, 1, hcap) - 1;
        let h = (if hd < 3 {
            3
        } else {
            hd
        }) + 1;
        let dx = rand_range_i32(&mut self.rng, 1, 6) - 1;
        let dy = rand_range_i32(&mut self.rng, 1, 6) - 1;
        let nx1 = rect.x1 + dx;
        let ny1 = rect.y1 + dy;
        Some(Rect { x1: nx1, y1: ny1, x2: nx1 + w, y2: ny1 + h })
    }

    /// Whether the candidate, expanded by the 2-tile margin, lies strictly
    /// inside the border and covers nothing but walls. Exactly then may the
    /// room be stamped.
    fn is_possible(&self, rect: Rect) -> (possible: bool)
        requires
            self.wf(),
            -10 <= rect.x1 <= rect.x2,
            rect.x2 <= self.map@.width + 20,
            -10 <= rect.y1 <= rect.y2,
            rect.y2 <= self.map@.height + 20,
        ensures
            possible == region_clear(self.map@, rect),
    {
        let ghost v = self.map@;
        let w = self.map.width;
        let h = self.map.height;
        let mut can_build = true;
        let mut yy: i32 = rect.y1 - 2;
        while yy <= rect.y2 + 2
            invariant
                self.wf(),
                v == self.map@,
                w == v.width,
                h == v.height,
                -10 <= rect.x1 <= rect.x2,
                rect.x2 <= v.width + 20,
                -10 <= rect.y1 <= rect.y2,
                rect.y2 <= v.height + 20,
                rect.y1 - 2 <= yy <= rect.y2 + 3,
                can_build == box_prefix_ok(v, rect, yy as int, rect.x1 - 2),
            decreases rect.y2 + 3 - yy,
        {
            let mut xx: i32 = rect.x1 - 2;
            while xx <= rect.x2 + 2
                invariant
                    self.wf(),
                    v == self.map@,
                    w == v.width,
                    h == v.height,
                    -10 <= rect.x1 <= rect.x2,
                    rect.x2 <= v.width + 20,
                    -10 <= rect.y1 <= rect.y2,
                    rect.y2 <= v.height + 20,
                    rect.y1 - 2 <= yy <= rect.y2 + 2,
                    rect.x1 - 2 <= xx <= rect.x2 + 3,
                    can_build == box_prefix_ok(v, rect, yy as int, xx as int),
                decreases rect.x2 + 3 - xx,
            {
                let ghost entry_ok = can_build;
                if xx > (w as i32) - 2 {
                    can_build = false;
                }
                if yy > (h as i32) - 2 {
                    can_build = false;
                }
                if xx < 1 {
                    can_build = false;
                }
                if yy < 1 {
                    can_build = false;
                }
                if can_build {
                    let idx = self.map.xy_idx(xx, yy);
                    if self.map.tiles[idx] != TileType::Wall {
                        can_build = false;
                    }
                }
                proof {
                    let xi = xx as int;
                    let yi = yy as int;
                    if can_build {
                        assert(cell_ok(v, xi, yi));
                        assert forall|x: int, y: int|
                            in_expanded(rect, x, y) && (y < yi || (y == yi && x < xi + 1))
                                implies #[trigger] cell_ok(v, x, y) by {
                        }
                    } else if entry_ok {
                        assert(!cell_ok(v, xi, yi));
                        assert(!box_prefix_ok(v, rect, yi, xi + 1)) by {
                            if box_prefix_ok(v, rect, yi, xi + 1) {
                                assert(cell_ok(v, xi, yi));
                            }
                        }
                    } else {
                        assert(!box_prefix_ok(v, rect, yi, xi + 1)) by {
                            if box_prefix_ok(v, rect, yi, xi + 1) {
                                assert forall|x: int, y: int|
                                    in_expanded(rect, x, y) && (y < yi || (y == yi && x < xi))
                                        implies #[trigger] cell_ok(v, x, y) by {
                                }
                            }
                        }
                    }
                }
                xx = xx + 1;
            }
            proof {
                let yi = yy as int;
                assert(box_prefix_ok(v, rect, yi, rect.x2 + 3) == box_prefix_ok(
                    v,
                    rect,
                    yi + 1,
                    rect.x1 - 2,
                )) by {
                    if box_prefix_ok(v, rect, yi, rect.x2 + 3) {
                        assert forall|x: int, y: int|
                            in_expanded(rect, x, y) && (y < yi + 1 || (y == yi + 1 && x < rect.x1
                                - 2)) implies #[trigger] cell_ok(v, x, y) by {
                        }
                    }
                    if box_prefix_ok(v, rect, yi + 1, rect.x1 - 2) {
                        assert forall|x: int, y: int|
                            in_expanded(rect, x, y) && (y < yi || (y == yi && x < rect.x2 + 3))
                                implies #[trigger] cell_ok(v, x, y) by {
                        }
                    }
                }
            }
            yy = yy + 1;
        }
        proof {
            assert(box_prefix_ok(v, rect, rect.y2 + 3, rect.x1 - 2) == region_clear(v, rect)) by {
                if box_prefix_ok(v, rect, rect.y2 + 3, rect.x1 - 2) {
                    assert forall|x: int, y: int| in_expanded(rect, x, y)
                        implies #[trigger] cell_ok(v, x, y) by {
                    }
                }
                if region_clear(v, rect) {
                    assert forall|x: int, y: int|
                        in_expanded(rect, x, y) && (y < rect.y2 + 3 || (y == rect.y2 + 3 && x
                            < rect.x1 - 2)) implies #[trigger] cell_ok(v, x, y) by {
                    }
                }
            }
        }
        can_build
    }

    /// Stamps the candidate's interior with floor; every other cell keeps
    /// its tile.
    fn apply_room_to_map(&mut self, room: &Rect)
        requires
            old(self).wf(),
            3 <= room.x1,
            room.x1 + 1 <= room.x2,
            room.x2 <= old(self).map@.width - 4,
            3 <= room.y1,
            room.y1 + 1 <= room.y2,
            room.y2 <= old(self).map@.height - 4,
        ensures
            final(self).wf(),
            final(self).map@.same_dims(old(self).map@),
            final(self).rooms@ == old(self).rooms@,
            final(self).rects@ == old(self).rects@,
            floor_preserved(old(self).map@, final(self).map@),
            forall|x: int, y: int| old(self).map@.in_bounds(x, y)
                ==> #[trigger] final(self).map@.at(x, y) == if in_room_interior(*room, x, y) {
                    TileType::Floor
                } else {
                    old(self).map@.at(x, y)
                },
    {
        let ghost v0 = self.map@;
        let ghost rooms0 = self.rooms@;
        let ghost rects0 = self.rects@;
        let w = self.map.width;
        let h = self.map.height;
        let mut yy: i32 = room.y1 + 1;
        while yy <= room.y2
            invariant
                self.map@.same_dims(v0),
                self.map@.wf(),
                self.rooms@ == rooms0,
                self.rects@ == rects0,
                w == v0.width,
                h == v0.height,
                8 <= v0.width <= 4096,
                8 <= v0.height <= 4096,
                3 <= room.x1,
                room.x1 + 1 <= room.x2,
                room.x2 <= v0.width - 4,
                3 <= room.y1,
                room.y1 + 1 <= room.y2,
                room.y2 <= v0.height - 4,
                room.y1 + 1 <= yy <= room.y2 + 1,
                forall|x: int, y: int| v0.in_bounds(x, y)
                    ==> #[trigger] self.map@.at(x, y) == if in_room_interior(*room, x, y) && y
                        < yy {
                        TileType::Floor
                    } else {
                        v0.at(x, y)
                    },
            decreases room.y2 + 1 - yy,
        {
            let mut xx: i32 = room.x1 + 1;
            while xx <= room.x2
                invariant
                    self.map@.same_dims(v0),
                    self.map@.wf(),
                    self.rooms@ == rooms0,
                    self.rects@ == rects0,
                    w == v0.width,
                    h == v0.height,
                    8 <= v0.width <= 4096,
                    8 <= v0.height <= 4096,
                    3 <= room.x1,
                    room.x1 + 1 <= room.x2,
                    room.x2 <= v0.width - 4,
                    3 <= room.y1,
                    room.y1 + 1 <= room.y2,
                    room.y2 <= v0.height - 4,
                    room.y1 + 1 <= yy <= room.y2,
                    room.x1 + 1 <= xx <= room.x2 + 1,
                    forall|x: int, y: int| v0.in_bounds(x, y)
                        ==> #[trigger] self.map@.at(x, y) == if in_room_interior(*room, x, y)
                            && (y < yy || (y == yy && x < xx)) {
                            TileType::Floor
                        } else {
                            v0.at(x, y)
                        },
                decreases room.x2 + 1 - xx,
            {
                let ghost mid = self.map@;
                let _ = self.map.set(TileType::Floor, xx as usize, yy as usize);
                proof {
                    let xi = xx as int;
                    let yi = yy as int;
                    let cur = self.map@;
                    crate::grid::lemma_idx_bound(xi, yi, v0.width as int, v0.height as int);
                    assert forall|x: int, y: int| v0.in_bounds(x, y)
                        implies #[trigger] cur.at(x, y) == if in_room_interior(*room, x, y) && (y
                            < yi || (y == yi && x < xi + 1)) {
                            TileType::Floor
                        } else {
                            v0.at(x, y)
                        } by {
                        crate::grid::lemma_idx_bound(x, y, v0.width as int, v0.height as int);
                        if x != xi || y != yi {
                            crate::grid::lemma_idx_injective(x, y, xi, yi, v0.width as int);
                            assert(cur.at(x, y) == mid.at(x, y));
                        }
                    }
                }
                xx = xx + 1;
            }
            yy = yy + 1;
        }
        proof {
            let vf = self.map@;
            assert forall|x: int, y: int| v0.in_bounds(x, y)
                implies #[trigger] vf.at(x, y) == if in_room_interior(*room, x, y) {
                    TileType::Floor
                } else {
                    v0.at(x, y)
                } by {
            }
            assert forall|i: int|
                0 <= i < v0.tiles.len() && v0.tiles[i] == TileType::Floor
                    implies #[trigger] vf.tiles[i] == TileType::Floor by {
                let w0 = v0.width as int;
                let x = i % w0;
                let y = i / w0;
                vstd::arithmetic::div_mod::lemma_fundamental_div_mod(i, w0);
                assert(0 <= x < w0 && 0 <= y) by {
                    vstd::arithmetic::div_mod::lemma_mod_bound(i, w0);
                    vstd::arithmetic::div_mod::lemma_div_pos_is_pos(i, w0);
                }
                assert(y < v0.height) by (nonlinear_arith)
                    requires
                        i < v0.width * v0.height,
                        i == v0.width * y + x,
                        0 <= x < v0.width,
                        0 <= y,
                        v0.width >= 1,
                ;
                assert(y * w0 == w0 * y) by (nonlinear_arith);
                assert(v0.idx(x, y) == i);
                assert(v0.at(x, y) == v0.tiles[i]);
                assert(vf.idx(x, y) == i);
                assert(vf.at(x, y) == vf.tiles[i]);
            }
            assert forall|ri: int| 0 <= ri < rooms0.len()
                implies interior_floor(vf, #[trigger] rooms0[ri]) by {
                assert forall|x: int, y: int| in_room_interior(rooms0[ri], x, y)
                    implies #[trigger] vf.at(x, y) == TileType::Floor by {
                    assert(v0.at(x, y) == TileType::Floor);
                }
            }
        }
    }

    /// Carves the L-shaped corridor from `(x1, y1)` to `(x2, y2)`: every
    /// visited cell after the start becomes floor, no other cell changes,
    /// and existing floor is kept.
    fn draw_corridor(&mut self, x1: i32, y1: i32, x2: i32, y2: i32)
        requires
            old(self).wf(),
            0 <= x1 < old(self).map@.width,
            0 <= x2 < old(self).map@.width,
            0 <= y1 < old(self).map@.height,
            0 <= y2 < old(self).map@.height,
        ensures
            final(self).wf(),
            final(self).map@.same_dims(old(self).map@),
            final(self).rooms@ == old(self).rooms@,
            final(self).rects@ == old(self).rects@,
            floor_preserved(old(self).map@, final(self).map@),
            forall|k: int|
                1 <= k < corridor_path(x1 as int, y1 as int, x2 as int, y2 as int).len()
                    ==> final(self).map@.in_bounds(
                    (#[trigger] corridor_path(x1 as int, y1 as int, x2 as int, y2 as int)[k]).0,
                    corridor_path(x1 as int, y1 as int, x2 as int, y2 as int)[k].1,
                ) && final(self).map@.at(
                    corridor_path(x1 as int, y1 as int, x2 as int, y2 as int)[k].0,
                    corridor_path(x1 as int, y1 as int, x2 as int, y2 as int)[k].1,
                ) == TileType::Floor,
            forall|x: int, y: int| old(self).map@.in_bounds(x, y) && !corridor_path(
                x1 as int,
                y1 as int,
                x2 as int,
                y2 as int,
            ).drop_first().contains((x, y)) ==> #[trigger] final(self).map@.at(x, y) == old(
                self,
            ).map@.at(x, y),
    {
        let ghost v0 = self.map@;
        let ghost rooms0 = self.rooms@;
        let ghost rects0 = self.rects@;
        let ghost full = corridor_path(x1 as int, y1 as int, x2 as int, y2 as int);
        let w = self.map.width;
        let h = self.map.height;
        let mut x = x1;
        let mut y = y1;
        let ghost mut k: int = 0;
        while x != x2 || y != y2
            invariant
                self.map@.same_dims(v0),
                self.map@.wf(),
                v0.wf(),
                self.rooms@ == rooms0,
                self.rects@ == rects0,
                w == v0.width,
                h == v0.height,
                8 <= v0.width <= 4096,
                8 <= v0.height <= 4096,
                0 <= x < w,
                0 <= y < h,
                0 <= x2 < w,
                0 <= y2 < h,
                0 <= k < full.len(),
                full[k] == (x as int, y as int),
                corridor_path(x as int, y as int, x2 as int, y2 as int) == full.skip(k),
                forall|m: int| 1 <= m <= k ==> v0.in_bounds(
                    (#[trigger] full[m]).0,
                    full[m].1,
                ) && self.map@.at(full[m].0, full[m].1) == TileType::Floor,
                forall|i: int, j: int| v0.in_bounds(i, j) && !full.subrange(1, k + 1).contains(
                    (i, j),
                ) ==> #[trigger] self.map@.at(i, j) == v0.at(i, j),
                floor_preserved(v0, self.map@),
            decreases vstd::math::abs(x as int - x2 as int) + vstd::math::abs(
                y as int - y2 as int,
            ),
        {
            proof {
                let n = corridor_next(x as int, y as int, x2 as int, y2 as int);
                lemma_corridor_path_connected(n.0, n.1, x2 as int, y2 as int);
                assert(full.skip(k) == seq![(x as int, y as int)] + corridor_path(
                    n.0,
                    n.1,
                    x2 as int,
                    y2 as int,
                ));
                assert(full.skip(k).drop_first() =~= full.skip(k + 1));
                assert(full[k + 1] == full.skip(k)[1]);
                assert(full[k + 1] == n);
            }
            if y < y2 {
                y = y + 1;
            } else if y > y2 {
                y = y - 1;
            } else if x < x2 {
                x = x + 1;
            } else {
                x = x - 1;
            }
            let ghost mid = self.map@;
            let _ = self.map.set(TileType::Floor, x as usize, y as usize);
            proof {
                let xi = x as int;
                let yi = y as int;
                crate::grid::lemma_idx_bound(xi, yi, v0.width as int, v0.height as int);
                k = k + 1;
                assert(full.subrange(1, k + 1) =~= full.subrange(1, k).push(full[k]));
                let cur = self.map@;
                assert forall|m: int| 1 <= m <= k implies v0.in_bounds(
                    (#[trigger] full[m]).0,
                    full[m].1,
                ) && cur.at(full[m].0, full[m].1) == TileType::Floor by {
                    if m < k {
                        crate::grid::lemma_idx_bound(
                            full[m].0,
                            full[m].1,
                            v0.width as int,
                            v0.height as int,
                        );
                        if full[m].0 != xi || full[m].1 != yi {
                            crate::grid::lemma_idx_injective(
                                full[m].0,
                                full[m].1,
                                xi,
                                yi,
                                v0.width as int,
                            );
                            assert(cur.at(full[m].0, full[m].1) == mid.at(full[m].0, full[m].1));
                        }
                    }
                }
                assert forall|i: int, j: int|
                    v0.in_bounds(i, j) && !full.subrange(1, k + 1).contains((i, j))
                        implies #[trigger] cur.at(i, j) == v0.at(i, j) by {
                    assert(full.subrange(1, k + 1)[k - 1 + 1 - 1] == full[k]);
                    assert(full.subrange(1, k + 1).contains(full[k]));
                    assert((i, j) != full[k]);
                    crate::grid::lemma_idx_bound(i, j, v0.width as int, v0.height as int);
                    crate::grid::lemma_idx_injective(i, j, xi, yi, v0.width as int);
                    assert(!full.subrange(1, k).contains((i, j))) by {
                        if full.subrange(1, k).contains((i, j)) {
                            let m = choose|m: int|
                                0 <= m < k - 1 && full.subrange(1, k)[m] == (i, j);
                            assert(full.subrange(1, k + 1)[m] == (i, j));
                        }
                    }
                    assert(mid.at(i, j) == v0.at(i, j));
                }
                assert forall|i: int|
                    0 <= i < v0.tiles.len() && v0.tiles[i] == TileType::Floor
                        implies #[trigger] cur.tiles[i] == TileType::Floor by {
                    assert(mid.tiles[i] == TileType::Floor);
                }
            }
        }
        proof {
            assert(corridor_path(x as int, y as int, x2 as int, y2 as int) == seq![
                (x2 as int, y2 as int),
            ]);
            assert(full.skip(k).len() == 1);
            assert(k == full.len() - 1);
            assert(full.drop_first() =~= full.subrange(1, k + 1));
            lemma_rooms_keep_floor(v0, self.map@, rooms0);
        }
    }

    /// Orders the placed rooms by their left edge, the order the corridors
    /// connect them in.
    fn sort_rooms(&mut self)
        requires
            old(self).wf(),
        ensures
            final(self).wf(),
            final(self).map == old(self).map,
            final(self).rects@ == old(self).rects@,
            final(self).rooms@.len() == old(self).rooms@.len(),
            sorted_by_x1(final(self).rooms@),
            forall|i: int| 0 <= i < old(self).rooms@.len() ==> #[trigger] appears_in(
                old(self).rooms@[i],
                final(self).rooms@,
            ),
    {
        let ghost v = self.map@;
        let ghost orig = self.rooms@;
        let len = self.rooms.len();
        if len < 2 {
            proof {
                assert forall|i: int| 0 <= i < orig.len() implies #[trigger] appears_in(
                    orig[i],
                    self.rooms@,
                ) by {
                    assert(self.rooms@[i] == orig[i]);
                }
            }
            return ;
        }
        let mut i: usize = 0;
        while i < len
            invariant
                self.wf(),
                self.map@ == v,
                self.rects@ == old(self).rects@,
                self.map == old(self).map,
                self.rooms@.len() == len,
                2 <= len,
                i <= len,
                forall|a: int, b: int| 0 <= a < b < i ==> (#[trigger] self.rooms@[a]).x1
                    <= (#[trigger] self.rooms@[b]).x1,
                forall|a: int, b: int| 0 <= a < i && i <= b < len ==> (#[trigger] self.rooms@[a]).x1
                    <= (#[trigger] self.rooms@[b]).x1,
                forall|a: int| 0 <= a < orig.len() ==> #[trigger] appears_in(
                    orig[a],
                    self.rooms@,
                ),
            decreases len - i,
        {
            let mut m: usize = i;
            let mut j: usize = i + 1;
            while j < len
                invariant
                    self.wf(),
                    self.rooms@.len() == len,
                    i <= m < len,
                    i < j <= len,
                    i < len,
                    forall|t: int| i <= t < j ==> (#[trigger] self.rooms@[t]).x1
                        >= self.rooms@[m as int].x1,
                decreases len - j,
            {
                if self.rooms[j].x1 < self.rooms[m].x1 {
                    m = j;
                }
                j = j + 1;
            }
            let ghost s0 = self.rooms@;
            let a = self.rooms[i];
            let b = self.rooms[m];
            self.rooms.set(i, b);
            self.rooms.set(m, a);
            proof {
                lemma_room_props_swap(v, s0, self.rooms@, i as int, m as int);
                let s1 = self.rooms@;
                assert forall|a: int| 0 <= a < orig.len() implies #[trigger] appears_in(
                    orig[a],
                    s1,
                ) by {
                    assert(appears_in(orig[a], s0));
                    let j0 = choose|j0: int| 0 <= j0 < s0.len() && s0[j0] == orig[a];
                    assert(appears_in(s0[j0], s1));
                    let j1 = choose|j1: int| 0 <= j1 < s1.len() && s1[j1] == s0[j0];
                    assert(s1[j1] == orig[a]);
                }
                let ii = i as int;
                let mi = m as int;
                assert forall|a: int, b: int| 0 <= a < b < ii + 1
                    implies (#[trigger] s1[a]).x1 <= (#[trigger] s1[b]).x1 by {
                    if b == ii {
                        assert(s1[b] == s0[mi]);
                        assert(s1[a] == s0[a]);
                        assert(s0[a].x1 <= s0[mi].x1);
                    } else {
                        assert(s1[a] == s0[a] && s1[b] == s0[b]);
                    }
                }
                assert forall|a: int, b: int| 0 <= a < ii + 1 && ii + 1 <= b < len
                    implies (#[trigger] s1[a]).x1 <= (#[trigger] s1[b]).x1 by {
                    let sb: int = if b == mi {
                        ii
                    } else {
                        b
                    };
                    assert(s1[b] == s0[sb]);
                    if a < ii {
                        assert(s1[a] == s0[a]);
                        assert(s0[a].x1 <= s0[sb].x1);
                    } else {
                        assert(s1[a] == s0[mi]);
                        assert(s0[mi].x1 <= s0[sb].x1);
                    }
                }
            }
            i = i + 1;
        }
    }

    /// Full regeneration: reset the grid, quarter candidate rectangles from
    /// the work-list and stamp feasible rooms, then sort the rooms by left
    /// edge and join each adjacent pair with an L-shaped corridor. At most
    /// one room is placed per attempt, every placed room keeps the 2-tile
    /// separation from every other, and every room interior is floor.
    pub fn build(&mut self)
        requires
            old(self).wf(),
        ensures
            final(self).wf(),
            final(self).map@.same_dims(old(self).map@),
            final(self).rooms@.len() <= BSP_ROOM_ATTEMPTS,
            sorted_by_x1(final(self).rooms@),
            rooms_separated(final(self).rooms@),
            forall|i: int| 0 <= i < final(self).rooms@.len() ==> room_in_grid(
                #[trigger] final(self).rooms@[i],
                final(self).map@,
            ) && interior_floor(final(self).map@, final(self).rooms@[i]),
            final(self).rooms@.len() >= 2 ==> exists|ends: Seq<(int, int, int, int)>|
                corridors_connected(final(self).map@, final(self).rooms@, ends)
                    && floor_covered(final(self).map@, final(self).rooms@, ends),
            final(self).rooms@.len() < 2 ==> floor_covered(
                final(self).map@,
                final(self).rooms@,
                Seq::<(int, int, int, int)>::empty(),
            ),
            forall|x: int, y: int| final(self).map@.in_bounds(x, y) && (x == 0 || y == 0 || x
                == final(self).map@.width - 1 || y == final(self).map@.height - 1)
                ==> #[trigger] final(self).map@.at(x, y) == TileType::Wall,
    {
        self.clear();
        let ghost e0: Seq<(int, int, int, int)> = Seq::empty();
        let w = self.map.width;
        let h = self.map.height;
        let first = Rect::new(2, 2, (w as i32) - 5, (h as i32) - 5);
        self.rects.push(first);
        proof {
            assert forall|i: int| 0 <= i < self.rects@.len()
                implies rect_in_box(#[trigger] self.rects@[i], self.map@) by {
            }
        }
        self.add_subrects(first);
        proof {
            let v = self.map@;
            assert forall|x: int, y: int| v.in_bounds(x, y)
                implies #[trigger] v.at(x, y) == TileType::Wall by {
                crate::grid::lemma_idx_bound(x, y, v.width as int, v.height as int);
            }
            assert(floor_covered(v, self.rooms@, e0));
        }
        let mut n_rooms: u32 = 0;
        while n_rooms < BSP_ROOM_ATTEMPTS
            invariant
                self.wf(),
                self.map@.same_dims(old(self).map@),
                self.rects@.len() >= 1,
                self.rooms@.len() <= n_rooms,
                n_rooms <= BSP_ROOM_ATTEMPTS,
                e0.len() == 0,
                floor_covered(self.map@, self.rooms@, e0),
            decreases BSP_ROOM_ATTEMPTS - n_rooms,
        {
            let rect = self.get_random_rect();
            proof {
                let ri = choose|ri: int| 0 <= ri < self.rects@.len() && rect == self.rects@[ri];
                assert(rect_in_box(self.rects@[ri], self.map@));
            }
            match self.get_random_sub_rect(rect) {
                None => {},
                Some(candidate) => {
                    if self.is_possible(candidate) {
                        proof {
                            let v = self.map@;
                            assert(in_expanded(candidate, candidate.x1 - 2, candidate.y1 - 2));
                            assert(cell_ok(v, candidate.x1 - 2, candidate.y1 - 2));
                            assert(in_expanded(candidate, candidate.x2 + 2, candidate.y2 + 2));
                            assert(cell_ok(v, candidate.x2 + 2, candidate.y2 + 2));
                            assert(room_in_grid(candidate, v));
                            assert forall|ri: int| 0 <= ri < self.rooms@.len()
                                implies rooms_separated_pair(
                                #[trigger] self.rooms@[ri],
                                candidate,
                            ) by {
                                let a = self.rooms@[ri];
                                if !rooms_separated_pair(a, candidate) {
                                    let px = if candidate.x1 - 2 >= a.x1 + 1 {
                                        candidate.x1 - 2
                                    } else {
                                        a.x1 + 1
                                    };
                                    let py = if candidate.y1 - 2 >= a.y1 + 1 {
                                        candidate.y1 - 2
                                    } else {
                                        a.y1 + 1
                                    };
                                    assert(in_expanded(candidate, px, py));
                                    assert(in_room_interior(a, px, py));
                                    assert(cell_ok(v, px, py));
                                    assert(v.at(px, py) == TileType::Floor);
                                }
                            }
                        }
                        let ghost rooms_before = self.rooms@;
                        let ghost v_before = self.map@;
                        self.apply_room_to_map(&candidate);
                        self.rooms.push(candidate);
                        proof {
                            let v = self.map@;
                            let rs = self.rooms@;
                            assert(rs == rooms_before.push(candidate));
                            assert forall|x: int, y: int| in_room_interior(candidate, x, y)
                                implies #[trigger] v.at(x, y) == TileType::Floor by {
                                assert(v_before.in_bounds(x, y));
                            }
                            assert(interior_floor(v, candidate));
                            assert forall|i: int, j: int|
                                0 <= i < rs.len() && 0 <= j < rs.len() && i != j
                                    implies #[trigger] rooms_separated_pair(rs[i], rs[j]) by {
                                if i < rs.len() - 1 && j < rs.len() - 1 {
                                    assert(rooms_separated_pair(rooms_before[i], rooms_before[j]));
                                } else if i < rs.len() - 1 {
                                    assert(rooms_separated_pair(rooms_before[i], candidate));
                                } else {
                                    assert(rooms_separated_pair(rooms_before[j], candidate));
                                }
                            }
                            assert(floor_covered(v, rs, e0)) by {
                                assert forall|x: int, y: int|
                                    v.in_bounds(x, y) && #[trigger] v.at(x, y) == TileType::Floor
                                        implies exists|i: int|
                                        0 <= i < rs.len() && in_room_interior(
                                            #[trigger] rs[i],
                                            x,
                                            y,
                                        ) by {
                                    if in_room_interior(candidate, x, y) {
                                        assert(rs[rs.len() - 1] == candidate);
                                        assert(in_room_interior(rs[rs.len() - 1], x, y));
                                    } else {
                                        assert(v_before.in_bounds(x, y));
                                        assert(v_before.at(x, y) == TileType::Floor);
                                        assert(floor_covered(v_before, rooms_before, e0));
                                        assert(!(exists|ci: int|
                                            0 <= ci < e0.len() && corridor_path(
                                                (#[trigger] e0[ci]).0,
                                                e0[ci].1,
                                                e0[ci].2,
                                                e0[ci].3,
                                            ).drop_first().contains((x, y))));
                                        assert(exists|i: int|
                                            0 <= i < rooms_before.len() && in_room_interior(
                                                #[trigger] rooms_before[i],
                                                x,
                                                y,
                                            ));
                                        let i = choose|i: int|
                                            0 <= i < rooms_before.len() && in_room_interior(
                                                rooms_before[i],
                                                x,
                                                y,
                                            );
                                        assert(rs[i] == rooms_before[i]);
                                        assert(in_room_interior(rs[i], x, y));
                                    }
                                }
                            }
                        }
                        self.add_subrects(rect);
                    }
                },
            }
            n_rooms = n_rooms + 1;
        }
        let ghost rs_pre = self.rooms@;
        self.sort_rooms();
        proof {
            let v = self.map@;
            let rs = self.rooms@;
            assert(floor_covered(v, rs, e0)) by {
                assert forall|x: int, y: int|
                    v.in_bounds(x, y) && #[trigger] v.at(x, y) == TileType::Floor
                        implies exists|i: int|
                        0 <= i < rs.len() && in_room_interior(#[trigger] rs[i], x, y) by {
                    assert(floor_covered(v, rs_pre, e0));
                    let i0 = choose|i0: int|
                        0 <= i0 < rs_pre.len() && in_room_interior(rs_pre[i0], x, y);
                    assert(appears_in(rs_pre[i0], rs));
                    let j = choose|j: int| 0 <= j < rs.len() && rs[j] == rs_pre[i0];
                    assert(in_room_interior(rs[j], x, y));
                }
            }
        }
        if self.rooms.len() >= 2 {
            let ghost roomsf = self.rooms@;
            let ghost mut ends: Seq<(int, int, int, int)> = Seq::empty();
            let n = self.rooms.len();
            let mut i: usize = 0;
            while i < n - 1
                invariant
                    self.wf(),
                    self.map@.same_dims(old(self).map@),
                    self.rooms@ == roomsf,
                    self.rooms@.len() == n,
                    2 <= n,
                    i <= n - 1,
                    sorted_by_x1(self.rooms@),
                    self.rooms@.len() <= BSP_ROOM_ATTEMPTS,
                    ends.len() == i,
                    forall|j: int| 0 <= j < i ==> corridor_link(
                        self.map@,
                        roomsf[j],
                        roomsf[j + 1],
                        #[trigger] ends[j],
                    ),
                    floor_covered(self.map@, roomsf, ends),
                decreases n - i,
            {
                let room = self.rooms[i];
                let next_room = self.rooms[i + 1];
                let start_x = room.x1 + rand_range_i32(&mut self.rng, 1, room.x2 - room.x1) - 1;
                let start_y = room.y1 + rand_range_i32(&mut self.rng, 1, room.y2 - room.y1) - 1;
                let end_x = next_room.x1 + rand_range_i32(
                    &mut self.rng,
                    1,
                    next_room.x2 - next_room.x1,
                ) - 1;
                let end_y = next_room.y1 + rand_range_i32(
                    &mut self.rng,
                    1,
                    next_room.y2 - next_room.y1,
                ) - 1;
                let ghost mid = self.map@;
                self.draw_corridor(start_x, start_y, end_x, end_y);
                proof {
                    let e = (start_x as int, start_y as int, end_x as int, end_y as int);
                    let cur = self.map@;
                    assert forall|j: int| 0 <= j < i implies corridor_link(
                        cur,
                        roomsf[j],
                        roomsf[j + 1],
                        #[trigger] ends[j],
                    ) by {
                        let ee = ends[j];
                        let p = corridor_path(ee.0, ee.1, ee.2, ee.3);
                        assert forall|k: int| 1 <= k < p.len() implies cur.in_bounds(
                            (#[trigger] p[k]).0,
                            p[k].1,
                        ) && cur.at(p[k].0, p[k].1) == TileType::Floor by {
                            assert(mid.in_bounds(p[k].0, p[k].1));
                            assert(mid.at(p[k].0, p[k].1) == TileType::Floor);
                            crate::grid::lemma_idx_bound(
                                p[k].0,
                                p[k].1,
                                mid.width as int,
                                mid.height as int,
                            );
                            assert(cur.tiles[mid.idx(p[k].0, p[k].1)] == TileType::Floor);
                        }
                    }
                    assert(corridor_link(cur, roomsf[i as int], roomsf[i + 1], e));
                    let ends2 = ends.push(e);
                    assert(floor_covered(cur, roomsf, ends2)) by {
                        assert forall|x: int, y: int|
                            cur.in_bounds(x, y) && #[trigger] cur.at(x, y) == TileType::Floor
                                implies ({
                                ||| exists|ri: int|
                                    0 <= ri < roomsf.len() && in_room_interior(
                                        #[trigger] roomsf[ri],
                                        x,
                                        y,
                                    )
                                ||| exists|ci: int|
                                    0 <= ci < ends2.len() && corridor_path(
                                        (#[trigger] ends2[ci]).0,
                                        ends2[ci].1,
                                        ends2[ci].2,
                                        ends2[ci].3,
                                    ).drop_first().contains((x, y))
                            }) by {
                            if mid.at(x, y) == TileType::Floor {
                                assert(floor_covered(mid, roomsf, ends));
                                if !exists|ri: int|
                                    0 <= ri < roomsf.len() && in_room_interior(
                                        #[trigger] roomsf[ri],
                                        x,
                                        y,
                                    ) {
                                    let ci = choose|ci: int|
                                        0 <= ci < ends.len() && corridor_path(
                                            ends[ci].0,
                                            ends[ci].1,
                                            ends[ci].2,
                                            ends[ci].3,
                                        ).drop_first().contains((x, y));
                                    assert(ends2[ci] == ends[ci]);
                                }
                            } else {
                                assert(corridor_path(e.0, e.1, e.2, e.3).drop_first().contains(
                                    (x, y),
                                ));
                                assert(ends2[ends.len() as int] == e);
                            }
                        }
                    }
                    ends = ends2;
                }
                i = i + 1;
            }
            proof {
                assert(corridors_connected(self.map@, roomsf, ends));
                assert(floor_covered(self.map@, roomsf, ends));
                let vf = self.map@;
                assert forall|x: int, y: int|
                    vf.in_bounds(x, y) && (x == 0 || y == 0 || x == vf.width - 1 || y == vf.height
                        - 1) implies #[trigger] vf.at(x, y) == TileType::Wall by {
                    if vf.at(x, y) == TileType::Floor {
                        if exists|ri: int|
                            0 <= ri < roomsf.len() && in_room_interior(
                                #[trigger] roomsf[ri],
                                x,
                                y,
                            ) {
                            let ri = choose|ri: int|
                                0 <= ri < roomsf.len() && in_room_interior(roomsf[ri], x, y);
                            assert(room_in_grid(roomsf[ri], vf));
                        } else {
                            let ci = choose|ci: int|
                                0 <= ci < ends.len() && corridor_path(
                                    ends[ci].0,
                                    ends[ci].1,
                                    ends[ci].2,
                                    ends[ci].3,
                                ).drop_first().contains((x, y));
                            let ee = ends[ci];
                            assert(corridor_link(vf, roomsf[ci], roomsf[ci + 1], ee));
                            assert(room_in_grid(roomsf[ci], vf));
                            assert(room_in_grid(roomsf[ci + 1], vf));
                            lemma_corridor_path_in_box(ee.0, ee.1, ee.2, ee.3);
                            let p = corridor_path(ee.0, ee.1, ee.2, ee.3);
                            let k = choose|k: int|
                                0 <= k < p.drop_first().len() && p.drop_first()[k] == (x, y);
                            assert(p[k + 1] == (x, y));
                        }
                    }
                }
            }
        } else {
            proof {
                let vf = self.map@;
                let rsf = self.rooms@;
                assert(floor_covered(vf, rsf, e0));
                assert forall|x: int, y: int|
                    vf.in_bounds(x, y) && (x == 0 || y == 0 || x == vf.width - 1 || y == vf.height
                        - 1) implies #[trigger] vf.at(x, y) == TileType::Wall by {
                    if vf.at(x, y) == TileType::Floor {
                        if exists|ri: int|
                            0 <= ri < rsf.len() && in_room_interior(#[trigger] rsf[ri], x, y) {
                            let ri = choose|ri: int|
                                0 <= ri < rsf.len() && in_room_interior(rsf[ri], x, y);
                            assert(room_in_grid(rsf[ri], vf));
                        }
                    }
                }
            }
        }
    }
}

impl<R: RandomSource> MapBuilder for BSPDungeonBuilder<R> {
    open spec fn wf(&self) -> bool {
        &&& self.map@.wf()
        &&& 8 <= self.map@.width <= 4096
        &&& 8 <= self.map@.height <= 4096
        &&& forall|i: int| 0 <= i < self.rects@.len()
            ==> rect_in_box(#[trigger] self.rects@[i], self.map@)
        &&& forall|i: int| 0 <= i < self.rooms@.len()
            ==> room_in_grid(#[trigger] self.rooms@[i], self.map@)
        &&& forall|i: int| 0 <= i < self.rooms@.len()
            ==> interior_floor(self.map@, #[trigger] self.rooms@[i])
        &&& rooms_separated(self.rooms@)
    }

    open spec fn grid(&self) -> GridView {
        self.map@
    }

    open spec fn stats(&self) -> Seq<(Seq<char>, Seq<char>)> {
        seq![
            ("Name"@, "Binary Space Partitioning"@),
            ("Number of Rooms"@, spec_decimal(self.rooms@.len())),
        ]
    }

    open spec fn notes_spec(&self) -> Seq<char> {
        ""@
    }

    proof fn grid_area_invariant(&self) {
    }

    fn build(&mut self) {
        self.build();
    }

    fn iterate(&mut self) {
    }

    fn get_map(&self) -> Grid {
        self.map.duplicate()
    }

    fn update_map_data(&self, map_data: &mut Vec<(&'static str, String)>) {
        map_data.clear();
        map_data.push(("Name", "Binary Space Partitioning".to_owned()));
        map_data.push(("Number of Rooms", u64_to_string(self.rooms.len() as u64)));
    }

    fn notes(&self) -> &str {
        ""
    }
}

} // verus!
