//! A simple heuristic room placer, kept alongside the BSP dungeon: rooms of
//! random size are dropped onto a character canvas wherever an expanded
//! overlap scan finds free space, then successive room centers are joined
//! by straight paths.

use vstd::prelude::*;

use crate::grid::{lemma_idx_bound, lemma_idx_injective};
use crate::rng::{rand_range_i32, RandomSource};
use crate::text::{spec_decimal, u64_to_string};

verus! {

/// How many candidate draws one `run` spends before giving up on placing
/// the remaining rooms.
pub const ROOM_PLACE_ATTEMPTS: u32 = 1000;

/// A placed room: origin, extent, and its center cell (`middle[0]` is the
/// x-coordinate, `middle[1]` the y-coordinate).
pub struct Room {
    pub x: i32,
    pub y: i32,
    pub width: i32,
    pub height: i32,
    pub middle: Vec<i32>,
}

/// One canvas cell, drawn as a single character.
pub struct Cord {
    pub material: char,
}

impl Cord {
    pub fn set_material(&mut self, material: &char)
        ensures
            final(self).material == material,
    {
        self.material = *material;
    }
}

/// The characters the canvas is drawn with.
pub struct TexturePack {
    pub empty: char,
    pub room: char,
    pub path: char,
}

impl TexturePack {
    pub fn new() -> (t: TexturePack)
        ensures
            t.empty == ' ',
            t.room == '■',
            t.path == '■',
    {
        TexturePack { empty: ' ', room: '■', path: '■' }
    }
}

/// A placed room fits strictly inside the canvas with a one-cell border,
/// and its recorded middle is its center.
pub open spec fn room_wf(r: Room, w: int, h: int) -> bool {
    &&& 1 <= r.x
    &&& 3 <= r.width <= 4096
    &&& r.x + r.width < w
    &&& 1 <= r.y
    &&& 3 <= r.height <= 4096
    &&& r.y + r.height < h
    &&& r.middle@.len() == 2
    &&& r.middle@[0] == r.x + r.width / 2
    &&& r.middle@[1] == r.y + r.height / 2
}

/// The cells a placed room stamps: all but the last row and column of its
/// extent.
pub open spec fn in_stamped(r: Room, i: int, j: int) -> bool {
    r.x <= i < r.x + r.width - 1 && r.y <= j < r.y + r.height - 1
}

/// Two placed rooms' extents leave at least two cells between their
/// stamped regions, in x or in y: the trace the one-cell overlap margin
/// leaves around each placement.
pub open spec fn rooms_apart_pair(a: Room, b: Room) -> bool {
    a.x + a.width <= b.x || b.x + b.width <= a.x || a.y + a.height <= b.y || b.y + b.height
        <= a.y
}

/// Pairwise separation of the whole placed-room list.
pub open spec fn rooms_apart(rooms: Seq<Room>) -> bool {
    forall|i: int, j: int| 0 <= i < rooms.len() && 0 <= j < rooms.len() && i != j
        ==> #[trigger] rooms_apart_pair(rooms[i], rooms[j])
}

/// The total area of the placed rooms.
pub open spec fn spec_room_sa(rooms: Seq<Room>) -> int
    decreases rooms.len(),
{
    if rooms.len() == 0 {
        0
    } else {
        spec_room_sa(rooms.drop_last()) + rooms.last().width * rooms.last().height
    }
}

/// The character canvas the heuristic placer draws on, with its room list
/// and placement limits.
pub struct Canvas {
    pub height: usize,
    pub width: usize,
    pub r_list: Vec<Room>,
    pub c_map: Vec<Cord>,
    pub max_room_size: i32,
    pub min_room_size: i32,
    pub max_rooms: i32,
    pub min_rooms: i32,
}

impl Canvas {
    pub open spec fn wf(self) -> bool {
        &&& self.c_map@.len() == self.width * self.height
        &&& 8 <= self.width <= 4096
        &&& 8 <= self.height <= 4096
        &&& 3 <= self.min_room_size
        &&& self.min_room_size < self.max_room_size
        &&& self.max_room_size + 2 <= self.width
        &&& self.max_room_size + 2 <= self.height
        &&& 1 <= self.min_rooms < self.max_rooms <= 10000
        &&& self.max_rooms <= self.width * self.height
        &&& self.r_list@.len() <= self.width * self.height
        &&& forall|i: int| 0 <= i < self.r_list@.len() ==> room_wf(
            #[trigger] self.r_list@[i],
            self.width as int,
            self.height as int,
        )
    }

    /// The character at cell `(x, y)`.
    pub open spec fn cord_char(self, x: int, y: int) -> char {
        self.c_map@[y * self.width + x].material
    }

    pub open spec fn in_bounds(self, x: int, y: int) -> bool {
        0 <= x < self.width && 0 <= y < self.height
    }

    /// A 40-by-40 canvas of blanks with the default placement limits.
    pub fn new() -> (c: Canvas)
        ensures
            c.wf(),
            c.width == 40,
            c.height == 40,
            c.r_list@.len() == 0,
            c.max_room_size == 12,
            c.min_room_size == 4,
            c.max_rooms == 14,
            c.min_rooms == 8,
            forall|x: int, y: int| c.in_bounds(x, y) ==> #[trigger] c.cord_char(x, y) == ' ',
    {
        let mut c_map: Vec<Cord> = Vec::new();
        let mut k: usize = 0;
        while k < 1600
            invariant
                k <= 1600,
                c_map@.len() == k,
                forall|i: int| 0 <= i < k ==> (#[trigger] c_map@[i]).material == ' ',
            decreases 1600 - k,
        {
            c_map.push(Cord { material: ' ' });
            k = k + 1;
        }
        let c = Canvas {
            height: 40,
            width: 40,
            r_list: Vec::new(),
            c_map,
            max_room_size: 12,
            min_room_size: 4,
            max_rooms: 14,
            min_rooms: 8,
        };
        proof {
            assert forall|x: int, y: int| c.in_bounds(x, y)
                implies #[trigger] c.cord_char(x, y) == ' ' by {
                lemma_idx_bound(x, y, 40, 40);
            }
        }
        c
    }

    /// The character at `(x, y)`, or nothing when the cell is off the canvas.
    pub fn get_cord(&self, x: usize, y: usize) -> (c: Option<char>)
        requires
            self.wf(),
        ensures
            c matches Some(m) ==> self.in_bounds(x as int, y as int) && m == self.cord_char(
                x as int,
                y as int,
            ),
            c is None <==> !self.in_bounds(x as int, y as int),
    {
        if x < self.width && y < self.height {
            let n = self.c_map.len();
            proof {
                lemma_idx_bound(x as int, y as int, self.width as int, self.height as int);
            }
            Some(self.c_map[y * self.width + x].material)
        } else {
            None
        }
    }

    /// Overwrites the character at `(x, y)` in place; an out-of-bounds write
    /// is reported, never applied.
    pub fn set_cord(&mut self, x: usize, y: usize, material: char) -> (ok: bool)
        requires
            old(self).wf(),
        ensures
            final(self).wf(),
            final(self).width == old(self).width,
            final(self).height == old(self).height,
            final(self).r_list@ == old(self).r_list@,
            final(self).max_room_size == old(self).max_room_size,
            final(self).min_room_size == old(self).min_room_size,
            final(self).max_rooms == old(self).max_rooms,
            final(self).min_rooms == old(self).min_rooms,
            ok <==> old(self).in_bounds(x as int, y as int),
            forall|i: int, j: int| old(self).in_bounds(i, j)
                ==> #[trigger] final(self).cord_char(i, j) == if ok && i == x && j == y {
                    material
                } else {
                    old(self).cord_char(i, j)
                },
    {
        if x < self.width && y < self.height {
            let n = self.c_map.len();
            proof {
                lemma_idx_bound(x as int, y as int, self.width as int, self.height as int);
            }
            let idx = y * self.width + x;
            self.c_map.set(idx, Cord { material });
            proof {
                let vf = *self;
                let v0 = *old(self);
                assert forall|i: int, j: int| v0.in_bounds(i, j)
                    implies #[trigger] vf.cord_char(i, j) == if i == x && j == y {
                        material
                    } else {
                        v0.cord_char(i, j)
                    } by {
                    lemma_idx_bound(i, j, v0.width as int, v0.height as int);
                    if i != x || j != y {
                        lemma_idx_injective(i, j, x as int, y as int, v0.width as int);
                    }
                }
            }
            true
        } else {
            false
        }
    }

    /// Records a placed room.
    pub fn push_room(&mut self, room: Room)
        requires
            old(self).wf(),
            room_wf(room, old(self).width as int, old(self).height as int),
            old(self).r_list@.len() < old(self).width * old(self).height,
        ensures
            final(self).wf(),
            final(self).r_list@ == old(self).r_list@.push(room),
            final(self).c_map@ == old(self).c_map@,
            final(self).width == old(self).width,
            final(self).height == old(self).height,
            final(self).max_room_size == old(self).max_room_size,
            final(self).min_room_size == old(self).min_room_size,
            final(self).max_rooms == old(self).max_rooms,
            final(self).min_rooms == old(self).min_rooms,
    {
        self.r_list.push(room);
    }

    pub fn num_rooms(&self) -> (n: usize)
        ensures
            n == self.r_list@.len(),
    {
        self.r_list.len()
    }

    /// Blanks the canvas with the given character and forgets the rooms.
    pub fn clear(&mut self, material: &char)
        requires
            old(self).wf(),
        ensures
            final(self).wf(),
            final(self).width == old(self).width,
            final(self).height == old(self).height,
            final(self).max_room_size == old(self).max_room_size,
            final(self).min_room_size == old(self).min_room_size,
            final(self).max_rooms == old(self).max_rooms,
            final(self).min_rooms == old(self).min_rooms,
            final(self).r_list@.len() == 0,
            forall|i: int, j: int| old(self).in_bounds(i, j)
                ==> #[trigger] final(self).cord_char(i, j) == material,
    {
        let w = self.width;
        let h = self.height;
        proof {
            assert(w * h <= usize::MAX) by (nonlinear_arith)
                requires
                    w <= 4096,
                    h <= 4096,
            ;
        }
        let n = w * h;
        self.r_list = Vec::new();
        let mut c_map: Vec<Cord> = Vec::new();
        let mut k: usize = 0;
        while k < n
            invariant
                k <= n,
                c_map@.len() == k,
                forall|i: int| 0 <= i < k ==> (#[trigger] c_map@[i]).material == material,
            decreases n - k,
        {
            c_map.push(Cord { material: *material });
            k = k + 1;
        }
        self.c_map = c_map;
        proof {
            let vf = *self;
            assert forall|i: int, j: int| old(self).in_bounds(i, j)
                implies #[trigger] vf.cord_char(i, j) == material by {
                lemma_idx_bound(i, j, w as int, h as int);
            }
        }
    }

    /// The total area of the placed rooms.
    pub fn room_sa(&self) -> (sa: u64)
        requires
            self.wf(),
        ensures
            sa == spec_room_sa(self.r_list@),
    {
        let mut sa: u64 = 0;
        let mut k: usize = 0;
        let len = self.r_list.len();
        proof {
            assert(self.r_list@.take(0) =~= Seq::<Room>::empty());
        }
        while k < len
            invariant
                self.wf(),
                k <= len,
                len == self.r_list@.len(),
                sa == spec_room_sa(self.r_list@.take(k as int)),
                sa <= k * 16777216,
            decreases len - k,
        {
            let room = &self.r_list[k];
            proof {
                assert(room_wf(self.r_list@[k as int], self.width as int, self.height as int));
                assert(self.r_list@.take(k + 1 as int).drop_last() =~= self.r_list@.take(
                    k as int,
                ));
                assert((k + 1) * 16777216 == k * 16777216 + 16777216) by (nonlinear_arith);
                assert(room.width * room.height <= 16777216) by (nonlinear_arith)
                    requires
                        0 <= room.width <= 4096,
                        0 <= room.height <= 4096,
                ;
                assert(self.r_list@.len() <= 16777216) by (nonlinear_arith)
                    requires
                        self.r_list@.len() <= self.width * self.height,
                        self.width <= 4096,
                        self.height <= 4096,
                ;
                assert(k * 16777216 <= self.r_list@.len() * 16777216 <= 16777216 * 16777216)
                    by (nonlinear_arith)
                    requires
                        k < self.r_list@.len() <= 16777216,
                ;
            }
            sa = sa + (room.width as u64) * (room.height as u64);
            k = k + 1;
        }
        proof {
            assert(self.r_list@.take(len as int) =~= self.r_list@);
        }
        sa
    }
}

impl Room {
    /// Stamps the room's cells (all but the last row and column of its
    /// extent) with the given character.
    pub fn push_to_map(&self, map: &mut Canvas, material: &char)
        requires
            old(map).wf(),
            room_wf(*self, old(map).width as int, old(map).height as int),
        ensures
            final(map).wf(),
            final(map).width == old(map).width,
            final(map).height == old(map).height,
            final(map).r_list@ == old(map).r_list@,
            final(map).max_room_size == old(map).max_room_size,
            final(map).min_room_size == old(map).min_room_size,
            final(map).max_rooms == old(map).max_rooms,
            final(map).min_rooms == old(map).min_rooms,
            forall|i: int, j: int| old(map).in_bounds(i, j)
                ==> #[trigger] final(map).cord_char(i, j) == if self.x <= i < self.x + self.width
                    - 1 && self.y <= j < self.y + self.height - 1 {
                    *material
                } else {
                    old(map).cord_char(i, j)
                },
    {
        let ghost v0 = *map;
        let mut yy: i32 = 0;
        while yy < self.height - 1
            invariant
                map.wf(),
                map.width == v0.width,
                map.height == v0.height,
                map.r_list@ == v0.r_list@,
                map.max_room_size == v0.max_room_size,
                map.min_room_size == v0.min_room_size,
                map.max_rooms == v0.max_rooms,
                map.min_rooms == v0.min_rooms,
                room_wf(*self, v0.width as int, v0.height as int),
                0 <= yy <= self.height - 1,
                forall|i: int, j: int| v0.in_bounds(i, j)
                    ==> #[trigger] map.cord_char(i, j) == if self.x <= i < self.x + self.width - 1
                        && self.y <= j < self.y + yy {
                        *material
                    } else {
                        v0.cord_char(i, j)
                    },
            decreases self.height - 1 - yy,
        {
            let mut xx: i32 = 0;
            while xx < self.width - 1
                invariant
                    map.wf(),
                    map.width == v0.width,
                    map.height == v0.height,
                    map.r_list@ == v0.r_list@,
                    map.max_room_size == v0.max_room_size,
                    map.min_room_size == v0.min_room_size,
                    map.max_rooms == v0.max_rooms,
                    map.min_rooms == v0.min_rooms,
                    room_wf(*self, v0.width as int, v0.height as int),
                    0 <= yy < self.height - 1,
                    0 <= xx <= self.width - 1,
                    forall|i: int, j: int| v0.in_bounds(i, j)
                        ==> #[trigger] map.cord_char(i, j) == if self.x <= i < self.x + self.width
                            - 1 && (self.y <= j < self.y + yy || (j == self.y + yy && i < self.x
                            + xx)) {
                            *material
                        } else {
                            v0.cord_char(i, j)
                        },
                decreases self.width - 1 - xx,
            {
                let _ = map.set_cord((self.x + xx) as usize, (self.y + yy) as usize, *material);
                xx = xx + 1;
            }
            yy = yy + 1;
        }
    }
}


/// Scans the candidate's cells and their one-cell margin: returns true
/// only when none of them already holds the given material.
fn region_free(map: &Canvas, x: i32, y: i32, rw: i32, rh: i32, material: char) -> (free: bool)
    requires
        map.wf(),
        1 <= x,
        1 <= y,
        3 <= rw <= 4094,
        3 <= rh <= 4094,
        x + rw + 1 <= map.width as i32,
        y + rh + 1 <= map.height as i32,
    ensures
        free ==> forall|i: int, j: int| x - 1 <= i <= x + rw && y - 1 <= j <= y + rh
            ==> #[trigger] map.cord_char(i, j) != material,
{
    let mut free = true;
    let mut yy: i32 = y - 1;
    while yy < y + rh + 1
        invariant
            map.wf(),
            1 <= x,
            1 <= y,
            3 <= rw <= 4094,
            3 <= rh <= 4094,
            x + rw + 1 <= map.width as i32,
            y + rh + 1 <= map.height as i32,
            y - 1 <= yy <= y + rh + 1,
            free ==> forall|i: int, j: int| x - 1 <= i <= x + rw && y - 1 <= j < yy
                ==> #[trigger] map.cord_char(i, j) != material,
        decreases y + rh + 1 - yy,
    {
        let mut xx: i32 = x - 1;
        while xx < x + rw + 1
            invariant
                map.wf(),
                1 <= x,
                1 <= y,
                3 <= rw <= 4094,
                3 <= rh <= 4094,
                x + rw + 1 <= map.width as i32,
                y + rh + 1 <= map.height as i32,
                y - 1 <= yy <= y + rh,
                x - 1 <= xx <= x + rw + 1,
                free ==> forall|i: int, j: int|
                    (x - 1 <= i <= x + rw && y - 1 <= j < yy) || (j == yy && x - 1 <= i < xx)
                        ==> #[trigger] map.cord_char(i, j) != material,
            decreases x + rw + 1 - xx,
        {
            proof {
                assert(map.in_bounds(xx as int, yy as int));
            }
            let ghost was_free = free;
            match map.get_cord(xx as usize, yy as usize) {
                Some(m) => {
                    if m == material {
                        free = false;
                    }
                },
                None => {},
            }
            proof {
                if free {
                    assert forall|i: int, j: int|
                        (x - 1 <= i <= x + rw && y - 1 <= j < yy) || (j == yy && x - 1 <= i < xx
                            + 1) implies #[trigger] map.cord_char(i, j) != material by {
                    }
                }
            }
            xx = xx + 1;
        }
        proof {
            if free {
                assert forall|i: int, j: int| x - 1 <= i <= x + rw && y - 1 <= j < yy + 1
                    implies #[trigger] map.cord_char(i, j) != material by {
                }
            }
        }
        yy = yy + 1;
    }
    free
}

/// Joins each pair of successive rooms' centers: a vertical stroke to the
/// shared row, then a horizontal stroke along it.
fn draw_paths(map: &mut Canvas, textures: &TexturePack)
    requires
        old(map).wf(),
    ensures
        final(map).wf(),
        final(map).width == old(map).width,
        final(map).height == old(map).height,
        final(map).r_list@ == old(map).r_list@,
        final(map).max_room_size == old(map).max_room_size,
        final(map).min_room_size == old(map).min_room_size,
        final(map).max_rooms == old(map).max_rooms,
        final(map).min_rooms == old(map).min_rooms,
        forall|i: int, j: int| old(map).in_bounds(i, j) ==> #[trigger] final(map).cord_char(
            i,
            j,
        ) == old(map).cord_char(i, j) || final(map).cord_char(i, j) == textures.path,
{
    let ghost v0 = *old(map);
    let n = map.num_rooms();
    if n < 2 {
        return ;
    }
    let mut i: usize = 0;
    while i < n - 1
        invariant
            map.wf(),
            map.width == v0.width,
            map.height == v0.height,
            map.r_list@ == v0.r_list@,
            map.max_room_size == v0.max_room_size,
            map.min_room_size == v0.min_room_size,
            map.max_rooms == v0.max_rooms,
            map.min_rooms == v0.min_rooms,
            n == map.r_list@.len(),
            2 <= n,
            i <= n - 1,
            forall|a: int, b: int| v0.in_bounds(a, b) ==> #[trigger] map.cord_char(a, b)
                == v0.cord_char(a, b) || map.cord_char(a, b) == textures.path,
        decreases n - 1 - i,
    {
        proof {
            assert(room_wf(map.r_list@[i as int], map.width as int, map.height as int));
            assert(room_wf(map.r_list@[i + 1 as int], map.width as int, map.height as int));
        }
        let m1_x = map.r_list[i].middle[0];
        let m1_y = map.r_list[i].middle[1];
        let m2_x = map.r_list[i + 1].middle[0];
        let m2_y = map.r_list[i + 1].middle[1];
        let height: i32;
        if m1_y > m2_y {
            let mut hh: i32 = 0;
            while hh < m1_y - m2_y
                invariant
                    map.wf(),
                    map.width == v0.width,
                    map.height == v0.height,
                    map.r_list@ == v0.r_list@,
                    map.max_room_size == v0.max_room_size,
                    map.min_room_size == v0.min_room_size,
                    map.max_rooms == v0.max_rooms,
                    map.min_rooms == v0.min_rooms,
                    0 <= hh <= m1_y - m2_y,
                    1 <= m2_y,
                    m1_y < map.height,
                    1 <= m1_x < map.width,
                    forall|a: int, b: int| v0.in_bounds(a, b) ==> #[trigger] map.cord_char(
                        a,
                        b,
                    ) == v0.cord_char(a, b) || map.cord_char(a, b) == textures.path,
                decreases m1_y - m2_y - hh,
            {
                let ghost before = *map;
                let _ = map.set_cord(m1_x as usize, (hh + m2_y) as usize, textures.path);
                proof {
                    let cur = *map;
                    assert forall|a: int, b: int| v0.in_bounds(a, b)
                        implies #[trigger] cur.cord_char(a, b) == v0.cord_char(a, b)
                            || cur.cord_char(a, b) == textures.path by {
                        if cur.cord_char(a, b) != textures.path {
                            assert(cur.cord_char(a, b) == before.cord_char(a, b));
                            assert(before.cord_char(a, b) == v0.cord_char(a, b)
                                || before.cord_char(a, b) == textures.path);
                        }
                    }
                }
                hh = hh + 1;
            }
            height = m2_y;
        } else if m1_y < m2_y {
            let mut hh: i32 = 0;
            while hh < m2_y - m1_y
                invariant
                    map.wf(),
                    map.width == v0.width,
                    map.height == v0.height,
                    map.r_list@ == v0.r_list@,
                    map.max_room_size == v0.max_room_size,
                    map.min_room_size == v0.min_room_size,
                    map.max_rooms == v0.max_rooms,
                    map.min_rooms == v0.min_rooms,
                    0 <= hh <= m2_y - m1_y,
                    1 <= m1_y,
                    m2_y < map.height,
                    1 <= m2_x < map.width,
                    forall|a: int, b: int| v0.in_bounds(a, b) ==> #[trigger] map.cord_char(
                        a,
                        b,
                    ) == v0.cord_char(a, b) || map.cord_char(a, b) == textures.path,
                decreases m2_y - m1_y - hh,
            {
                let ghost before = *map;
                let _ = map.set_cord(m2_x as usize, (hh + m1_y) as usize, textures.path);
                proof {
                    let cur = *map;
                    assert forall|a: int, b: int| v0.in_bounds(a, b)
                        implies #[trigger] cur.cord_char(a, b) == v0.cord_char(a, b)
                            || cur.cord_char(a, b) == textures.path by {
                        if cur.cord_char(a, b) != textures.path {
                            assert(cur.cord_char(a, b) == before.cord_char(a, b));
                            assert(before.cord_char(a, b) == v0.cord_char(a, b)
                                || before.cord_char(a, b) == textures.path);
                        }
                    }
                }
                hh = hh + 1;
            }
            height = m1_y;
        } else {
            height = m1_y;
        }
        let mut start: i32;
        let destination: i32;
        if m2_x - m1_x > 0 {
            start = m1_x;
            destination = m2_x;
        } else {
            start = m2_x;
            destination = m1_x;
        }
        while start != destination
            invariant
                map.wf(),
                map.width == v0.width,
                map.height == v0.height,
                map.r_list@ == v0.r_list@,
                map.max_room_size == v0.max_room_size,
                map.min_room_size == v0.min_room_size,
                map.max_rooms == v0.max_rooms,
                map.min_rooms == v0.min_rooms,
                0 <= start <= destination,
                destination < map.width,
                0 <= height < map.height,
                forall|a: int, b: int| v0.in_bounds(a, b) ==> #[trigger] map.cord_char(a, b)
                    == v0.cord_char(a, b) || map.cord_char(a, b) == textures.path,
            decreases destination - start,
        {
            let ghost before = *map;
            let _ = map.set_cord(start as usize, height as usize, textures.path);
            proof {
                let cur = *map;
                assert forall|a: int, b: int| v0.in_bounds(a, b)
                    implies #[trigger] cur.cord_char(a, b) == v0.cord_char(a, b)
                        || cur.cord_char(a, b) == textures.path by {
                    if cur.cord_char(a, b) != textures.path {
                        assert(cur.cord_char(a, b) == before.cord_char(a, b));
                        assert(before.cord_char(a, b) == v0.cord_char(a, b)
                            || before.cord_char(a, b) == textures.path);
                    }
                }
            }
            start = start + 1;
        }
        i = i + 1;
    }
}

/// Clears the canvas, places a random number of non-overlapping rooms by
/// redrawing sizes and origins (bounded attempts, so an unplaceable room
/// ends the run instead of hanging it), then draws the connecting paths.
/// Returns how many rooms were placed.
pub fn run<R: RandomSource>(map: &mut Canvas, textures: &TexturePack, rng: &mut R) -> (placed:
    usize)
    requires
        old(map).wf(),
    ensures
        final(map).wf(),
        final(map).width == old(map).width,
        final(map).height == old(map).height,
        final(map).max_room_size == old(map).max_room_size,
        final(map).min_room_size == old(map).min_room_size,
        final(map).max_rooms == old(map).max_rooms,
        final(map).min_rooms == old(map).min_rooms,
        final(map).r_list@.len() == placed,
        placed < old(map).max_rooms,
        forall|i: int, j: int| final(map).in_bounds(i, j) ==> ({
            ||| #[trigger] final(map).cord_char(i, j) == textures.empty
            ||| final(map).cord_char(i, j) == textures.room
            ||| final(map).cord_char(i, j) == textures.path
        }),
        forall|ri: int, i: int, j: int|
            #![trigger final(map).r_list@[ri], final(map).cord_char(i, j)]
            0 <= ri < final(map).r_list@.len() && in_stamped(final(map).r_list@[ri], i, j)
                ==> final(map).cord_char(i, j) == textures.room || final(map).cord_char(i, j)
                == textures.path,
        rooms_apart(final(map).r_list@),
{
    let ghost v0 = *old(map);
    map.clear(&textures.empty);
    let w = map.width;
    let h = map.height;
    let min_size = map.min_room_size;
    let max_size = map.max_room_size;
    let target = rand_range_i32(rng, map.min_rooms, map.max_rooms);
    let mut placed: usize = 0;
    let mut attempts: u32 = 0;
    while placed < (target as usize) && attempts < ROOM_PLACE_ATTEMPTS
        invariant
            map.wf(),
            map.width == v0.width,
            map.height == v0.height,
            map.max_room_size == v0.max_room_size,
            map.min_room_size == v0.min_room_size,
            map.max_rooms == v0.max_rooms,
            map.min_rooms == v0.min_rooms,
            w == map.width,
            h == map.height,
            min_size == map.min_room_size,
            max_size == map.max_room_size,
            1 <= target < map.max_rooms,
            map.r_list@.len() == placed,
            placed <= target as usize,
            forall|i: int, j: int| map.in_bounds(i, j) ==> #[trigger] map.cord_char(i, j)
                == textures.empty || map.cord_char(i, j) == textures.room,
            forall|ri: int, i: int, j: int|
                #![trigger map.r_list@[ri], map.cord_char(i, j)]
                0 <= ri < map.r_list@.len() && in_stamped(map.r_list@[ri], i, j)
                    ==> map.cord_char(i, j) == textures.room,
            rooms_apart(map.r_list@),
        decreases ROOM_PLACE_ATTEMPTS - attempts,
    {
        attempts = attempts + 1;
        let room_width = rand_range_i32(rng, min_size, max_size);
        let room_height = rand_range_i32(rng, min_size, max_size);
        let x = rand_range_i32(rng, 1, (w as i32) - 1);
        let y = rand_range_i32(rng, 1, (h as i32) - 1);
        if x + room_width + 1 <= (w as i32) && y + room_height + 1 <= (h as i32) {
            let valid = region_free(map, x, y, room_width, room_height, textures.room);
            if valid {
                let mut middle: Vec<i32> = Vec::new();
                middle.push(x + room_width / 2);
                middle.push(y + room_height / 2);
                let new_room = Room { x, y, width: room_width, height: room_height, middle };
                let ghost nr = new_room;
                let ghost before = *map;
                proof {
                    assert(room_wf(new_room, w as int, h as int));
                }
                new_room.push_to_map(map, &textures.room);
                let ghost mid = *map;
                map.push_room(new_room);
                placed = placed + 1;
                proof {
                    let cur = *map;
                    assert forall|ri: int| 0 <= ri < before.r_list@.len()
                        implies rooms_apart_pair(#[trigger] before.r_list@[ri], nr) by {
                        let a = before.r_list@[ri];
                        if !rooms_apart_pair(a, nr) {
                            let px: int = if nr.x - 1 >= a.x {
                                nr.x - 1
                            } else {
                                a.x as int
                            };
                            let py: int = if nr.y - 1 >= a.y {
                                nr.y - 1
                            } else {
                                a.y as int
                            };
                            assert(in_stamped(a, px, py));
                            assert(before.cord_char(px, py) == textures.room);
                            assert(x - 1 <= px <= x + room_width && y - 1 <= py <= y
                                + room_height);
                            assert(before.cord_char(px, py) != textures.room);
                        }
                    }
                    assert forall|i: int, j: int|
                        0 <= i < cur.r_list@.len() && 0 <= j < cur.r_list@.len() && i != j
                            implies #[trigger] rooms_apart_pair(
                        cur.r_list@[i],
                        cur.r_list@[j],
                    ) by {
                        if i < cur.r_list@.len() - 1 && j < cur.r_list@.len() - 1 {
                            assert(rooms_apart_pair(before.r_list@[i], before.r_list@[j]));
                        } else if i < cur.r_list@.len() - 1 {
                            assert(rooms_apart_pair(before.r_list@[i], nr));
                        } else {
                            assert(rooms_apart_pair(before.r_list@[j], nr));
                        }
                    }
                    assert forall|i: int, j: int| cur.in_bounds(i, j)
                        implies #[trigger] cur.cord_char(i, j) == textures.empty
                            || cur.cord_char(i, j) == textures.room by {
                        assert(cur.cord_char(i, j) == mid.cord_char(i, j));
                        if !in_stamped(nr, i, j) {
                            assert(mid.cord_char(i, j) == before.cord_char(i, j));
                        }
                    }
                    assert forall|ri: int, i: int, j: int|
                        #![trigger cur.r_list@[ri], cur.cord_char(i, j)]
                        0 <= ri < cur.r_list@.len() && in_stamped(cur.r_list@[ri], i, j)
                            implies cur.cord_char(i, j) == textures.room by {
                        assert(cur.cord_char(i, j) == mid.cord_char(i, j));
                        if !in_stamped(nr, i, j) {
                            assert(ri < before.r_list@.len());
                            assert(cur.r_list@[ri] == before.r_list@[ri]);
                            assert(before.cord_char(i, j) == textures.room);
                            assert(mid.cord_char(i, j) == before.cord_char(i, j));
                        }
                    }
                }
            }
        }
    }
    let ghost pre_draw = *map;
    draw_paths(map, textures);
    proof {
        let cur = *map;
        assert forall|i: int, j: int| cur.in_bounds(i, j) implies ({
            ||| #[trigger] cur.cord_char(i, j) == textures.empty
            ||| cur.cord_char(i, j) == textures.room
            ||| cur.cord_char(i, j) == textures.path
        }) by {
            if cur.cord_char(i, j) != textures.path {
                assert(cur.cord_char(i, j) == pre_draw.cord_char(i, j));
                assert(pre_draw.cord_char(i, j) == textures.empty || pre_draw.cord_char(i, j)
                    == textures.room);
            }
        }
        assert forall|ri: int, i: int, j: int|
            #![trigger cur.r_list@[ri], cur.cord_char(i, j)]
            0 <= ri < cur.r_list@.len() && in_stamped(cur.r_list@[ri], i, j)
                implies cur.cord_char(i, j) == textures.room || cur.cord_char(i, j)
                == textures.path by {
            if cur.cord_char(i, j) != textures.path {
                assert(room_wf(cur.r_list@[ri], cur.width as int, cur.height as int));
                assert(cur.cord_char(i, j) == pre_draw.cord_char(i, j));
                assert(pre_draw.r_list@[ri] == cur.r_list@[ri]);
                assert(pre_draw.cord_char(i, j) == textures.room);
            }
        }
    }
    placed
}

/// Fills the sink with the heuristic placer's statistics: how many rooms
/// stand and their total area, both as exact decimal strings.
pub fn update_data_list(map: &Canvas, data: &mut Vec<(&'static str, String)>)
    requires
        map.wf(),
    ensures
        final(data)@.len() == 2,
        final(data)@[0].0@ == "Number of Rooms"@,
        final(data)@[0].1@ == spec_decimal(map.r_list@.len()),
        final(data)@[1].0@ == "Total Room Surface Area"@,
        final(data)@[1].1@ == spec_decimal(spec_room_sa(map.r_list@) as nat),
{
    data.clear();
    data.push(("Number of Rooms", u64_to_string(map.num_rooms() as u64)));
    data.push(("Total Room Surface Area", u64_to_string(map.room_sa())));
}

} // verus!
