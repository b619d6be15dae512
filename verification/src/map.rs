//! The dungeon: a tile grid, the accepted rooms in carving order, and the
//! randomized generator that carves rooms and L-shaped corridors.

use vstd::prelude::*;
use crate::config::Config;
use crate::rect::Rect;
use crate::rng::{rng_coin, rng_range};
use crate::tile::Tile;

verus! {

/// A walkable, see-through, unexplored cell, as carving leaves it.
pub open spec fn empty_tile() -> Tile {
    Tile { blocked: false, block_sight: false, explored: false }
}

/// A solid wall cell, as the grid starts out.
pub open spec fn wall_tile() -> Tile {
    Tile { blocked: true, block_sight: true, explored: false }
}

/// `(x, y)` is a walkable interior cell of `r` (the ring `x1`, `y1`, `x2`,
/// `y2` itself stays wall).
pub open spec fn room_interior(r: Rect, x: int, y: int) -> bool {
    r.x1 < x < r.x2 && r.y1 < y < r.y2
}

/// The tile grid (`tiles[x][y]`), the accepted rooms in carving order
/// (order matters: corridors join each room to the previously accepted
/// one), and the grid's fixed dimensions.
pub struct GameMap {
    pub tiles: Vec<Vec<Tile>>,
    pub rooms: Vec<Rect>,
    pub width: i32,
    pub height: i32,
}

/// The mathematical value of a [`GameMap`].
#[verifier::ext_equal]
pub ghost struct MapView {
    pub tiles: Seq<Seq<Tile>>,
    pub rooms: Seq<Rect>,
    pub width: int,
    pub height: int,
}

impl View for GameMap {
    type V = MapView;

    open spec fn view(&self) -> MapView {
        MapView {
            tiles: Seq::new(self.tiles@.len() as nat, |i: int| self.tiles@[i]@),
            rooms: self.rooms@,
            width: self.width as int,
            height: self.height as int,
        }
    }
}

impl MapView {
    pub open spec fn in_bounds(self, x: int, y: int) -> bool {
        0 <= x < self.width && 0 <= y < self.height
    }

    pub open spec fn tile_at(self, x: int, y: int) -> Tile {
        self.tiles[x][y]
    }

    /// The grid really is `width` columns of `height` cells, both within
    /// machine-friendly bounds.
    pub open spec fn dims_ok(self) -> bool {
        &&& 3 <= self.width <= 1024
        &&& 3 <= self.height <= 1024
        &&& self.tiles.len() == self.width
        &&& forall|x: int| 0 <= x < self.width ==> (#[trigger] self.tiles[x]).len() == self.height
    }

    /// The outermost ring of cells is solid wall.
    pub open spec fn border_blocked(self) -> bool {
        forall|x: int, y: int|
            self.in_bounds(x, y) && (x == 0 || y == 0 || x == self.width - 1 || y == self.height
                - 1) ==> (#[trigger] self.tile_at(x, y)).blocked
    }

    /// The room's ring fits the grid with at least one interior cell and
    /// never touches the outermost ring.
    pub open spec fn room_in_bounds(self, r: Rect) -> bool {
        &&& 0 <= r.x1
        &&& r.x1 + 2 <= r.x2
        &&& r.x2 <= self.width - 1
        &&& 0 <= r.y1
        &&& r.y1 + 2 <= r.y2
        &&& r.y2 <= self.height - 1
    }

    pub open spec fn rooms_ok(self) -> bool {
        forall|i: int| 0 <= i < self.rooms.len() ==> self.room_in_bounds(#[trigger] self.rooms[i])
    }

    /// No two accepted rooms overlap, edges included: rooms keep a one-tile
    /// gap and never share a wall.
    pub open spec fn rooms_disjoint(self) -> bool {
        forall|i: int, j: int|
            0 <= i < j < self.rooms.len() ==> !(#[trigger] self.rooms[i].spec_intersects(
                self.rooms[j],
            ))
    }

    /// Every accepted room's interior is carved: walkable and see-through.
    pub open spec fn rooms_carved(self) -> bool {
        forall|i: int, x: int, y: int|
            #![trigger self.rooms[i], self.tile_at(x, y)]
            0 <= i < self.rooms.len() && room_interior(self.rooms[i], x, y) ==> !self.tile_at(
                x,
                y,
            ).blocked && !self.tile_at(x, y).block_sight
    }

    pub open spec fn wf(self) -> bool {
        &&& self.dims_ok()
        &&& self.border_blocked()
        &&& self.rooms_ok()
        &&& self.rooms_disjoint()
        &&& self.rooms_carved()
    }
}

/// One king-move-free step: the two cells share an edge.
pub open spec fn adjacent_cells(a: (int, int), b: (int, int)) -> bool {
    ||| (a.0 == b.0 && (a.1 == b.1 + 1 || b.1 == a.1 + 1))
    ||| (a.1 == b.1 && (a.0 == b.0 + 1 || b.0 == a.0 + 1))
}

/// The cell is on the grid and walkable.
pub open spec fn cell_clear(m: MapView, x: int, y: int) -> bool {
    m.in_bounds(x, y) && !m.tile_at(x, y).blocked
}

/// `p` is a walk over in-bounds, unblocked cells, each step to an
/// edge-adjacent cell.
pub open spec fn is_clear_path(m: MapView, p: Seq<(int, int)>) -> bool {
    &&& p.len() >= 1
    &&& forall|k: int|
        0 <= k < p.len() ==> m.in_bounds((#[trigger] p[k]).0, p[k].1) && !m.tile_at(
            p[k].0,
            p[k].1,
        ).blocked
    &&& forall|k: int| 0 <= k < p.len() - 1 ==> adjacent_cells(#[trigger] p[k], p[k + 1])
}

pub open spec fn connects(m: MapView, p: Seq<(int, int)>, a: (int, int), b: (int, int)) -> bool {
    is_clear_path(m, p) && p.first() == a && p.last() == b
}

/// Room `i`'s center is reachable from room `i - 1`'s center over unblocked
/// cells.
pub open spec fn room_pair_connected(m: MapView, i: int) -> bool {
    exists|p: Seq<(int, int)>|
        #[trigger] connects(m, p, m.rooms[i - 1].spec_center(), m.rooms[i].spec_center())
}

/// Every room's center is reachable from the previous room's center.
pub open spec fn rooms_connected(m: MapView) -> bool {
    forall|i: int| 1 <= i < m.rooms.len() ==> #[trigger] room_pair_connected(m, i)
}

/// The cells of the horizontal segment from `(xa, y)` to `(xb, y)`,
/// endpoints included, walking one cell at a time.
pub open spec fn h_seg(xa: int, xb: int, y: int) -> Seq<(int, int)>
    decreases (if xa <= xb {
        xb - xa
    } else {
        xa - xb
    }),
{
    if xa == xb {
        seq![(xa, y)]
    } else if xa < xb {
        seq![(xa, y)] + h_seg(xa + 1, xb, y)
    } else {
        seq![(xa, y)] + h_seg(xa - 1, xb, y)
    }
}

/// The cells of the vertical segment from `(x, ya)` to `(x, yb)`,
/// endpoints included, walking one cell at a time.
pub open spec fn v_seg(ya: int, yb: int, x: int) -> Seq<(int, int)>
    decreases (if ya <= yb {
        yb - ya
    } else {
        ya - yb
    }),
{
    if ya == yb {
        seq![(x, ya)]
    } else if ya < yb {
        seq![(x, ya)] + v_seg(ya + 1, yb, x)
    } else {
        seq![(x, ya)] + v_seg(ya - 1, yb, x)
    }
}

/// A horizontal segment over unblocked cells is a clear walk between its
/// endpoints.
proof fn lemma_h_seg_connects(m: MapView, xa: int, xb: int, y: int)
    requires
        forall|x: int| (xa <= x <= xb || xb <= x <= xa) ==> #[trigger] cell_clear(m, x, y),
    ensures
        connects(m, h_seg(xa, xb, y), (xa, y), (xb, y)),
    decreases (if xa <= xb {
        xb - xa
    } else {
        xa - xb
    }),
{
    let p = h_seg(xa, xb, y);
    assert(cell_clear(m, xa, y));
    if xa == xb {
    } else {
        let xn = if xa < xb {
            xa + 1
        } else {
            xa - 1
        };
        lemma_h_seg_connects(m, xn, xb, y);
        let rest = h_seg(xn, xb, y);
        assert(p == seq![(xa, y)] + rest);
        assert forall|k: int|
            0 <= k < p.len() implies m.in_bounds((#[trigger] p[k]).0, p[k].1) && !m.tile_at(
            p[k].0,
            p[k].1,
        ).blocked by {
            if k == 0 {
                assert(p[k] == (xa, y));
            } else {
                assert(p[k] == rest[k - 1]);
            }
        }
        assert forall|k: int| 0 <= k < p.len() - 1 implies adjacent_cells(
            #[trigger] p[k],
            p[k + 1],
        ) by {
            if k == 0 {
                assert(p[0] == (xa, y));
                assert(p[1] == rest[0]);
                assert(rest[0] == (xn, y));
            } else {
                assert(p[k] == rest[k - 1]);
                assert(p[k + 1] == rest[k]);
            }
        }
        assert(p.last() == rest.last());
    }
}

/// A vertical segment over unblocked cells is a clear walk between its
/// endpoints.
proof fn lemma_v_seg_connects(m: MapView, ya: int, yb: int, x: int)
    requires
        forall|y: int| (ya <= y <= yb || yb <= y <= ya) ==> #[trigger] cell_clear(m, x, y),
    ensures
        connects(m, v_seg(ya, yb, x), (x, ya), (x, yb)),
    decreases (if ya <= yb {
        yb - ya
    } else {
        ya - yb
    }),
{
    let p = v_seg(ya, yb, x);
    assert(cell_clear(m, x, ya));
    if ya == yb {
    } else {
        let yn = if ya < yb {
            ya + 1
        } else {
            ya - 1
        };
        lemma_v_seg_connects(m, yn, yb, x);
        let rest = v_seg(yn, yb, x);
        assert(p == seq![(x, ya)] + rest);
        assert forall|k: int|
            0 <= k < p.len() implies m.in_bounds((#[trigger] p[k]).0, p[k].1) && !m.tile_at(
            p[k].0,
            p[k].1,
        ).blocked by {
            if k == 0 {
                assert(p[k] == (x, ya));
            } else {
                assert(p[k] == rest[k - 1]);
            }
        }
        assert forall|k: int| 0 <= k < p.len() - 1 implies adjacent_cells(
            #[trigger] p[k],
            p[k + 1],
        ) by {
            if k == 0 {
                assert(p[0] == (x, ya));
                assert(p[1] == rest[0]);
                assert(rest[0] == (x, yn));
            } else {
                assert(p[k] == rest[k - 1]);
                assert(p[k + 1] == rest[k]);
            }
        }
        assert(p.last() == rest.last());
    }
}

/// Two clear walks that meet end-to-start join into one clear walk.
proof fn lemma_path_join(
    m: MapView,
    p1: Seq<(int, int)>,
    p2: Seq<(int, int)>,
    a: (int, int),
    mid: (int, int),
    b: (int, int),
)
    requires
        connects(m, p1, a, mid),
        connects(m, p2, mid, b),
    ensures
        connects(m, p1 + p2.drop_first(), a, b),
{
    let p = p1 + p2.drop_first();
    if p2.len() == 1 {
        assert(p =~= p1);
        assert(p2.last() == p2.first());
    } else {
        assert forall|k: int|
            0 <= k < p.len() implies m.in_bounds((#[trigger] p[k]).0, p[k].1) && !m.tile_at(
            p[k].0,
            p[k].1,
        ).blocked by {
            if k < p1.len() {
                assert(p[k] == p1[k]);
            } else {
                assert(p[k] == p2[k - p1.len() + 1]);
            }
        }
        assert forall|k: int| 0 <= k < p.len() - 1 implies adjacent_cells(
            #[trigger] p[k],
            p[k + 1],
        ) by {
            if k < p1.len() - 1 {
                assert(p[k] == p1[k]);
                assert(p[k + 1] == p1[k + 1]);
            } else if k == p1.len() - 1 {
                assert(p[k] == p1[p1.len() - 1]);
                assert(p1.last() == p2.first());
                assert(p[k + 1] == p2[1]);
                assert(adjacent_cells(p2[0], p2[1]));
            } else {
                assert(p[k] == p2[k - p1.len() + 1]);
                assert(p[k + 1] == p2[k - p1.len() + 2]);
                assert(adjacent_cells(p2[k - p1.len() + 1], p2[k - p1.len() + 2]));
            }
        }
        assert(p.last() == p2.last());
    }
}

/// Carving only ever clears obstruction, so every established connection
/// between room centers stays valid.
proof fn lemma_unblocking_preserves_connected(m1: MapView, m2: MapView)
    requires
        m1.width == m2.width,
        m1.height == m2.height,
        m1.rooms == m2.rooms,
        forall|x: int, y: int|
            #![trigger m1.tile_at(x, y)]
            #![trigger m2.tile_at(x, y)]
            m1.in_bounds(x, y) && !m1.tile_at(x, y).blocked ==> !m2.tile_at(x, y).blocked,
        rooms_connected(m1),
    ensures
        rooms_connected(m2),
{
    assert forall|i: int| 1 <= i < m2.rooms.len() implies #[trigger] room_pair_connected(
        m2,
        i,
    ) by {
        assert(room_pair_connected(m1, i));
        let p = choose|p: Seq<(int, int)>|
            #[trigger] connects(m1, p, m1.rooms[i - 1].spec_center(), m1.rooms[i].spec_center());
        assert forall|k: int|
            0 <= k < p.len() implies m2.in_bounds((#[trigger] p[k]).0, p[k].1) && !m2.tile_at(
            p[k].0,
            p[k].1,
        ).blocked by {
            assert(m1.in_bounds(p[k].0, p[k].1) && !m1.tile_at(p[k].0, p[k].1).blocked);
        }
        assert(connects(m2, p, m2.rooms[i - 1].spec_center(), m2.rooms[i].spec_center()));
    }
}

/// Walks only look at the tile grid, not at the room list.
proof fn lemma_same_tiles_connects(
    m1: MapView,
    m2: MapView,
    p: Seq<(int, int)>,
    a: (int, int),
    b: (int, int),
)
    requires
        m1.tiles == m2.tiles,
        m1.width == m2.width,
        m1.height == m2.height,
        connects(m1, p, a, b),
    ensures
        connects(m2, p, a, b),
{
    assert forall|k: int|
        0 <= k < p.len() implies m2.in_bounds((#[trigger] p[k]).0, p[k].1) && !m2.tile_at(
        p[k].0,
        p[k].1,
    ).blocked by {
        assert(m1.in_bounds(p[k].0, p[k].1) && !m1.tile_at(p[k].0, p[k].1).blocked);
    }
}

/// A room's center lies strictly inside its ring.
pub proof fn lemma_center_in_room(r: Rect)
    requires
        0 <= r.x1,
        r.x1 + 2 <= r.x2,
        0 <= r.y1,
        r.y1 + 2 <= r.y2,
    ensures
        r.x1 < r.spec_center().0 < r.x2,
        r.y1 < r.spec_center().1 < r.y2,
{
    let sx = r.x1 + r.x2;
    assert(sx == 2 * (sx / 2) + sx % 2);
    let sy = r.y1 + r.y2;
    assert(sy == 2 * (sy / 2) + sy % 2);
}

/// Carving steps of the generator only turn strictly-interior cells into
/// empty floor; everything the map promises survives such a step.
proof fn lemma_interior_carve_preserves(m0: MapView, m1: MapView)
    requires
        m0.wf(),
        rooms_connected(m0),
        m1.dims_ok(),
        m1.width == m0.width,
        m1.height == m0.height,
        m1.rooms == m0.rooms,
        forall|x: int, y: int|
            #![trigger m1.tile_at(x, y)]
            m0.in_bounds(x, y) ==> (m1.tile_at(x, y) == m0.tile_at(x, y) || (m1.tile_at(x, y)
                == empty_tile() && 1 <= x <= m0.width - 2 && 1 <= y <= m0.height - 2)),
    ensures
        m1.wf(),
        rooms_connected(m1),
{
    assert forall|x: int, y: int|
        m1.in_bounds(x, y) && (x == 0 || y == 0 || x == m1.width - 1 || y == m1.height
            - 1) implies (#[trigger] m1.tile_at(x, y)).blocked by {
        assert(m0.in_bounds(x, y));
        assert(m0.tile_at(x, y).blocked);
        assert(m1.tile_at(x, y) == m0.tile_at(x, y));
    }
    assert forall|i: int, x: int, y: int|
        #![trigger m1.rooms[i], m1.tile_at(x, y)]
        0 <= i < m1.rooms.len() && room_interior(m1.rooms[i], x, y) implies !m1.tile_at(
        x,
        y,
    ).blocked && !m1.tile_at(x, y).block_sight by {
        assert(m0.room_in_bounds(m0.rooms[i]));
        assert(m0.in_bounds(x, y));
        assert(!(m0.tile_at(x, y)).blocked && !(m0.tile_at(x, y)).block_sight);
    }
    assert forall|i: int| 0 <= i < m1.rooms.len() implies m1.room_in_bounds(
        #[trigger] m1.rooms[i],
    ) by {
        assert(m0.room_in_bounds(m0.rooms[i]));
    }
    assert forall|i: int, j: int|
        0 <= i < j < m1.rooms.len() implies !(#[trigger] m1.rooms[i].spec_intersects(
        m1.rooms[j],
    )) by {
        assert(!m0.rooms[i].spec_intersects(m0.rooms[j]));
    }
    assert forall|x: int, y: int|
        #![trigger m1.tile_at(x, y)]
        #![trigger m0.tile_at(x, y)]
        m0.in_bounds(x, y) && !m0.tile_at(x, y).blocked implies !m1.tile_at(x, y).blocked by {}
    lemma_unblocking_preserves_connected(m0, m1);
}

impl GameMap {
    /// Overwrite the tile at `(x, y)`.
    fn set_tile(&mut self, x: i32, y: i32, t: Tile)
        requires
            old(self)@.dims_ok(),
            0 <= x < old(self)@.width,
            0 <= y < old(self)@.height,
        ensures
            final(self)@.width == old(self)@.width,
            final(self)@.height == old(self)@.height,
            final(self)@.rooms == old(self)@.rooms,
            final(self)@.dims_ok(),
            forall|a: int, b: int|
                old(self)@.in_bounds(a, b) ==> #[trigger] final(self)@.tile_at(a, b) == (
                if a == x && b == y {
                    t
                } else {
                    old(self)@.tile_at(a, b)
                }),
    {
        proof {
            assert(self@.tiles.len() == self.tiles@.len());
            assert(self@.tiles[x as int] == self.tiles@[x as int]@);
        }
        self.tiles[x as usize][y as usize] = t;
        proof {
            assert(self.tiles@.len() == old(self).tiles@.len());
            assert(self.tiles@[x as int]@.len() == old(self).tiles@[x as int]@.len());
            assert forall|i: int| 0 <= i < self@.width implies (#[trigger] self@.tiles[i]).len()
                == old(self)@.height by {
                assert(self@.tiles[i] == self.tiles@[i]@);
                assert(old(self)@.tiles[i] == old(self).tiles@[i]@);
                if i != x as int {
                    assert(self.tiles@[i] == old(self).tiles@[i]);
                } else {
                    assert(self.tiles@[i]@.len() == old(self).tiles@[i]@.len());
                }
            }
            assert forall|a: int, b: int| old(self)@.in_bounds(a, b) implies #[trigger] self@.tile_at(
                a,
                b,
            ) == (if a == x && b == y {
                t
            } else {
                old(self)@.tile_at(a, b)
            }) by {
                assert(self@.tiles[a] == self.tiles@[a]@);
                assert(old(self)@.tiles[a] == old(self).tiles@[a]@);
                if a != x as int {
                    assert(self.tiles@[a] == old(self).tiles@[a]);
                }
            }
        }
    }

    /// Carve the interior of `room` to empty floor.
    fn create_room(&mut self, room: Rect)
        requires
            old(self)@.dims_ok(),
            old(self)@.room_in_bounds(room),
        ensures
            final(self)@.width == old(self)@.width,
            final(self)@.height == old(self)@.height,
            final(self)@.rooms == old(self)@.rooms,
            final(self)@.dims_ok(),
            forall|a: int, b: int|
                old(self)@.in_bounds(a, b) ==> #[trigger] final(self)@.tile_at(a, b) == (
                if room_interior(room, a, b) {
                    empty_tile()
                } else {
                    old(self)@.tile_at(a, b)
                }),
    {
        let mut x = room.x1 + 1;
        while x < room.x2
            invariant
                old(self)@.dims_ok(),
                old(self)@.room_in_bounds(room),
                room.x1 < x <= room.x2,
                self@.width == old(self)@.width,
                self@.height == old(self)@.height,
                self@.rooms == old(self)@.rooms,
                self@.dims_ok(),
                forall|a: int, b: int|
                    old(self)@.in_bounds(a, b) ==> #[trigger] self@.tile_at(a, b) == (
                    if room_interior(room, a, b) && a < x {
                        empty_tile()
                    } else {
                        old(self)@.tile_at(a, b)
                    }),
            decreases room.x2 - x,
        {
            let mut y = room.y1 + 1;
            while y < room.y2
                invariant
                    old(self)@.dims_ok(),
                    old(self)@.room_in_bounds(room),
                    room.x1 < x < room.x2,
                    room.y1 < y <= room.y2,
                    self@.width == old(self)@.width,
                    self@.height == old(self)@.height,
                    self@.rooms == old(self)@.rooms,
                    self@.dims_ok(),
                    forall|a: int, b: int|
                        old(self)@.in_bounds(a, b) ==> #[trigger] self@.tile_at(a, b) == (
                        if room_interior(room, a, b) && (a < x || (a == x && b < y)) {
                            empty_tile()
                        } else {
                            old(self)@.tile_at(a, b)
                        }),
                decreases room.y2 - y,
            {
                self.set_tile(x, y, Tile::empty());
                y += 1;
            }
            x += 1;
        }
    }

    /// Carve a one-tile-high horizontal corridor covering every `x` between
    /// `x1` and `x2` inclusive, at row `y`.
    fn create_h_tunnel(&mut self, x1: i32, x2: i32, y: i32)
        requires
            old(self)@.dims_ok(),
            0 <= x1 < old(self)@.width,
            0 <= x2 < old(self)@.width,
            0 <= y < old(self)@.height,
        ensures
            final(self)@.width == old(self)@.width,
            final(self)@.height == old(self)@.height,
            final(self)@.rooms == old(self)@.rooms,
            final(self)@.dims_ok(),
            forall|a: int, b: int|
                old(self)@.in_bounds(a, b) ==> #[trigger] final(self)@.tile_at(a, b) == (
                if b == y && (x1 <= a <= x2 || x2 <= a <= x1) {
                    empty_tile()
                } else {
                    old(self)@.tile_at(a, b)
                }),
    {
        let lo = if x1 <= x2 {
            x1
        } else {
            x2
        };
        let hi = if x1 <= x2 {
            x2
        } else {
            x1
        };
        let mut x = lo;
        while x <= hi
            invariant
                old(self)@.dims_ok(),
                0 <= lo <= x,
                x <= hi + 1,
                hi < old(self)@.width,
                0 <= y < old(self)@.height,
                lo == if x1 <= x2 { x1 } else { x2 },
                hi == if x1 <= x2 { x2 } else { x1 },
                self@.width == old(self)@.width,
                self@.height == old(self)@.height,
                self@.rooms == old(self)@.rooms,
                self@.dims_ok(),
                forall|a: int, b: int|
                    old(self)@.in_bounds(a, b) ==> #[trigger] self@.tile_at(a, b) == (
                    if b == y && lo <= a < x {
                        empty_tile()
                    } else {
                        old(self)@.tile_at(a, b)
                    }),
            decreases hi + 1 - x,
        {
            self.set_tile(x, y, Tile::empty());
            x += 1;
        }
    }

    /// Carve a one-tile-wide vertical corridor covering every `y` between
    /// `y1` and `y2` inclusive, at column `x`.
    fn create_v_tunnel(&mut self, y1: i32, y2: i32, x: i32)
        requires
            old(self)@.dims_ok(),
            0 <= y1 < old(self)@.height,
            0 <= y2 < old(self)@.height,
            0 <= x < old(self)@.width,
        ensures
            final(self)@.width == old(self)@.width,
            final(self)@.height == old(self)@.height,
            final(self)@.rooms == old(self)@.rooms,
            final(self)@.dims_ok(),
            forall|a: int, b: int|
                old(self)@.in_bounds(a, b) ==> #[trigger] final(self)@.tile_at(a, b) == (
                if a == x && (y1 <= b <= y2 || y2 <= b <= y1) {
                    empty_tile()
                } else {
                    old(self)@.tile_at(a, b)
                }),
    {
        let lo = if y1 <= y2 {
            y1
        } else {
            y2
        };
        let hi = if y1 <= y2 {
            y2
        } else {
            y1
        };
        let mut y = lo;
        while y <= hi
            invariant
                old(self)@.dims_ok(),
                0 <= lo <= y,
                y <= hi + 1,
                hi < old(self)@.height,
                0 <= x < old(self)@.width,
                lo == if y1 <= y2 { y1 } else { y2 },
                hi == if y1 <= y2 { y2 } else { y1 },
                self@.width == old(self)@.width,
                self@.height == old(self)@.height,
                self@.rooms == old(self)@.rooms,
                self@.dims_ok(),
                forall|a: int, b: int|
                    old(self)@.in_bounds(a, b) ==> #[trigger] self@.tile_at(a, b) == (
                    if a == x && lo <= b < y {
                        empty_tile()
                    } else {
                        old(self)@.tile_at(a, b)
                    }),
            decreases hi + 1 - y,
        {
            self.set_tile(x, y, Tile::empty());
            y += 1;
        }
    }

    /// Read the tile at `(x, y)`.
    pub fn get_tile(&self, x: i32, y: i32) -> (t: Tile)
        requires
            self@.dims_ok(),
            self@.in_bounds(x as int, y as int),
        ensures
            t == self@.tile_at(x as int, y as int),
    {
        proof {
            assert(self@.tiles.len() == self.tiles@.len());
            assert(self@.tiles[x as int] == self.tiles@[x as int]@);
        }
        self.tiles[x as usize][y as usize]
    }

    /// Mark the cell as seen. Exploration is monotone: this only ever
    /// raises the flag, and it touches nothing the map promises about
    /// obstruction, rooms or connectivity.
    pub fn set_explored(&mut self, x: i32, y: i32)
        requires
            old(self)@.dims_ok(),
            old(self)@.in_bounds(x as int, y as int),
        ensures
            final(self)@.width == old(self)@.width,
            final(self)@.height == old(self)@.height,
            final(self)@.rooms == old(self)@.rooms,
            final(self)@.dims_ok(),
            forall|a: int, b: int|
                old(self)@.in_bounds(a, b) ==> #[trigger] final(self)@.tile_at(a, b) == (
                if a == x && b == y {
                    Tile { explored: true, ..old(self)@.tile_at(a, b) }
                } else {
                    old(self)@.tile_at(a, b)
                }),
    {
        let mut t = self.get_tile(x, y);
        t.explored = true;
        self.set_tile(x, y, t);
    }

    /// Generate a dungeon. Up to `max_rooms` candidate rooms are sampled;
    /// a candidate that overlaps an already accepted room is rejected, not
    /// retried. Each accepted room's interior is carved to floor, and each
    /// room after the first is joined to the previously accepted room by an
    /// L-shaped corridor whose bend direction a coin flip picks. Should
    /// every candidate be rejected, one fixed room is carved instead, so
    /// the map never comes back without a room.
    pub fn new(cfg: &Config, rng: &mut rand::rngs::StdRng) -> (map: GameMap)
        requires
            cfg.wf(),
        ensures
            map@.wf(),
            map@.width == cfg.map_width as int,
            map@.height == cfg.map_height as int,
            1 <= map@.rooms.len(),
            rooms_connected(map@),
    {
        let mut tiles: Vec<Vec<Tile>> = Vec::new();
        let mut gx: i32 = 0;
        while gx < cfg.map_width
            invariant
                cfg.wf(),
                0 <= gx <= cfg.map_width,
                tiles@.len() == gx as int,
                forall|a: int|
                    0 <= a < gx as int ==> (#[trigger] tiles@[a])@.len() == cfg.map_height as int,
                forall|a: int, b: int|
                    #![trigger tiles@[a]@[b]]
                    0 <= a < gx as int && 0 <= b < cfg.map_height as int ==> tiles@[a]@[b]
                        == wall_tile(),
            decreases cfg.map_width - gx,
        {
            let mut col: Vec<Tile> = Vec::new();
            let mut gy: i32 = 0;
            while gy < cfg.map_height
                invariant
                    0 <= gy <= cfg.map_height,
                    col@.len() == gy as int,
                    forall|b: int| 0 <= b < gy as int ==> #[trigger] col@[b] == wall_tile(),
                decreases cfg.map_height - gy,
            {
                col.push(Tile::wall());
                gy += 1;
            }
            tiles.push(col);
            gx += 1;
        }

        let mut map = GameMap {
            tiles,
            rooms: Vec::new(),
            width: cfg.map_width,
            height: cfg.map_height,
        };
        proof {
            assert forall|x: int| 0 <= x < map@.width implies (#[trigger] map@.tiles[x]).len()
                == map@.height by {
                assert(map@.tiles[x] == map.tiles@[x]@);
            }
            assert(map@.dims_ok());
            assert forall|x: int, y: int|
                map@.in_bounds(x, y) && (x == 0 || y == 0 || x == map@.width - 1 || y == map@.height
                    - 1) implies (#[trigger] map@.tile_at(x, y)).blocked by {
                assert(map@.tiles[x] == map.tiles@[x]@);
                assert(map.tiles@[x]@[y] == wall_tile());
            }
            assert(map@.wf());
        }

        let mut i: u32 = 0;
        while i < cfg.max_rooms
            invariant
                cfg.wf(),
                map@.wf(),
                map@.width == cfg.map_width as int,
                map@.height == cfg.map_height as int,
                rooms_connected(map@),
            decreases cfg.max_rooms - i,
        {
            let rw = rng_range(rng, cfg.room_min_size, cfg.room_max_size + 1);
            let rh = rng_range(rng, cfg.room_min_size, cfg.room_max_size + 1);
            let rx = rng_range(rng, 0, cfg.map_width - rw);
            let ry = rng_range(rng, 0, cfg.map_height - rh);

            let new_room = Rect::new(rx, ry, rw, rh);
            proof {
                assert(map@.room_in_bounds(new_room));
            }

            let mut failed = false;
            let mut j: usize = 0;
            while j < map.rooms.len()
                invariant
                    j <= map.rooms@.len(),
                    failed <==> exists|k: int|
                        0 <= k < j as int && #[trigger] new_room.spec_intersects(map.rooms@[k]),
                decreases map.rooms@.len() - j,
            {
                let other = map.rooms[j];
                if new_room.intersects_with(&other) {
                    failed = true;
                }
                j += 1;
            }

            if !failed {
                let ghost m0 = map@;
                map.create_room(new_room);
                proof {
                    assert forall|x: int, y: int|
                        #![trigger map@.tile_at(x, y)]
                        m0.in_bounds(x, y) implies (map@.tile_at(x, y) == m0.tile_at(x, y) || (
                    map@.tile_at(x, y) == empty_tile() && 1 <= x <= m0.width - 2 && 1 <= y
                        <= m0.height - 2)) by {}
                    lemma_interior_carve_preserves(m0, map@);
                }

                let ghost mut conn: Seq<(int, int)> = Seq::empty();
                let has_prev = map.rooms.len() > 0;
                if has_prev {
                    let n = map.rooms.len();
                    let prev = map.rooms[n - 1];
                    proof {
                        assert(map@.room_in_bounds(prev));
                        assert(map@.room_in_bounds(new_room));
                        lemma_center_in_room(prev);
                        lemma_center_in_room(new_room);
                    }
                    let (prev_x, prev_y) = prev.center();
                    let (new_x, new_y) = new_room.center();

                    if rng_coin(rng) {
                        let ghost m1 = map@;
                        map.create_h_tunnel(prev_x, new_x, prev_y);
                        let ghost m2 = map@;
                        proof {
                            assert forall|x: int, y: int|
                                #![trigger map@.tile_at(x, y)]
                                m1.in_bounds(x, y) implies (map@.tile_at(x, y) == m1.tile_at(x, y)
                                || (map@.tile_at(x, y) == empty_tile() && 1 <= x <= m1.width - 2
                                    && 1 <= y <= m1.height - 2)) by {}
                            lemma_interior_carve_preserves(m1, m2);
                        }
                        map.create_v_tunnel(prev_y, new_y, new_x);
                        let ghost m3 = map@;
                        proof {
                            assert forall|x: int, y: int|
                                #![trigger map@.tile_at(x, y)]
                                m2.in_bounds(x, y) implies (map@.tile_at(x, y) == m2.tile_at(x, y)
                                || (map@.tile_at(x, y) == empty_tile() && 1 <= x <= m2.width - 2
                                    && 1 <= y <= m2.height - 2)) by {}
                            lemma_interior_carve_preserves(m2, m3);
                            assert forall|x: int|
                                (prev_x as int <= x <= new_x as int || new_x as int <= x
                                    <= prev_x as int) implies #[trigger] cell_clear(
                                m3,
                                x,
                                prev_y as int,
                            ) by {
                                assert(m2.tile_at(x, prev_y as int) == empty_tile());
                            }
                            lemma_h_seg_connects(m3, prev_x as int, new_x as int, prev_y as int);
                            assert forall|y: int|
                                (prev_y as int <= y <= new_y as int || new_y as int <= y
                                    <= prev_y as int) implies #[trigger] cell_clear(
                                m3,
                                new_x as int,
                                y,
                            ) by {
                                assert(m3.tile_at(new_x as int, y) == empty_tile());
                            }
                            lemma_v_seg_connects(m3, prev_y as int, new_y as int, new_x as int);
                            lemma_path_join(
                                m3,
                                h_seg(prev_x as int, new_x as int, prev_y as int),
                                v_seg(prev_y as int, new_y as int, new_x as int),
                                (prev_x as int, prev_y as int),
                                (new_x as int, prev_y as int),
                                (new_x as int, new_y as int),
                            );
                            conn = h_seg(prev_x as int, new_x as int, prev_y as int) + v_seg(
                                prev_y as int,
                                new_y as int,
                                new_x as int,
                            ).drop_first();
                        }
                    } else {
                        let ghost m1 = map@;
                        map.create_v_tunnel(prev_y, new_y, prev_x);
                        let ghost m2 = map@;
                        proof {
                            assert forall|x: int, y: int|
                                #![trigger map@.tile_at(x, y)]
                                m1.in_bounds(x, y) implies (map@.tile_at(x, y) == m1.tile_at(x, y)
                                || (map@.tile_at(x, y) == empty_tile() && 1 <= x <= m1.width - 2
                                    && 1 <= y <= m1.height - 2)) by {}
                            lemma_interior_carve_preserves(m1, m2);
                        }
                        map.create_h_tunnel(prev_x, new_x, new_y);
                        let ghost m3 = map@;
                        proof {
                            assert forall|x: int, y: int|
                                #![trigger map@.tile_at(x, y)]
                                m2.in_bounds(x, y) implies (map@.tile_at(x, y) == m2.tile_at(x, y)
                                || (map@.tile_at(x, y) == empty_tile() && 1 <= x <= m2.width - 2
                                    && 1 <= y <= m2.height - 2)) by {}
                            lemma_interior_carve_preserves(m2, m3);
                            assert forall|y: int|
                                (prev_y as int <= y <= new_y as int || new_y as int <= y
                                    <= prev_y as int) implies #[trigger] cell_clear(
                                m3,
                                prev_x as int,
                                y,
                            ) by {
                                assert(m2.tile_at(prev_x as int, y) == empty_tile());
                            }
                            lemma_v_seg_connects(m3, prev_y as int, new_y as int, prev_x as int);
                            assert forall|x: int|
                                (prev_x as int <= x <= new_x as int || new_x as int <= x
                                    <= prev_x as int) implies #[trigger] cell_clear(
                                m3,
                                x,
                                new_y as int,
                            ) by {
                                assert(m3.tile_at(x, new_y as int) == empty_tile());
                            }
                            lemma_h_seg_connects(m3, prev_x as int, new_x as int, new_y as int);
                            lemma_path_join(
                                m3,
                                v_seg(prev_y as int, new_y as int, prev_x as int),
                                h_seg(prev_x as int, new_x as int, new_y as int),
                                (prev_x as int, prev_y as int),
                                (prev_x as int, new_y as int),
                                (new_x as int, new_y as int),
                            );
                            conn = v_seg(prev_y as int, new_y as int, prev_x as int) + h_seg(
                                prev_x as int,
                                new_x as int,
                                new_y as int,
                            ).drop_first();
                        }
                    }
                    proof {
                        assert(connects(
                            map@,
                            conn,
                            map@.rooms[map@.rooms.len() - 1].spec_center(),
                            new_room.spec_center(),
                        ));
                    }
                }

                let ghost mb = map@;
                map.rooms.push(new_room);
                let ghost ma = map@;
                proof {
                    assert(ma.tiles == mb.tiles);
                    assert(ma.rooms == mb.rooms.push(new_room));
                    assert(ma.dims_ok());
                    assert(ma.border_blocked()) by {
                        assert forall|x: int, y: int|
                            ma.in_bounds(x, y) && (x == 0 || y == 0 || x == ma.width - 1 || y
                                == ma.height - 1) implies (#[trigger] ma.tile_at(x, y)).blocked by {
                            assert(mb.tile_at(x, y).blocked);
                        }
                    }
                    assert forall|k: int| 0 <= k < ma.rooms.len() implies ma.room_in_bounds(
                        #[trigger] ma.rooms[k],
                    ) by {
                        if k < ma.rooms.len() - 1 {
                            assert(ma.rooms[k] == mb.rooms[k]);
                            assert(mb.room_in_bounds(mb.rooms[k]));
                        } else {
                            assert(ma.rooms[k] == new_room);
                        }
                    }
                    assert forall|a: int, b: int|
                        0 <= a < b < ma.rooms.len() implies !(#[trigger] ma.rooms[
                        a
                    ].spec_intersects(ma.rooms[b])) by {
                        if b < ma.rooms.len() - 1 {
                            assert(ma.rooms[a] == mb.rooms[a]);
                            assert(ma.rooms[b] == mb.rooms[b]);
                            assert(!mb.rooms[a].spec_intersects(mb.rooms[b]));
                        } else {
                            assert(ma.rooms[a] == mb.rooms[a]);
                            assert(ma.rooms[b] == new_room);
                            assert(!new_room.spec_intersects(mb.rooms[a]));
                        }
                    }
                    assert forall|k: int, x: int, y: int|
                        #![trigger ma.rooms[k], ma.tile_at(x, y)]
                        0 <= k < ma.rooms.len() && room_interior(ma.rooms[k], x, y) implies
                        !ma.tile_at(x, y).blocked && !ma.tile_at(x, y).block_sight by {
                        if k < ma.rooms.len() - 1 {
                            assert(ma.rooms[k] == mb.rooms[k]);
                            assert(!mb.tile_at(x, y).blocked && !mb.tile_at(x, y).block_sight);
                        } else {
                            assert(ma.rooms[k] == new_room);
                            assert(mb.tile_at(x, y) == empty_tile());
                        }
                    }
                    assert(ma.wf());
                    assert forall|k: int| 1 <= k < ma.rooms.len() implies
                    #[trigger] room_pair_connected(ma, k) by {
                        if k < ma.rooms.len() - 1 {
                            assert(room_pair_connected(mb, k));
                            let p = choose|p: Seq<(int, int)>|
                                #[trigger] connects(
                                    mb,
                                    p,
                                    mb.rooms[k - 1].spec_center(),
                                    mb.rooms[k].spec_center(),
                                );
                            lemma_same_tiles_connects(
                                mb,
                                ma,
                                p,
                                mb.rooms[k - 1].spec_center(),
                                mb.rooms[k].spec_center(),
                            );
                            assert(ma.rooms[k - 1] == mb.rooms[k - 1]);
                            assert(ma.rooms[k] == mb.rooms[k]);
                        } else {
                            assert(mb.rooms.len() >= 1);
                            assert(connects(
                                mb,
                                conn,
                                mb.rooms[mb.rooms.len() - 1].spec_center(),
                                new_room.spec_center(),
                            ));
                            lemma_same_tiles_connects(
                                mb,
                                ma,
                                conn,
                                mb.rooms[mb.rooms.len() - 1].spec_center(),
                                new_room.spec_center(),
                            );
                            assert(ma.rooms[k - 1] == mb.rooms[mb.rooms.len() - 1]);
                            assert(ma.rooms[k] == new_room);
                        }
                    }
                }
            }
            i += 1;
        }

        if map.rooms.len() == 0 {
            let fallback = Rect::new(0, 0, cfg.room_min_size, cfg.room_min_size);
            proof {
                assert(map@.room_in_bounds(fallback));
            }
            let ghost m0 = map@;
            map.create_room(fallback);
            proof {
                assert forall|x: int, y: int|
                    #![trigger map@.tile_at(x, y)]
                    m0.in_bounds(x, y) implies (map@.tile_at(x, y) == m0.tile_at(x, y) || (
                map@.tile_at(x, y) == empty_tile() && 1 <= x <= m0.width - 2 && 1 <= y <= m0.height
                    - 2)) by {}
                lemma_interior_carve_preserves(m0, map@);
            }
            let ghost mb = map@;
            map.rooms.push(fallback);
            let ghost ma = map@;
            proof {
                assert(ma.tiles == mb.tiles);
                assert(ma.rooms.len() == 1);
                assert(ma.dims_ok());
                assert(ma.border_blocked()) by {
                    assert forall|x: int, y: int|
                        ma.in_bounds(x, y) && (x == 0 || y == 0 || x == ma.width - 1 || y
                            == ma.height - 1) implies (#[trigger] ma.tile_at(x, y)).blocked by {
                        assert(mb.tile_at(x, y).blocked);
                    }
                }
                assert forall|k: int| 0 <= k < ma.rooms.len() implies ma.room_in_bounds(
                    #[trigger] ma.rooms[k],
                ) by {
                    assert(ma.rooms[k] == fallback);
                }
                assert forall|k: int, x: int, y: int|
                    #![trigger ma.rooms[k], ma.tile_at(x, y)]
                    0 <= k < ma.rooms.len() && room_interior(ma.rooms[k], x, y) implies !ma.tile_at(
                    x,
                    y,
                ).blocked && !ma.tile_at(x, y).block_sight by {
                    assert(ma.rooms[k] == fallback);
                    assert(mb.tile_at(x, y) == empty_tile());
                }
                assert(ma.wf());
                assert(rooms_connected(ma));
            }
        }

        map
    }
}

} // verus!
