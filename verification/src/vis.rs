//! Visibility as plain data.
//!
//! Field-of-view computation is an outside collaborator: it fills one of
//! these grids, and the engine only ever asks "is this cell visible".

use vstd::prelude::*;

verus! {

/// Per-cell visibility, `cells[x][y]`, with the same fixed dimensions as
/// the map it describes.
pub struct Visibility {
    pub width: i32,
    pub height: i32,
    pub cells: Vec<Vec<bool>>,
}

/// The mathematical value of a [`Visibility`] grid.
#[verifier::ext_equal]
pub ghost struct VisView {
    pub width: int,
    pub height: int,
    pub cells: Seq<Seq<bool>>,
}

impl View for Visibility {
    type V = VisView;

    open spec fn view(&self) -> VisView {
        VisView {
            width: self.width as int,
            height: self.height as int,
            cells: Seq::new(self.cells@.len() as nat, |i: int| self.cells@[i]@),
        }
    }
}

impl VisView {
    pub open spec fn dims_ok(self) -> bool {
        &&& 0 <= self.width <= 1024
        &&& 0 <= self.height <= 1024
        &&& self.cells.len() == self.width
        &&& forall|x: int| 0 <= x < self.width ==> (#[trigger] self.cells[x]).len() == self.height
    }

    pub open spec fn at(self, x: int, y: int) -> bool {
        self.cells[x][y]
    }
}

impl Visibility {
    /// An all-hidden grid of the given dimensions.
    pub fn new(width: i32, height: i32) -> (v: Visibility)
        requires
            0 <= width <= 1024,
            0 <= height <= 1024,
        ensures
            v@.dims_ok(),
            v@.width == width as int,
            v@.height == height as int,
            forall|x: int, y: int|
                0 <= x < width as int && 0 <= y < height as int ==> !(#[trigger] v@.at(x, y)),
    {
        let mut cells: Vec<Vec<bool>> = Vec::new();
        let mut x: i32 = 0;
        while x < width
            invariant
                0 <= x <= width,
                0 <= height <= 1024,
                cells@.len() == x as int,
                forall|a: int| 0 <= a < x as int ==> (#[trigger] cells@[a])@.len() == height as int,
                forall|a: int, b: int|
                    #![trigger cells@[a]@[b]]
                    0 <= a < x as int && 0 <= b < height as int ==> !cells@[a]@[b],
            decreases width - x,
        {
            let mut col: Vec<bool> = Vec::new();
            let mut y: i32 = 0;
            while y < height
                invariant
                    0 <= height,
                    0 <= y <= height,
                    col@.len() == y as int,
                    forall|b: int| 0 <= b < y as int ==> !(#[trigger] col@[b]),
                decreases height - y,
            {
                col.push(false);
                y += 1;
            }
            cells.push(col);
            x += 1;
        }
        let v = Visibility { width, height, cells };
        proof {
            assert forall|a: int| 0 <= a < v@.width implies (#[trigger] v@.cells[a]).len()
                == v@.height by {
                assert(v@.cells[a] == v.cells@[a]@);
            }
            assert forall|a: int, b: int|
                0 <= a < width as int && 0 <= b < height as int implies !(#[trigger] v@.at(
                a,
                b,
            )) by {
                assert(v@.cells[a] == v.cells@[a]@);
            }
        }
        v
    }

    /// Mark one cell visible or hidden.
    pub fn set(&mut self, x: i32, y: i32, value: bool)
        requires
            old(self)@.dims_ok(),
            0 <= x < old(self)@.width,
            0 <= y < old(self)@.height,
        ensures
            final(self)@.dims_ok(),
            final(self)@.width == old(self)@.width,
            final(self)@.height == old(self)@.height,
            forall|a: int, b: int|
                0 <= a < old(self)@.width && 0 <= b < old(self)@.height
                    ==> #[trigger] final(self)@.at(a, b) == (if a == x && b == y {
                    value
                } else {
                    old(self)@.at(a, b)
                }),
    {
        proof {
            assert(self@.cells.len() == self.cells@.len());
            assert(self@.cells[x as int] == self.cells@[x as int]@);
        }
        self.cells[x as usize][y as usize] = value;
        proof {
            assert(self.cells@.len() == old(self).cells@.len());
            assert(self.cells@[x as int]@.len() == old(self).cells@[x as int]@.len());
            assert forall|i: int| 0 <= i < self@.width implies (#[trigger] self@.cells[i]).len()
                == old(self)@.height by {
                assert(self@.cells[i] == self.cells@[i]@);
                assert(old(self)@.cells[i] == old(self).cells@[i]@);
                if i != x as int {
                    assert(self.cells@[i] == old(self).cells@[i]);
                } else {
                    assert(self.cells@[i]@.len() == old(self).cells@[i]@.len());
                }
            }
            assert forall|a: int, b: int|
                0 <= a < old(self)@.width && 0 <= b < old(self)@.height implies #[trigger] self@.at(
                a,
                b,
            ) == (if a == x && b == y {
                value
            } else {
                old(self)@.at(a, b)
            }) by {
                assert(self@.cells[a] == self.cells@[a]@);
                assert(old(self)@.cells[a] == old(self).cells@[a]@);
                if a != x as int {
                    assert(self.cells@[a] == old(self).cells@[a]);
                }
            }
        }
    }

    /// Is the cell currently visible?
    pub fn get(&self, x: i32, y: i32) -> (r: bool)
        requires
            self@.dims_ok(),
            0 <= x < self@.width,
            0 <= y < self@.height,
        ensures
            r == self@.at(x as int, y as int),
    {
        proof {
            assert(self@.cells.len() == self.cells@.len());
            assert(self@.cells[x as int] == self.cells@[x as int]@);
        }
        self.cells[x as usize][y as usize]
    }
}

} // verus!
