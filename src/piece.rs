use vstd::prelude::*;
use crate::shape::{Shape, shape_offsets, offsets};

verus! {

/// An offset turned by `k` quarter-turns, each mapping `(dx, dy)` to `(-dy, dx)`.
pub open spec fn turned(c: (int, int), k: nat) -> (int, int)
    decreases k,
{
    if k == 0 {
        c
    } else {
        let p = turned(c, (k - 1) as nat);
        (-p.1, p.0)
    }
}

/// The number of quarter-turns that a rotation value stands for.
pub open spec fn quarter_turns(rotation: int) -> nat {
    (rotation % 4) as nat
}

/// The cells covered by a shape with the given origin and rotation.
pub open spec fn cells_at(s: Shape, x: int, y: int, rotation: int) -> Seq<(int, int)> {
    shape_offsets(s).map_values(
        |c: (int, int)|
            {
                let t = turned(c, quarter_turns(rotation));
                (t.0 + x, t.1 + y)
            },
    )
}

/// A shape placed on the grid: an origin and a rotation value, of which only
/// the value modulo 4 matters.
#[derive(Clone, Copy, Debug, PartialEq, Eq, Structural)]
pub struct Piece {
    pub shape: Shape,
    pub x: i32,
    pub y: i32,
    pub rotation: i32,
}

/// Origin coordinates leave room for the offsets, so that cell coordinates fit in `i32`.
pub open spec fn origin_fits(p: Piece) -> bool {
    i32::MIN + 2 <= p.x <= i32::MAX - 2 && i32::MIN + 2 <= p.y <= i32::MAX - 2
}

impl Piece {
    /// The cells this piece covers, in the order of its shape's offsets.
    pub open spec fn cells(self) -> Seq<(int, int)> {
        cells_at(self.shape, self.x as int, self.y as int, self.rotation as int)
    }

    pub fn new(shape: Shape, x: i32, y: i32, rotation: i32) -> (r: Piece)
        ensures
            r == (Piece { shape, x, y, rotation }),
    {
        Piece { shape, x, y, rotation }
    }

    /// Computes the occupied cells: each offset turned `rotation mod 4` times, then
    /// translated by the origin.
    pub fn occupied_cells(&self) -> (r: Vec<(i32, i32)>)
        requires
            origin_fits(*self),
        ensures
            r@.len() == 4,
            forall|i: int|
                0 <= i < 4 ==> (#[trigger] r@[i]).0 as int == self.cells()[i].0 && r@[i].1 as int
                    == self.cells()[i].1,
    {
        let offs = offsets(self.shape);
        let q = self.rotation % 4;
        let k: i32 = if q < 0 {
            q + 4
        } else {
            q
        };
        assert(k as nat == quarter_turns(self.rotation as int));
        let mut r: Vec<(i32, i32)> = Vec::new();
        let mut i: usize = 0;
        while i < 4
            invariant
                0 <= i <= 4,
                0 <= k < 4,
                k as nat == quarter_turns(self.rotation as int),
                origin_fits(*self),
                r@.len() == i,
                forall|j: int|
                    0 <= j < 4 ==> (#[trigger] offs@[j]).0 as int == shape_offsets(self.shape)[j].0
                        && offs@[j].1 as int == shape_offsets(self.shape)[j].1,
                forall|j: int|
                    0 <= j < i ==> (#[trigger] r@[j]).0 as int == self.cells()[j].0 && r@[j].1 as int
                        == self.cells()[j].1,
            decreases 4 - i,
        {
            let (dx, dy) = turn(offs[i], k);
            r.push((dx + self.x, dy + self.y));
            i += 1;
        }
        r
    }

    /// A copy translated by `(dx, dy)`; legality is not checked here.
    pub fn with_moved(&self, dx: i32, dy: i32) -> (r: Piece)
        requires
            i32::MIN <= self.x + dx <= i32::MAX,
            i32::MIN <= self.y + dy <= i32::MAX,
        ensures
            r == (Piece { x: (self.x + dx) as i32, y: (self.y + dy) as i32, ..*self }),
    {
        Piece { shape: self.shape, x: self.x + dx, y: self.y + dy, rotation: self.rotation }
    }

    /// A copy with the rotation value increased by `delta`; legality is not checked here.
    pub fn with_rotated(&self, delta: i32) -> (r: Piece)
        requires
            i32::MIN <= self.rotation + delta <= i32::MAX,
        ensures
            r == (Piece { rotation: (self.rotation + delta) as i32, ..*self }),
    {
        Piece { shape: self.shape, x: self.x, y: self.y, rotation: self.rotation + delta }
    }
}

/// Turns a catalog offset by `k` quarter-turns.
fn turn(c: (i32, i32), k: i32) -> (r: (i32, i32))
    requires
        -2 <= c.0 <= 2,
        -2 <= c.1 <= 2,
        0 <= k < 4,
    ensures
        r.0 as int == turned((c.0 as int, c.1 as int), k as nat).0,
        r.1 as int == turned((c.0 as int, c.1 as int), k as nat).1,
        -2 <= r.0 <= 2,
        -2 <= r.1 <= 2,
{
    let mut x = c.0;
    let mut y = c.1;
    let mut i: i32 = 0;
    while i < k
        invariant
            0 <= i <= k < 4,
            -2 <= x <= 2,
            -2 <= y <= 2,
            x as int == turned((c.0 as int, c.1 as int), i as nat).0,
            y as int == turned((c.0 as int, c.1 as int), i as nat).1,
        decreases k - i,
    {
        let t = x;
        x = -y;
        y = t;
        i += 1;
    }
    (x, y)
}

/// Rotation is periodic: a rotation value and that value plus four cover the
/// same cells, for negative values too.
pub proof fn lemma_rotation_periodic(s: Shape, x: int, y: int, rotation: int)
    ensures
        cells_at(s, x, y, rotation) == cells_at(s, x, y, rotation + 4),
{
    assert(quarter_turns(rotation) == quarter_turns(rotation + 4));
}

} // verus!
