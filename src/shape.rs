use vstd::prelude::*;

verus! {

/// The seven piece shapes.
#[derive(Clone, Copy, Debug, PartialEq, Eq, Structural)]
pub enum Shape {
    T,
    Z,
    S,
    L,
    J,
    O,
    I,
}

/// The four cell offsets `(dx, dy)` of a shape in its unrotated orientation.
pub open spec fn shape_offsets(s: Shape) -> Seq<(int, int)> {
    match s {
        Shape::T => seq![(-1, 0), (0, 0), (0, -1), (1, 0)],
        Shape::S => seq![(-1, -1), (0, -1), (0, 0), (1, 0)],
        Shape::Z => seq![(-1, 0), (0, 0), (0, -1), (1, -1)],
        Shape::J => seq![(-1, -2), (-1, -1), (-1, 0), (0, 0)],
        Shape::L => seq![(0, -2), (0, -1), (-1, 0), (0, 0)],
        Shape::O => seq![(0, 0), (-1, 0), (0, -1), (-1, -1)],
        Shape::I => seq![(-2, 0), (-1, 0), (0, 0), (1, 0)],
    }
}

/// Looks up the unrotated footprint of a shape.
pub fn offsets(s: Shape) -> (r: [(i32, i32); 4])
    ensures
        forall|i: int|
            0 <= i < 4 ==> (#[trigger] r@[i]).0 as int == shape_offsets(s)[i].0 && r@[i].1 as int
                == shape_offsets(s)[i].1,
{
    match s {
        Shape::T => [(-1, 0), (0, 0), (0, -1), (1, 0)],
        Shape::S => [(-1, -1), (0, -1), (0, 0), (1, 0)],
        Shape::Z => [(-1, 0), (0, 0), (0, -1), (1, -1)],
        Shape::J => [(-1, -2), (-1, -1), (-1, 0), (0, 0)],
        Shape::L => [(0, -2), (0, -1), (-1, 0), (0, 0)],
        Shape::O => [(0, 0), (-1, 0), (0, -1), (-1, -1)],
        Shape::I => [(-2, 0), (-1, 0), (0, 0), (1, 0)],
    }
}

} // verus!
