use vstd::prelude::*;
use crate::shape::Shape;
use nannou::rand::seq::SliceRandom;

verus! {

/// Whether `s` is one full bag: seven shapes, each shape exactly once.
pub open spec fn is_batch(s: Seq<Shape>) -> bool {
    &&& s.len() == 7
    &&& s.no_duplicates()
    &&& forall|sh: Shape| #[trigger] s.contains(sh)
}

/// Relies on rand's `SliceRandom::shuffle` (re-exported by nannou) driven by
/// `thread_rng`: it only swaps elements in place, so the result holds the same
/// elements, in an order that is drawn at random. `thread_rng` panics only when
/// the operating system cannot seed it, which no argument here can cause.
#[verifier::external_body]
fn shuffle_shapes(shapes: &mut Vec<Shape>)
    ensures
        final(shapes)@.to_multiset() == old(shapes)@.to_multiset(),
{
    let mut rng = nannou::rand::thread_rng();
    shapes.shuffle(&mut rng);
}

/// Any reordering of a full bag is a full bag.
pub proof fn lemma_permuted_batch(a: Seq<Shape>, b: Seq<Shape>)
    requires
        is_batch(a),
        a.to_multiset() == b.to_multiset(),
    ensures
        is_batch(b),
{
    broadcast use vstd::seq_lib::group_to_multiset_ensures;

    a.lemma_multiset_has_no_duplicates();
    assert(a.len() == a.to_multiset().len());
    assert(b.len() == b.to_multiset().len());
    assert forall|sh: Shape| #[trigger] b.contains(sh) by {
        assert(a.contains(sh));
        assert(a.to_multiset().count(sh) > 0);
    }
    assert forall|x: Shape| b.to_multiset().contains(x) implies b.to_multiset().count(x) == 1 by {
        assert(a.to_multiset().count(x) > 0);
    }
    b.lemma_multiset_has_no_duplicates_conv();
}

/// Draws one bag: the seven shapes in a uniformly random order.
pub fn next_batch() -> (r: Vec<Shape>)
    ensures
        is_batch(r@),
{
    let mut v: Vec<Shape> = Vec::new();
    v.push(Shape::T);
    v.push(Shape::I);
    v.push(Shape::J);
    v.push(Shape::L);
    v.push(Shape::S);
    v.push(Shape::Z);
    v.push(Shape::O);
    proof {
        assert forall|sh: Shape| #[trigger] v@.contains(sh) by {
            match sh {
                Shape::T => assert(v@[0] == sh),
                Shape::I => assert(v@[1] == sh),
                Shape::J => assert(v@[2] == sh),
                Shape::L => assert(v@[3] == sh),
                Shape::S => assert(v@[4] == sh),
                Shape::Z => assert(v@[5] == sh),
                Shape::O => assert(v@[6] == sh),
            }
        }
    }
    let ghost before = v@;
    shuffle_shapes(&mut v);
    proof {
        lemma_permuted_batch(before, v@);
    }
    v
}

} // verus!
