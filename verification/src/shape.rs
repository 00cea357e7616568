//! Tensor shapes: ordered sequences of positive dimension lengths, stored in
//! the small-vector type of the `smallvec` crate (inline up to rank four).
//! The backing vector is opaque to the verifier: its contents are named by
//! `shape_elems`, and the handful of operations the planner needs are trusted
//! wrappers whose contracts speak over that name.

use vstd::prelude::*;
use smallvec::SmallVec;

verus! {

/// A tensor shape, backed by a small vector that stays inline up to rank
/// four.
#[verifier::external_body]
pub struct Shape {
    inner: SmallVec<[usize; 4]>,
}

/// The elements a shape holds, in order.
pub uninterp spec fn shape_elems(s: Shape) -> Seq<usize>;

/// Relies on smallvec's `SmallVec::new`: constructs an empty vector.
#[verifier::external_body]
pub fn shape_new() -> (s: Shape)
    ensures
        shape_elems(s) == Seq::<usize>::empty(),
{
    Shape { inner: SmallVec::new() }
}

/// Relies on smallvec's `SmallVec::push`: appends one element at the end.
#[verifier::external_body]
pub fn shape_push(s: &mut Shape, x: usize)
    ensures
        shape_elems(*final(s)) == shape_elems(*old(s)).push(x),
{
    s.inner.push(x)
}

/// Relies on smallvec's `SmallVec::len`: the number of elements stored.
#[verifier::external_body]
pub fn shape_len(s: &Shape) -> (n: usize)
    ensures
        n == shape_elems(*s).len(),
{
    s.inner.len()
}

/// Relies on smallvec's `Index` impl (backed by slice indexing): the element
/// at a position below the length.
#[verifier::external_body]
pub fn shape_get(s: &Shape, i: usize) -> (x: usize)
    requires
        i < shape_elems(*s).len(),
    ensures
        x == shape_elems(*s)[i as int],
{
    s.inner[i]
}

/// Relies on smallvec's `Clone` impl: an element-wise copy.
#[verifier::external_body]
pub fn shape_clone(s: &Shape) -> (r: Shape)
    ensures
        shape_elems(r) == shape_elems(*s),
{
    Shape { inner: s.inner.clone() }
}

/// Builds a shape from a plain vector of dimension lengths.
pub fn shape_from_vec(v: &Vec<usize>) -> (s: Shape)
    ensures
        shape_elems(s) == v@,
{
    let mut s = shape_new();
    let mut i: usize = 0;
    while i < v.len()
        invariant
            i <= v@.len(),
            shape_elems(s) == v@.take(i as int),
        decreases v@.len() - i,
    {
        shape_push(&mut s, v[i]);
        proof {
            assert(v@.take(i + 1 as int) == v@.take(i as int).push(v@[i as int]));
        }
        i += 1;
    }
    proof {
        assert(v@.take(v@.len() as int) == v@);
    }
    s
}

} // verus!
