//! Collision queries against a voxel world.

use vstd::prelude::*;

verus! {

/// Worlds that support solidity queries for collision checking.
pub trait CollisionWorld {
    /// Whether the voxel at `(x, y, z)` is solid.
    spec fn solid(&self, x: i32, y: i32, z: i32) -> bool;

    /// Checks whether the voxel at `(x, y, z)` is solid.
    fn is_solid(&self, x: i32, y: i32, z: i32) -> (r: bool)
        ensures
            r == self.solid(x, y, z),
    ;
}


/// `(x, y, z)` lies in the box spanned by `lo` and `hi`, both included.
pub open spec fn in_box(lo: (i32, i32, i32), hi: (i32, i32, i32), p: (i32, i32, i32)) -> bool {
    lo.0 <= p.0 <= hi.0 && lo.1 <= p.1 <= hi.1 && lo.2 <= p.2 <= hi.2
}

/// Lexicographic order on voxel coordinates (x, then y, then z).
pub open spec fn voxel_lt(a: (i32, i32, i32), b: (i32, i32, i32)) -> bool {
    a.0 < b.0 || (a.0 == b.0 && (a.1 < b.1 || (a.1 == b.1 && a.2 < b.2)))
}

/// The solid voxels of the box spanned by `lo` and `hi`, in x, y, z order.
/// A collision test checks these against the exact bounding box.
pub fn solid_voxels_in_box<W: CollisionWorld>(world: &W, lo: (i32, i32, i32), hi: (i32, i32, i32)) -> (v: Vec<(i32, i32, i32)>)
    ensures
        forall|p: (i32, i32, i32)| v@.contains(p) <==> in_box(lo, hi, p) && world.solid(p.0, p.1, p.2),
        forall|a: int, b: int| 0 <= a < b < v@.len() ==> voxel_lt(#[trigger] v@[a], #[trigger] v@[b]),
{
    let mut v: Vec<(i32, i32, i32)> = Vec::new();
    let mut x: i64 = lo.0 as i64;
    while x <= hi.0 as i64
        invariant
            lo.0 <= x <= hi.0 + 1 || (x == lo.0 && lo.0 > hi.0),
            forall|p: (i32, i32, i32)| v@.contains(p) <==> in_box(lo, hi, p) && world.solid(p.0, p.1, p.2) && p.0 < x,
            forall|a: int, b: int| 0 <= a < b < v@.len() ==> voxel_lt(#[trigger] v@[a], #[trigger] v@[b]),
            forall|a: int| 0 <= a < v@.len() ==> (#[trigger] v@[a]).0 < x,
        decreases hi.0 + 1 - x,
    {
        let mut y: i64 = lo.1 as i64;
        while y <= hi.1 as i64
            invariant
                lo.0 <= x <= hi.0,
                lo.1 <= y <= hi.1 + 1 || (y == lo.1 && lo.1 > hi.1),
                forall|p: (i32, i32, i32)| v@.contains(p) <==> in_box(lo, hi, p) && world.solid(p.0, p.1, p.2)
                    && (p.0 < x || (p.0 == x && p.1 < y)),
                forall|a: int, b: int| 0 <= a < b < v@.len() ==> voxel_lt(#[trigger] v@[a], #[trigger] v@[b]),
                forall|a: int| 0 <= a < v@.len() ==> (#[trigger] v@[a]).0 < x || (v@[a].0 == x && v@[a].1 < y),
            decreases hi.1 + 1 - y,
        {
            let mut z: i64 = lo.2 as i64;
            while z <= hi.2 as i64
                invariant
                    lo.0 <= x <= hi.0,
                    lo.1 <= y <= hi.1,
                    lo.2 <= z <= hi.2 + 1 || (z == lo.2 && lo.2 > hi.2),
                    forall|p: (i32, i32, i32)| v@.contains(p) <==> in_box(lo, hi, p) && world.solid(p.0, p.1, p.2)
                        && (p.0 < x || (p.0 == x && p.1 < y) || (p.0 == x && p.1 == y && p.2 < z)),
                    forall|a: int, b: int| 0 <= a < b < v@.len() ==> voxel_lt(#[trigger] v@[a], #[trigger] v@[b]),
                    forall|a: int| 0 <= a < v@.len() ==> (#[trigger] v@[a]).0 < x || (v@[a].0 == x && v@[a].1 < y)
                        || (v@[a].0 == x && v@[a].1 == y && v@[a].2 < z),
                decreases hi.2 + 1 - z,
            {
                let p = (x as i32, y as i32, z as i32);
                assert(p.0 == x && p.1 == y && p.2 == z);
                let ghost v0 = v@;
                if world.is_solid(p.0, p.1, p.2) {
                    let ghost before = v@;
                    v.push(p);
                    proof {
                        assert forall|q: (i32, i32, i32)| v@.contains(q) <==> before.contains(q) || q == p by {
                            if v@.contains(q) {
                                let j = choose|j: int| 0 <= j < v@.len() && v@[j] == q;
                                if j < before.len() {
                                    assert(before[j] == q);
                                }
                            }
                            if before.contains(q) {
                                let j = choose|j: int| 0 <= j < before.len() && before[j] == q;
                                assert(v@[j] == q);
                            }
                            if q == p {
                                assert(v@[before.len() as int] == q);
                            }
                        }
                    }
                }
                proof {
                    assert forall|q: (i32, i32, i32)| v@.contains(q) <==> in_box(lo, hi, q) && world.solid(q.0, q.1, q.2)
                        && (q.0 < x || (q.0 == x && q.1 < y) || (q.0 == x && q.1 == y && q.2 < z + 1)) by {
                        if q == p {
                            assert(in_box(lo, hi, q));
                        }
                        if q.0 == x && q.1 == y && q.2 == z {
                            assert(q == p);
                        }
                        if world.solid(p.0, p.1, p.2) {
                            assert(v@.contains(q) <==> v0.contains(q) || q == p);
                        } else {
                            assert(v@ == v0);
                        }
                    }
                }
                z = z + 1;
            }
            y = y + 1;
        }
        x = x + 1;
    }
    v
}

} // verus!
