//! Voxel edit shapes: brush footprints and the 2x2x2 punch block.

use vstd::prelude::*;

use crate::ui_state::BrushShape;

verus! {

/// Strict lexicographic order on voxel coordinates.
pub open spec fn lex_lt(a: (i32, i32, i32), b: (i32, i32, i32)) -> bool {
    a.0 < b.0 || (a.0 == b.0 && (a.1 < b.1 || (a.1 == b.1 && a.2 < b.2)))
}

/// `p` comes before the point `(x, y, z)` in lexicographic order.
pub open spec fn lex_before(p: (i32, i32, i32), x: int, y: int, z: int) -> bool {
    p.0 < x || (p.0 == x && (p.1 < y || (p.1 == y && p.2 < z)))
}

/// The sequence is strictly increasing in lexicographic order (so it has no
/// duplicates and its order is determined by its elements).
pub open spec fn lex_sorted(s: Seq<(i32, i32, i32)>) -> bool {
    forall|i: int, j: int| 0 <= i < j < s.len() ==> lex_lt(s[i], s[j])
}

pub open spec fn abs(x: int) -> int {
    if x < 0 { -x } else { x }
}

/// Whether `p` lies within the axis-aligned cube of half-size `h` around `c`.
pub open spec fn in_cube(c: (i32, i32, i32), h: int, p: (i32, i32, i32)) -> bool {
    abs(p.0 - c.0) <= h && abs(p.1 - c.1) <= h && abs(p.2 - c.2) <= h
}

/// Squared distance between two voxel positions.
pub open spec fn dist_sq(c: (i32, i32, i32), p: (i32, i32, i32)) -> int {
    (p.0 - c.0) * (p.0 - c.0) + (p.1 - c.1) * (p.1 - c.1) + (p.2 - c.2) * (p.2 - c.2)
}

/// Whether `p` belongs to the brush footprint of `shape` and `size` at `c`.
pub open spec fn in_brush(shape: BrushShape, size: int, c: (i32, i32, i32), p: (i32, i32, i32)) -> bool {
    match shape {
        BrushShape::Single => p == c,
        BrushShape::Cube => in_cube(c, size, p),
        BrushShape::Sphere => in_cube(c, size, p) && dist_sq(c, p) <= size * size,
    }
}

/// Largest sphere radius for which every squared distance the brush compares
/// is exactly representable as an `f32` (3 * 2364^2 < 2^24).
pub open spec fn max_exact_sphere_radius() -> int {
    2364
}

/// Generate voxel positions for the given brush shape and size, in
/// lexicographic order of their offsets from the center.
pub fn get_brush_positions(shape: BrushShape, size: i32, cx: i32, cy: i32, cz: i32) -> (v: Vec<(i32, i32, i32)>)
    requires
        shape != BrushShape::Single ==> cx - size >= i32::MIN && cx + size <= i32::MAX
            && cy - size >= i32::MIN && cy + size <= i32::MAX
            && cz - size >= i32::MIN && cz + size <= i32::MAX,
        shape == BrushShape::Sphere ==> -max_exact_sphere_radius() <= size <= max_exact_sphere_radius(),
    ensures
        lex_sorted(v@),
        forall|p: (i32, i32, i32)| v@.contains(p) <==> in_brush(shape, size as int, (cx, cy, cz), p),
{
    match shape {
        BrushShape::Single => {
            let mut v = Vec::new();
            v.push((cx, cy, cz));
            proof {
                assert forall|p: (i32, i32, i32)| v@.contains(p) <==> p == (cx, cy, cz) by {
                    if p == (cx, cy, cz) {
                        assert(v@[0] == p);
                    }
                }
            }
            v
        },
        BrushShape::Sphere => {
            proof {
                assert(size * size <= 2364 * 2364) by (nonlinear_arith)
                    requires -2364 <= size <= 2364;
                assert(0 <= size * size) by (nonlinear_arith);
            }
            let radius_sq = size * size;
            cube_or_sphere(true, size, radius_sq, cx, cy, cz)
        },
        BrushShape::Cube => cube_or_sphere(false, size, 0, cx, cy, cz),
    }
}

/// Positions of the cube of half-size `h` around `c`, restricted to the
/// ball of squared radius `r2` when `sphere` holds.
fn cube_or_sphere(sphere: bool, h: i32, r2: i32, cx: i32, cy: i32, cz: i32) -> (v: Vec<(i32, i32, i32)>)
    requires
        h >= 0 ==> cx - h >= i32::MIN && cx + h <= i32::MAX && cy - h >= i32::MIN && cy + h <= i32::MAX
            && cz - h >= i32::MIN && cz + h <= i32::MAX,
        sphere ==> -max_exact_sphere_radius() <= h <= max_exact_sphere_radius() && r2 == h * h,
    ensures
        lex_sorted(v@),
        forall|p: (i32, i32, i32)| v@.contains(p) <==>
            (in_cube((cx, cy, cz), h as int, p) && (sphere ==> dist_sq((cx, cy, cz), p) <= r2)),
{
    let c = (cx, cy, cz);
    let mut v: Vec<(i32, i32, i32)> = Vec::new();
    if h < 0 {
        return v;
    }
    let hh = h as i64;
    let mut dx: i64 = -hh;
    while dx <= hh
        invariant
            0 <= hh == h,
            -h <= dx <= h + 1,
            cx - h >= i32::MIN && cx + h <= i32::MAX && cy - h >= i32::MIN && cy + h <= i32::MAX
                && cz - h >= i32::MIN && cz + h <= i32::MAX,
            sphere ==> h <= max_exact_sphere_radius() && r2 == h * h,
            c == (cx, cy, cz),
            lex_sorted(v@),
            forall|i: int| 0 <= i < v@.len() ==> lex_before(#[trigger] v@[i], cx + dx, i32::MIN as int, i32::MIN as int),
            forall|p: (i32, i32, i32)| #[trigger] v@.contains(p) <==>
                (in_cube(c, h as int, p) && (sphere ==> dist_sq(c, p) <= r2)
                    && lex_before(p, cx + dx, i32::MIN as int, i32::MIN as int)),
        decreases h + 1 - dx,
    {
        let mut dy: i64 = -hh;
        while dy <= hh
            invariant
                0 <= hh == h,
                -h <= dx <= h,
                -h <= dy <= h + 1,
                cx - h >= i32::MIN && cx + h <= i32::MAX && cy - h >= i32::MIN && cy + h <= i32::MAX
                    && cz - h >= i32::MIN && cz + h <= i32::MAX,
                sphere ==> h <= max_exact_sphere_radius() && r2 == h * h,
                c == (cx, cy, cz),
                lex_sorted(v@),
                forall|i: int| 0 <= i < v@.len() ==> lex_before(#[trigger] v@[i], cx + dx, cy + dy, i32::MIN as int),
                forall|p: (i32, i32, i32)| #[trigger] v@.contains(p) <==>
                    (in_cube(c, h as int, p) && (sphere ==> dist_sq(c, p) <= r2)
                        && lex_before(p, cx + dx, cy + dy, i32::MIN as int)),
            decreases h + 1 - dy,
        {
            let mut dz: i64 = -hh;
            while dz <= hh
                invariant
                    0 <= hh == h,
                    -h <= dx <= h,
                    -h <= dy <= h,
                    -h <= dz <= h + 1,
                    cx - h >= i32::MIN && cx + h <= i32::MAX && cy - h >= i32::MIN && cy + h <= i32::MAX
                        && cz - h >= i32::MIN && cz + h <= i32::MAX,
                    sphere ==> h <= max_exact_sphere_radius() && r2 == h * h,
                    c == (cx, cy, cz),
                    lex_sorted(v@),
                    forall|i: int| 0 <= i < v@.len() ==> lex_before(#[trigger] v@[i], cx + dx, cy + dy, cz + dz),
                    forall|p: (i32, i32, i32)| #[trigger] v@.contains(p) <==>
                        (in_cube(c, h as int, p) && (sphere ==> dist_sq(c, p) <= r2)
                            && lex_before(p, cx + dx, cy + dy, cz + dz)),
                decreases h + 1 - dz,
            {
                let p = ((cx as i64 + dx) as i32, (cy as i64 + dy) as i32, (cz as i64 + dz) as i32);
                assert(p.0 - c.0 == dx && p.1 - c.1 == dy && p.2 - c.2 == dz);
                assert(in_cube(c, h as int, p));
                let keep = if sphere {
                    proof {
                        assert(dx * dx <= h * h) by (nonlinear_arith) requires -h <= dx <= h;
                        assert(dy * dy <= h * h) by (nonlinear_arith) requires -h <= dy <= h;
                        assert(dz * dz <= h * h) by (nonlinear_arith) requires -h <= dz <= h;
                        assert(h * h <= 2364 * 2364) by (nonlinear_arith) requires 0 <= h <= 2364;
                        assert(0 <= dx * dx && 0 <= dy * dy && 0 <= dz * dz) by (nonlinear_arith);
                    }
                    let d = dx * dx + dy * dy + dz * dz;
                    assert(d == dist_sq(c, p));
                    d <= r2 as i64
                } else {
                    true
                };
                assert(keep == (sphere ==> dist_sq(c, p) <= r2));
                let ghost old_v = v@;
                if keep {
                    v.push(p);
                }
                proof {
                    assert forall|q: (i32, i32, i32)| #[trigger] v@.contains(q) <==>
                        (in_cube(c, h as int, q) && (sphere ==> dist_sq(c, q) <= r2)
                            && lex_before(q, cx + dx, cy + dy, cz + dz + 1)) by {
                        if q == p {
                            if keep {
                                assert(v@[v@.len() - 1] == p);
                            } else {
                                assert(!old_v.contains(q));
                            }
                        } else {
                            if v@.contains(q) {
                                let i = choose|i: int| 0 <= i < v@.len() && v@[i] == q;
                                assert(old_v[i] == q);
                                assert(old_v.contains(q));
                            }
                            if old_v.contains(q) {
                                let i = choose|i: int| 0 <= i < old_v.len() && old_v[i] == q;
                                assert(v@[i] == q);
                            }
                        }
                    }
                }
                dz = dz + 1;
            }
            proof {
                assert forall|q: (i32, i32, i32)| #[trigger] in_cube(c, h as int, q) implies
                    (lex_before(q, cx + dx, cy + dy, cz + dz) == lex_before(q, cx + dx, cy + dy + 1, i32::MIN as int)) by {}
            }
            dy = dy + 1;
        }
        proof {
            assert forall|q: (i32, i32, i32)| #[trigger] in_cube(c, h as int, q) implies
                (lex_before(q, cx + dx, cy + dy, i32::MIN as int) == lex_before(q, cx + dx + 1, i32::MIN as int, i32::MIN as int)) by {}
        }
        dx = dx + 1;
    }
    proof {
        assert forall|q: (i32, i32, i32)| #[trigger] in_cube(c, h as int, q) implies
            lex_before(q, cx + dx, i32::MIN as int, i32::MIN as int) by {}
    }
    v
}

/// Generate a 2x2x2 voxel block around the hit voxel, aligned to even voxel
/// coordinates.
pub fn get_punch_positions_2x2(cx: i32, cy: i32, cz: i32) -> (v: Vec<(i32, i32, i32)>)
    ensures
        ({
            let (sx, sy, sz) = (cx & !1i32, cy & !1i32, cz & !1i32);
            v@ == seq![
                (sx, sy, sz), (sx, sy, (sz + 1) as i32), (sx, (sy + 1) as i32, sz),
                (sx, (sy + 1) as i32, (sz + 1) as i32), ((sx + 1) as i32, sy, sz),
                ((sx + 1) as i32, sy, (sz + 1) as i32), ((sx + 1) as i32, (sy + 1) as i32, sz),
                ((sx + 1) as i32, (sy + 1) as i32, (sz + 1) as i32),
            ]
        }),
        forall|i: int| 0 <= i < v@.len() ==> even_floor(cx) <= (#[trigger] v@[i]).0 <= even_floor(cx) + 1
            && even_floor(cy) <= v@[i].1 <= even_floor(cy) + 1
            && even_floor(cz) <= v@[i].2 <= even_floor(cz) + 1,
{
    let start_x = cx & !1;
    let start_y = cy & !1;
    let start_z = cz & !1;
    proof {
        lemma_clear_low_bit(cx);
        lemma_clear_low_bit(cy);
        lemma_clear_low_bit(cz);
    }
    let mut positions = Vec::with_capacity(8);
    let mut dx: i32 = 0;
    while dx <= 1
        invariant
            0 <= dx <= 2,
            start_x == even_floor(cx), start_y == even_floor(cy), start_z == even_floor(cz),
            start_x < i32::MAX, start_y < i32::MAX, start_z < i32::MAX,
            positions@.len() == 4 * dx,
            forall|i: int| 0 <= i < positions@.len() ==> positions@[i] == (
                (start_x + i / 4) as i32, (start_y + (i / 2) % 2) as i32, (start_z + i % 2) as i32),
        decreases 2 - dx,
    {
        let mut dy: i32 = 0;
        while dy <= 1
            invariant
                0 <= dx <= 1,
                0 <= dy <= 2,
                start_x < i32::MAX, start_y < i32::MAX, start_z < i32::MAX,
                positions@.len() == 4 * dx + 2 * dy,
                forall|i: int| 0 <= i < positions@.len() ==> positions@[i] == (
                    (start_x + i / 4) as i32, (start_y + (i / 2) % 2) as i32, (start_z + i % 2) as i32),
            decreases 2 - dy,
        {
            let mut dz: i32 = 0;
            while dz <= 1
                invariant
                    0 <= dx <= 1,
                    0 <= dy <= 1,
                    0 <= dz <= 2,
                    start_x < i32::MAX, start_y < i32::MAX, start_z < i32::MAX,
                    positions@.len() == 4 * dx + 2 * dy + dz,
                    forall|i: int| 0 <= i < positions@.len() ==> positions@[i] == (
                        (start_x + i / 4) as i32, (start_y + (i / 2) % 2) as i32, (start_z + i % 2) as i32),
                decreases 2 - dz,
            {
                positions.push((start_x + dx, start_y + dy, start_z + dz));
                dz += 1;
            }
            dy += 1;
        }
        dx += 1;
    }
    proof {
        let (sx, sy, sz) = (start_x, start_y, start_z);
        assert(positions@ =~= seq![
            (sx, sy, sz), (sx, sy, (sz + 1) as i32), (sx, (sy + 1) as i32, sz),
            (sx, (sy + 1) as i32, (sz + 1) as i32), ((sx + 1) as i32, sy, sz),
            ((sx + 1) as i32, sy, (sz + 1) as i32), ((sx + 1) as i32, (sy + 1) as i32, sz),
            ((sx + 1) as i32, (sy + 1) as i32, (sz + 1) as i32),
        ]);
    }
    positions
}

/// The largest even integer not above `x`.
pub open spec fn even_floor(x: i32) -> int {
    x - x % 2
}

/// Clearing the low bit rounds down to an even number.
pub proof fn lemma_clear_low_bit(x: i32)
    ensures
        (x & !1i32) == even_floor(x),
        (x & !1i32) < i32::MAX,
        (x & !1i32) % 2 == 0,
{
    assert((x & !1i32) == x - (x & 1i32)) by (bit_vector);
    assert((x & 1i32) == 0 || (x & 1i32) == 1) by (bit_vector);
    assert(((x & 1i32) == 0) == (x % 2 == 0)) by (bit_vector);
    assert((x & !1i32) != i32::MAX) by (bit_vector);
}


/// The punch block always contains the voxel that was hit.
pub proof fn law_punch_block_contains_hit(c: (i32, i32, i32))
    ensures
        even_floor(c.0) <= c.0 <= even_floor(c.0) + 1,
        even_floor(c.1) <= c.1 <= even_floor(c.1) + 1,
        even_floor(c.2) <= c.2 <= even_floor(c.2) + 1,
{
}

/// A sphere brush never reaches beyond the cube brush of the same size,
/// and both contain their center when the size is not negative.
pub proof fn law_sphere_within_cube(size: int, c: (i32, i32, i32), p: (i32, i32, i32))
    ensures
        in_brush(BrushShape::Sphere, size, c, p) ==> in_brush(BrushShape::Cube, size, c, p),
        size >= 0 ==> in_brush(BrushShape::Sphere, size, c, c) && in_brush(BrushShape::Cube, size, c, c),
{
    if size >= 0 {
        assert(dist_sq(c, c) == 0);
        assert(0 <= size * size) by (nonlinear_arith);
    }
}

} // verus!
