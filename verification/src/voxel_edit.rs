//! Voxel edit batches: which voxels a click breaks or places.

use vstd::prelude::*;

use crate::brush::{get_brush_positions, get_punch_positions_2x2, in_brush, lex_lt,
    max_exact_sphere_radius, even_floor};
use crate::chunk::ChunkPosition;
use crate::collision::CollisionWorld;
use crate::ui_state::BrushShape;

verus! {

/// Palette index of empty space.
pub const AIR: u8 = 0;

/// Palette index placed by a game-mode click (dirt).
pub const DEFAULT_PLACE_COLOR: u8 = 33;

pub open spec fn pos_of(e: (i32, i32, i32, u8)) -> (i32, i32, i32) {
    (e.0, e.1, e.2)
}

/// Edits are strictly increasing in lexicographic order of their positions.
pub open spec fn edits_sorted(s: Seq<(i32, i32, i32, u8)>) -> bool {
    forall|i: int, j: int| 0 <= i < j < s.len() ==> lex_lt(pos_of(s[i]), pos_of(s[j]))
}

/// Whether `p` lies in the even-aligned 2x2x2 block containing `c`.
pub open spec fn in_punch_block(c: (i32, i32, i32), p: (i32, i32, i32)) -> bool {
    &&& even_floor(c.0) <= p.0 <= even_floor(c.0) + 1
    &&& even_floor(c.1) <= p.1 <= even_floor(c.1) + 1
    &&& even_floor(c.2) <= p.2 <= even_floor(c.2) + 1
}

/// Brush arguments for which `get_brush_positions` is defined.
pub open spec fn brush_ok(shape: BrushShape, size: i32, c: (i32, i32, i32)) -> bool {
    &&& shape != BrushShape::Single ==> c.0 - size >= i32::MIN && c.0 + size <= i32::MAX
        && c.1 - size >= i32::MIN && c.1 + size <= i32::MAX
        && c.2 - size >= i32::MIN && c.2 + size <= i32::MAX
    &&& shape == BrushShape::Sphere ==> -max_exact_sphere_radius() <= size <= max_exact_sphere_radius()
}

/// Keeps the positions whose solidity equals `want_solid`, tagging each with `value`.
fn filter_edits<W: CollisionWorld>(world: &W, positions: &Vec<(i32, i32, i32)>, want_solid: bool, value: u8)
    -> (out: Vec<(i32, i32, i32, u8)>)
    requires
        crate::brush::lex_sorted(positions@),
    ensures
        edits_sorted(out@),
        forall|e: (i32, i32, i32, u8)| out@.contains(e) <==> (positions@.contains(pos_of(e))
            && world.solid(e.0, e.1, e.2) == want_solid && e.3 == value),
{
    let mut out: Vec<(i32, i32, i32, u8)> = Vec::new();
    let mut i: usize = 0;
    while i < positions.len()
        invariant
            0 <= i <= positions@.len(),
            crate::brush::lex_sorted(positions@),
            edits_sorted(out@),
            forall|k: int| 0 <= k < out@.len() ==> exists|j: int| 0 <= j < i && #[trigger] pos_of(out@[k]) == positions@[j],
            forall|e: (i32, i32, i32, u8)| #[trigger] out@.contains(e) <==> (exists|j: int| 0 <= j < i && positions@[j] == pos_of(e))
                && world.solid(e.0, e.1, e.2) == want_solid && e.3 == value,
        decreases positions@.len() - i,
    {
        let (x, y, z) = positions[i];
        let ghost old_out = out@;
        if world.is_solid(x, y, z) == want_solid {
            proof {
                assert forall|k: int| 0 <= k < old_out.len() implies lex_lt(pos_of(old_out[k]), (x, y, z)) by {
                    let j = choose|j: int| 0 <= j < i && #[trigger] pos_of(old_out[k]) == positions@[j];
                }
            }
            out.push((x, y, z, value));
        }
        proof {
            assert forall|e: (i32, i32, i32, u8)| #[trigger] out@.contains(e) <==> (exists|j: int| 0 <= j < i + 1 && positions@[j] == pos_of(e))
                && world.solid(e.0, e.1, e.2) == want_solid && e.3 == value by {
                if out@.contains(e) && !old_out.contains(e) {
                    let k = choose|k: int| 0 <= k < out@.len() && out@[k] == e;
                    assert(k == old_out.len());
                    assert(positions@[i as int] == pos_of(e));
                }
                if old_out.contains(e) {
                    let k = choose|k: int| 0 <= k < old_out.len() && old_out[k] == e;
                    assert(out@[k] == e);
                }
                if (exists|j: int| 0 <= j < i + 1 && positions@[j] == pos_of(e))
                    && world.solid(e.0, e.1, e.2) == want_solid && e.3 == value {
                    let j = choose|j: int| 0 <= j < i + 1 && positions@[j] == pos_of(e);
                    if j == i {
                        assert(e == (x, y, z, value));
                        assert(out@[out@.len() - 1] == e);
                    } else {
                        assert(old_out.contains(e));
                        let k = choose|k: int| 0 <= k < old_out.len() && old_out[k] == e;
                        assert(out@[k] == e);
                    }
                }
            }
        }
        i = i + 1;
    }
    proof {
        assert forall|e: (i32, i32, i32, u8)| out@.contains(e) <==> (positions@.contains(pos_of(e))
            && world.solid(e.0, e.1, e.2) == want_solid && e.3 == value) by {
            if positions@.contains(pos_of(e)) {
                let j = choose|j: int| 0 <= j < positions@.len() && positions@[j] == pos_of(e);
            }
        }
    }
    out
}

/// Voxels a left click removes: in the editor the brush footprint at the
/// hit voxel, in the game the aligned 2x2x2 block; only solid voxels are
/// kept, each set to air.
pub fn break_batch<W: CollisionWorld>(world: &W, hit: (i32, i32, i32), editor: bool, shape: BrushShape, size: i32)
    -> (out: Vec<(i32, i32, i32, u8)>)
    requires
        editor ==> brush_ok(shape, size, hit),
    ensures
        edits_sorted(out@),
        forall|e: (i32, i32, i32, u8)| out@.contains(e) <==> (
            (if editor { in_brush(shape, size as int, hit, pos_of(e)) } else { in_punch_block(hit, pos_of(e)) })
            && world.solid(e.0, e.1, e.2) && e.3 == AIR),
{
    let positions = if editor {
        get_brush_positions(shape, size, hit.0, hit.1, hit.2)
    } else {
        let v = get_punch_positions_2x2(hit.0, hit.1, hit.2);
        proof {
            crate::brush::lemma_clear_low_bit(hit.0);
            crate::brush::lemma_clear_low_bit(hit.1);
            crate::brush::lemma_clear_low_bit(hit.2);
            assert forall|p: (i32, i32, i32)| v@.contains(p) <==> in_punch_block(hit, p) by {
                if in_punch_block(hit, p) {
                    let ix = p.0 - even_floor(hit.0);
                    let iy = p.1 - even_floor(hit.1);
                    let iz = p.2 - even_floor(hit.2);
                    assert(v@[4 * ix + 2 * iy + iz] == p);
                }
            }
            assert(crate::brush::lex_sorted(v@));
        }
        v
    };
    filter_edits(world, &positions, true, AIR)
}

/// Voxels a right click in the editor fills: the brush footprint at the
/// voxel next to the hit face; only empty voxels are kept, each set to `color`.
pub fn place_batch<W: CollisionWorld>(world: &W, hit: (i32, i32, i32), normal: (i32, i32, i32),
    shape: BrushShape, size: i32, color: u8) -> (out: Vec<(i32, i32, i32, u8)>)
    requires
        -1 <= normal.0 <= 1 && -1 <= normal.1 <= 1 && -1 <= normal.2 <= 1,
        i32::MIN < hit.0 < i32::MAX && i32::MIN < hit.1 < i32::MAX && i32::MIN < hit.2 < i32::MAX,
        brush_ok(shape, size, ((hit.0 + normal.0) as i32, (hit.1 + normal.1) as i32, (hit.2 + normal.2) as i32)),
    ensures
        edits_sorted(out@),
        forall|e: (i32, i32, i32, u8)| out@.contains(e) <==> (
            in_brush(shape, size as int, ((hit.0 + normal.0) as i32, (hit.1 + normal.1) as i32, (hit.2 + normal.2) as i32), pos_of(e))
            && !world.solid(e.0, e.1, e.2) && e.3 == color),
{
    let px = hit.0 + normal.0;
    let py = hit.1 + normal.1;
    let pz = hit.2 + normal.2;
    let positions = get_brush_positions(shape, size, px, py, pz);
    filter_edits(world, &positions, false, color)
}


/// Chunk coordinate of a voxel coordinate: the floor of its division by
/// the chunk size (32).
pub open spec fn chunk_coord(v: int) -> int {
    v / 32
}

fn chunk_coord_exec(v: i32) -> (c: i32)
    ensures
        c == chunk_coord(v as int),
{
    if v >= 0 {
        v / 32
    } else {
        let w: i64 = -(v as i64);
        let q: i64 = (w + 31) / 32;
        proof {
            let vi = v as int;
            assert(-q == vi / 32) by (nonlinear_arith)
                requires w == -vi, q == (w + 31) / 32, vi < 0;
        }
        (-q) as i32
    }
}

/// The chunk holding voxel (`x`, `y`, `z`).
pub open spec fn chunk_of(x: i32, y: i32, z: i32) -> ChunkPosition {
    ChunkPosition { x: chunk_coord(x as int) as i32, y: chunk_coord(y as int) as i32, z: chunk_coord(z as int) as i32 }
}

/// The chunks an edit batch touches, each once, in order of first edit.
pub fn edited_chunks(batch: &Vec<(i32, i32, i32, u8)>) -> (v: Vec<ChunkPosition>)
    ensures
        v@.no_duplicates(),
        forall|c: ChunkPosition| v@.contains(c) <==>
            exists|i: int| 0 <= i < batch@.len() && #[trigger] chunk_of(batch@[i].0, batch@[i].1, batch@[i].2) == c,
{
    let mut v: Vec<ChunkPosition> = Vec::new();
    let mut i: usize = 0;
    while i < batch.len()
        invariant
            i <= batch@.len(),
            v@.no_duplicates(),
            forall|c: ChunkPosition| v@.contains(c) <==>
                exists|j: int| 0 <= j < i && #[trigger] chunk_of(batch@[j].0, batch@[j].1, batch@[j].2) == c,
        decreases batch@.len() - i,
    {
        let e = batch[i];
        let c = ChunkPosition { x: chunk_coord_exec(e.0), y: chunk_coord_exec(e.1), z: chunk_coord_exec(e.2) };
        assert(c == chunk_of(batch@[i as int].0, batch@[i as int].1, batch@[i as int].2));
        let mut seen = false;
        let mut k: usize = 0;
        while k < v.len()
            invariant
                k <= v@.len(),
                seen == exists|m: int| 0 <= m < k && v@[m] == c,
            decreases v@.len() - k,
        {
            if v[k] == c {
                seen = true;
            }
            k = k + 1;
        }
        let ghost before = v@;
        if !seen {
            v.push(c);
        }
        proof {
            assert forall|d: ChunkPosition| v@.contains(d) <==>
                exists|j: int| 0 <= j < i + 1 && #[trigger] chunk_of(batch@[j].0, batch@[j].1, batch@[j].2) == d by {
                if v@.contains(d) && !before.contains(d) {
                    let m = choose|m: int| 0 <= m < v@.len() && v@[m] == d;
                    if m < before.len() {
                        assert(before[m] == d);
                    }
                    assert(d == c);
                }
                if before.contains(d) {
                    let m = choose|m: int| 0 <= m < before.len() && before[m] == d;
                    assert(v@[m] == d);
                }
                if d == c {
                    if seen {
                        let m = choose|m: int| 0 <= m < before.len() && before[m] == c;
                        assert(before.contains(c));
                    } else {
                        assert(v@[before.len() as int] == d);
                    }
                }
            }
        }
        i = i + 1;
    }
    v
}

} // verus!
