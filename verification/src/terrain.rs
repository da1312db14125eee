//! Procedural terrain: the integer hash behind the value noise, the
//! material bands below the surface, and LOD voxel grids sampled from
//! column heights.

use vstd::prelude::*;

use crate::chunk::LodNodeKey;
use vstd::arithmetic::power2::{pow2, lemma2_to64, lemma_pow2_pos, lemma_pow2_strictly_increases, lemma_pow2_unfold};

use crate::streaming::{CHUNK_SIZE, MAX_TERRAIN_VOXEL_HEIGHT};

verus! {

/// The integer mixing of `hash_2d`: 31 pseudo-random bits for a column.
pub open spec fn spec_hash_bits(x: i32, z: i32) -> u32 {
    let a = (((x as int * 374761393) as u32) as int + ((z as int * 668265263) as u32) as int) as u32;
    let b = (((a ^ (a >> 13u32)) as int) * 1274126177) as u32;
    let c = b ^ (b >> 16u32);
    c & 0x7FFF_FFFFu32
}

/// Pseudo-random bits for a column; the noise value is these bits divided
/// by `0x7FFF_FFFF`.
pub fn hash_bits(x: i32, z: i32) -> (r: u32)
    ensures
        r == spec_hash_bits(x, z),
        r <= 0x7FFF_FFFF,
{
    let xa: u32 = (x as i64 * 374761393i64) as u32;
    let za: u32 = (z as i64 * 668265263i64) as u32;
    let n: u32 = (xa as u64 + za as u64) as u32;
    let m: u32 = n ^ (n >> 13u32);
    let n2: u32 = (m as u64 * 1274126177u64) as u32;
    let n3: u32 = n2 ^ (n2 >> 16u32);
    let r: u32 = n3 & 0x7FFF_FFFFu32;
    assert(r <= 0x7FFF_FFFF) by (bit_vector)
        requires r == n3 & 0x7FFF_FFFFu32;
    r
}

/// Material layers below the terrain surface.
#[derive(Debug, Clone, Copy, PartialEq, Eq, Structural)]
pub enum Band {
    /// High altitude snow caps
    Snow,
    /// Bare rock of the mountain zone
    MountainRock,
    /// Grass at the surface
    Grass,
    /// Dirt under the surface
    Dirt,
    /// Shallow rock layer
    ShallowRock,
    /// Deep bedrock
    Bedrock,
}

/// The layer of a voxel `depth` voxels under a surface at `height`.
pub open spec fn spec_band(height: int, depth: int) -> Band {
    if height > 700 && depth <= 2 {
        Band::Snow
    } else if height > 500 && depth <= 1 {
        Band::MountainRock
    } else if depth <= 1 {
        Band::Grass
    } else if depth <= 5 {
        Band::Dirt
    } else if depth <= 20 {
        Band::ShallowRock
    } else {
        Band::Bedrock
    }
}

pub fn surface_band(height: i64, depth: i64) -> (b: Band)
    ensures
        b == spec_band(height as int, depth as int),
{
    if height > 700 && depth <= 2 {
        Band::Snow
    } else if height > 500 && depth <= 1 {
        Band::MountainRock
    } else if depth <= 1 {
        Band::Grass
    } else if depth <= 5 {
        Band::Dirt
    } else if depth <= 20 {
        Band::ShallowRock
    } else {
        Band::Bedrock
    }
}

/// Palette index used for a layer in LOD grids.
pub open spec fn band_color(b: Band) -> u8 {
    match b {
        Band::Snow => 15,
        Band::MountainRock => 42,
        Band::Grass => 49,
        Band::Dirt => 33,
        Band::ShallowRock => 42,
        Band::Bedrock => 44,
    }
}

pub fn lod_material(height: i64, depth: i64) -> (m: u8)
    ensures
        m == band_color(spec_band(height as int, depth as int)),
        m != 0,
{
    match surface_band(height, depth) {
        Band::Snow => 15,
        Band::MountainRock => 42,
        Band::Grass => 49,
        Band::Dirt => 33,
        Band::ShallowRock => 42,
        Band::Bedrock => 44,
    }
}

/// Voxels per LOD cell edge at a level: 2^level.
pub open spec fn cell_size(level: nat) -> int {
    pow2(level) as int
}

/// Edge of the LOD grid, in cells (one chunk's worth of cells).
pub open spec fn grid() -> int {
    32
}

/// World voxel origin of a LOD node along one axis.
pub open spec fn lod_origin(c: i32, level: u8) -> int {
    c * cell_size(level as nat) * grid()
}

/// World voxel coordinate sampled for cell `l` along an axis.
pub open spec fn lod_sample(c: i32, level: u8, l: int) -> int {
    lod_origin(c, level) + l * cell_size(level as nat) + cell_size(level as nat) / 2
}

/// Whether every coordinate the node samples fits in an `i32`.
pub open spec fn lod_key_in_range(key: LodNodeKey) -> bool {
    &&& key.lod_level <= 30
    &&& i32::MIN <= lod_origin(key.x, key.lod_level) && lod_sample(key.x, key.lod_level, grid() - 1) <= i32::MAX
    &&& i32::MIN <= lod_origin(key.y, key.lod_level) && lod_sample(key.y, key.lod_level, grid() - 1) <= i32::MAX
    &&& i32::MIN <= lod_origin(key.z, key.lod_level) && lod_sample(key.z, key.lod_level, grid() - 1) <= i32::MAX
}

fn cell_size_of(level: u8) -> (c: i64)
    requires
        level <= 30,
    ensures
        c == cell_size(level as nat),
        1 <= c <= 0x4000_0000,
{
    proof {
        lemma2_to64();
    }
    let mut c: i64 = 1;
    let mut i: u8 = 0;
    while i < level
        invariant
            i <= level <= 30,
            c == pow2(i as nat),
            pow2(30) == 0x4000_0000,
        decreases level - i,
    {
        proof {
            lemma_pow2_strictly_increases(i as nat, 30);
            lemma_pow2_unfold((i + 1) as nat);
        }
        c = c * 2;
        i = i + 1;
    }
    proof {
        lemma_pow2_pos(level as nat);
        if level < 30 {
            lemma_pow2_strictly_increases(level as nat, 30);
        }
    }
    c
}

/// Index of cell (`lx`, `ly`, `lz`) in a flattened LOD grid.
pub open spec fn grid_index(lx: int, ly: int, lz: int) -> int {
    (lx * grid() + ly) * grid() + lz
}

/// Content of a LOD cell: air (0) at or above the column's height, else the
/// palette index of its layer.
pub open spec fn lod_cell(key: LodNodeKey, heights: Seq<i32>, lx: int, ly: int, lz: int) -> u8 {
    let h = heights[lx * grid() + lz] as int;
    let wy = lod_sample(key.y, key.lod_level, ly);
    if wy >= h { 0 } else { band_color(spec_band(h, h - wy)) }
}

/// A LOD node is all air when it starts above the highest terrain or no
/// column reaches its lowest sample.
pub open spec fn lod_all_air(key: LodNodeKey, heights: Seq<i32>) -> bool {
    lod_origin(key.y, key.lod_level) > MAX_TERRAIN_VOXEL_HEIGHT
    || forall|lx: int, lz: int| 0 <= lx < grid() && 0 <= lz < grid()
        ==> lod_sample(key.y, key.lod_level, 0) >= #[trigger] heights[lx * grid() + lz]
}

fn axis_fits(c: i32, cell: i64) -> (b: bool)
    requires
        1 <= cell <= 0x4000_0000,
    ensures
        b == (i32::MIN <= c * cell * grid() && c * cell * grid() + (grid() - 1) * cell + cell / 2 <= i32::MAX),
{
    let ci: i128 = c as i128;
    let celli: i128 = cell as i128;
    assert(-0x8000_0000 * 0x4000_0000 <= ci * celli <= 0x8000_0000 * 0x4000_0000) by (nonlinear_arith)
        requires -0x8000_0000 <= ci <= 0x7FFF_FFFF, 1 <= celli <= 0x4000_0000;
    let o: i128 = ci * celli * 32;
    let last: i128 = o + 31 * celli + celli / 2;
    i32::MIN as i128 <= o && last <= i32::MAX as i128
}

/// Whether every coordinate a LOD node samples fits in an `i32` (the
/// level is at most 30 and the node's voxel range lies inside `i32`).
pub fn lod_key_fits(key: &LodNodeKey) -> (b: bool)
    ensures
        b == lod_key_in_range(*key),
{
    if key.lod_level > 30 {
        return false;
    }
    let cell = cell_size_of(key.lod_level);
    axis_fits(key.x, cell) && axis_fits(key.y, cell) && axis_fits(key.z, cell)
}

/// Whether a LOD node starts above the highest terrain (and so is air).
pub fn lod_node_above_terrain(key: &LodNodeKey) -> (b: bool)
    requires
        lod_key_in_range(*key),
    ensures
        b == (lod_origin(key.y, key.lod_level) > MAX_TERRAIN_VOXEL_HEIGHT),
{
    let cell = cell_size_of(key.lod_level);
    let oy: i64 = key.y as i64 * cell * 32;
    oy > MAX_TERRAIN_VOXEL_HEIGHT as i64
}

/// Sampled columns of a LOD node, in the order `heights` expects:
/// entry `lx * 32 + lz` is the column of cell (`lx`, `lz`).
pub fn lod_sample_columns(key: &LodNodeKey) -> (cols: Vec<(i32, i32)>)
    requires
        lod_key_in_range(*key),
    ensures
        cols@.len() == 1024,
        forall|lx: int, lz: int| 0 <= lx < grid() && 0 <= lz < grid() ==>
            #[trigger] cols@[lx * grid() + lz] == (lod_sample(key.x, key.lod_level, lx) as i32, lod_sample(key.z, key.lod_level, lz) as i32),
{
    let cell = cell_size_of(key.lod_level);
    proof {
        assert(-0x8000_0000 <= key.x * cell * 32 <= 0x7FFF_FFFF);
        assert(-0x8000_0000 <= key.z * cell * 32 <= 0x7FFF_FFFF);
    }
    let ox: i64 = key.x as i64 * cell * 32;
    let oz: i64 = key.z as i64 * cell * 32;
    let mut cols: Vec<(i32, i32)> = Vec::new();
    let mut lx: i64 = 0;
    while lx < 32
        invariant
            0 <= lx <= 32,
            cell == cell_size(key.lod_level as nat),
            1 <= cell <= 0x4000_0000,
            ox == lod_origin(key.x, key.lod_level),
            oz == lod_origin(key.z, key.lod_level),
            lod_key_in_range(*key),
            cols@.len() == lx * 32,
            forall|a: int, b: int| 0 <= a < lx && 0 <= b < grid() ==>
                #[trigger] cols@[a * grid() + b] == (lod_sample(key.x, key.lod_level, a) as i32, lod_sample(key.z, key.lod_level, b) as i32),
        decreases 32 - lx,
    {
        let mut lz: i64 = 0;
        while lz < 32
            invariant
                0 <= lx < 32,
                0 <= lz <= 32,
                cell == cell_size(key.lod_level as nat),
                1 <= cell <= 0x4000_0000,
                ox == lod_origin(key.x, key.lod_level),
                oz == lod_origin(key.z, key.lod_level),
                lod_key_in_range(*key),
                cols@.len() == lx * 32 + lz,
                forall|a: int, b: int| 0 <= a < lx && 0 <= b < grid() ==>
                    #[trigger] cols@[a * grid() + b] == (lod_sample(key.x, key.lod_level, a) as i32, lod_sample(key.z, key.lod_level, b) as i32),
                forall|b: int| 0 <= b < lz ==>
                    #[trigger] cols@[lx * grid() + b] == (lod_sample(key.x, key.lod_level, lx as int) as i32, lod_sample(key.z, key.lod_level, b) as i32),
            decreases 32 - lz,
        {
            proof {
                assert(lx * cell <= 31 * cell) by (nonlinear_arith) requires lx <= 31, cell >= 0;
                assert(lz * cell <= 31 * cell) by (nonlinear_arith) requires lz <= 31, lz >= 0, cell >= 0;
                assert(0 <= lx * cell) by (nonlinear_arith) requires lx >= 0, cell >= 0;
                assert(0 <= lz * cell) by (nonlinear_arith) requires lz >= 0, cell >= 0;
            }
            let wx: i64 = ox + lx * cell + cell / 2;
            let wz: i64 = oz + lz * cell + cell / 2;
            cols.push((wx as i32, wz as i32));
            lz = lz + 1;
        }
        lx = lx + 1;
    }
    cols
}

/// Build the voxel grid of a LOD node from the terrain heights at its
/// sampled columns (`heights[lx * 32 + lz]`, see `lod_sample_columns`).
/// `None` when the node is all air; else the 32³ grid flattened as
/// `grid_index` says.
pub fn generate_lod_data(key: &LodNodeKey, heights: &Vec<i32>) -> (r: Option<Vec<u8>>)
    requires
        lod_key_in_range(*key),
        heights@.len() == 1024,
    ensures
        r.is_none() == lod_all_air(*key, heights@),
        r matches Some(v) ==> v@.len() == 32768
            && forall|lx: int, ly: int, lz: int| 0 <= lx < grid() && 0 <= ly < grid() && 0 <= lz < grid()
                ==> #[trigger] v@[grid_index(lx, ly, lz)] == lod_cell(*key, heights@, lx, ly, lz),
{
    let cell = cell_size_of(key.lod_level);
    proof {
        assert(-0x8000_0000 <= key.y * cell * 32 <= 0x7FFF_FFFF);
    }
    let oy: i64 = key.y as i64 * cell * 32;
    if oy > MAX_TERRAIN_VOXEL_HEIGHT as i64 {
        return None;
    }
    let mut v: Vec<u8> = Vec::new();
    let mut has_solid = false;
    let mut lx: usize = 0;
    while lx < 32
        invariant
            0 <= lx <= 32,
            heights@.len() == 1024,
            cell == cell_size(key.lod_level as nat),
            1 <= cell <= 0x4000_0000,
            oy == lod_origin(key.y, key.lod_level),
            lod_key_in_range(*key),
            v@.len() == lx * 1024,
            forall|a: int, b: int, c: int| 0 <= a < lx && 0 <= b < grid() && 0 <= c < grid()
                ==> #[trigger] v@[grid_index(a, b, c)] == lod_cell(*key, heights@, a, b, c),
            has_solid == exists|a: int, c: int| 0 <= a < lx && 0 <= c < grid()
                && lod_sample(key.y, key.lod_level, 0) < #[trigger] heights@[a * grid() + c],
        decreases 32 - lx,
    {
        let mut ly: usize = 0;
        while ly < 32
            invariant
                0 <= lx < 32,
                0 <= ly <= 32,
                heights@.len() == 1024,
                cell == cell_size(key.lod_level as nat),
                1 <= cell <= 0x4000_0000,
                oy == lod_origin(key.y, key.lod_level),
                lod_key_in_range(*key),
                v@.len() == lx * 1024 + ly * 32,
                forall|a: int, b: int, c: int| 0 <= a < lx && 0 <= b < grid() && 0 <= c < grid()
                    ==> #[trigger] v@[grid_index(a, b, c)] == lod_cell(*key, heights@, a, b, c),
                forall|b: int, c: int| 0 <= b < ly && 0 <= c < grid()
                    ==> #[trigger] v@[grid_index(lx as int, b, c)] == lod_cell(*key, heights@, lx as int, b, c),
                has_solid == ((exists|a: int, c: int| 0 <= a < lx && 0 <= c < grid()
                    && lod_sample(key.y, key.lod_level, 0) < #[trigger] heights@[a * grid() + c])
                    || (ly > 0 && exists|c: int| 0 <= c < grid()
                    && lod_sample(key.y, key.lod_level, 0) < #[trigger] heights@[lx * grid() + c])),
            decreases 32 - ly,
        {
            proof {
                assert(ly * cell <= 31 * cell) by (nonlinear_arith) requires ly <= 31, cell >= 0;
                assert(0 <= ly * cell) by (nonlinear_arith) requires ly >= 0, cell >= 0;
            }
            let wy: i64 = oy + (ly as i64) * cell + cell / 2;
            let mut lz: usize = 0;
            let ghost row_solid = exists|c: int| 0 <= c < grid()
                && lod_sample(key.y, key.lod_level, 0) < #[trigger] heights@[lx * grid() + c];
            while lz < 32
                invariant
                    0 <= lx < 32,
                    0 <= ly < 32,
                    0 <= lz <= 32,
                    heights@.len() == 1024,
                    cell == cell_size(key.lod_level as nat),
                    1 <= cell <= 0x4000_0000,
                    oy == lod_origin(key.y, key.lod_level),
                    wy == lod_sample(key.y, key.lod_level, ly as int),
                    lod_key_in_range(*key),
                    v@.len() == lx * 1024 + ly * 32 + lz,
                    forall|a: int, b: int, c: int| 0 <= a < lx && 0 <= b < grid() && 0 <= c < grid()
                        ==> #[trigger] v@[grid_index(a, b, c)] == lod_cell(*key, heights@, a, b, c),
                    forall|b: int, c: int| 0 <= b < ly && 0 <= c < grid()
                        ==> #[trigger] v@[grid_index(lx as int, b, c)] == lod_cell(*key, heights@, lx as int, b, c),
                    forall|c: int| 0 <= c < lz
                        ==> #[trigger] v@[grid_index(lx as int, ly as int, c)] == lod_cell(*key, heights@, lx as int, ly as int, c),
                    has_solid == ((exists|a: int, c: int| 0 <= a < lx && 0 <= c < grid()
                        && lod_sample(key.y, key.lod_level, 0) < #[trigger] heights@[a * grid() + c])
                        || (ly > 0 && exists|c: int| 0 <= c < grid()
                        && lod_sample(key.y, key.lod_level, 0) < #[trigger] heights@[lx * grid() + c])
                        || (ly == 0 && exists|c: int| 0 <= c < lz
                        && lod_sample(key.y, key.lod_level, 0) < #[trigger] heights@[lx * grid() + c])),
                decreases 32 - lz,
            {
                let h: i32 = heights[lx * 32 + lz];
                let cellv: u8 = if wy >= h as i64 {
                    0
                } else {
                    lod_material(h as i64, h as i64 - wy)
                };
                if cellv != 0 {
                    has_solid = true;
                }
                v.push(cellv);
                lz = lz + 1;
            }
            ly = ly + 1;
        }
        lx = lx + 1;
    }
    if !has_solid {
        return None;
    }
    Some(v)
}


/// LOD columns have no overhangs: below a solid cell every cell of the
/// column is solid.
pub proof fn law_lod_column_solid_below(key: LodNodeKey, heights: Seq<i32>, lx: int, ly1: int, ly2: int, lz: int)
    requires
        lod_key_in_range(key),
        heights.len() == 1024,
        0 <= lx < grid(),
        0 <= lz < grid(),
        0 <= ly1 < ly2 < grid(),
        lod_cell(key, heights, lx, ly2, lz) != 0,
    ensures
        lod_cell(key, heights, lx, ly1, lz) != 0,
{
    let c = cell_size(key.lod_level as nat);
    assert(ly1 * c <= ly2 * c) by (nonlinear_arith) requires ly1 <= ly2, c >= 0;
    lemma_pow2_pos(key.lod_level as nat);
}

} // verus!
