//! Tile indices of the XYZ scheme: zoom rescaling, padding, quadrant children,
//! tile-edge longitudes and icon anchoring on a pixel grid.

use vstd::arithmetic::div_mod::lemma_fundamental_div_mod_converse_div;
use vstd::arithmetic::power2::{
    lemma2_to64, lemma_pow2_pos, lemma_pow2_strictly_increases, pow2,
};
use vstd::bits::{lemma_u32_shr_is_div, lemma_u64_shl_is_mul};
use vstd::prelude::*;

verus! {

/// Edge length of a served tile, in pixels.
pub const TILE_SIZE: u32 = 256;

/// Number of neighbouring tiles added on each side of a tile when padding.
pub const TILE_OFFSET: u32 = 1;

/// Number of tiles along one edge of a padded area.
pub const TILE_OFFSET_LENGTH: u32 = TILE_OFFSET * 2 + 1;

/// Edge length, in pixels, of the canvas that covers a padded area.
pub const TILE_INFLATED: u32 = TILE_OFFSET_LENGTH * TILE_SIZE;

/// Pixel offset of the central tile inside the padded canvas.
pub const TILE_ORIGINAL_START: u32 = TILE_OFFSET * TILE_SIZE;

/// A tile of the XYZ scheme: column `x`, row `y`, zoom level `z`.
#[derive(Clone, Copy, Debug, PartialEq, Eq, Hash, Structural)]
pub struct XYZ {
    pub x: u32,
    pub y: u32,
    pub z: u16,
}

/// A pair of pixel quantities: a size or a position on a raster.
#[derive(Clone, Copy, Debug, PartialEq, Eq, Structural)]
pub struct Raster {
    pub x: u32,
    pub y: u32,
}

/// Number of tiles along one edge of the grid at zoom `z`.
pub open spec fn grid(z: u16) -> nat {
    pow2(z as nat)
}

impl XYZ {
    /// The tile lies on the grid of its zoom level.
    pub open spec fn wf(&self) -> bool {
        self.x < grid(self.z) && self.y < grid(self.z)
    }
}

/// The tile that covers `pane` at the coarser zoom `new_z`; a tile already at
/// or above that zoom is its own cover.
pub open spec fn scaled(new_z: u16, pane: XYZ) -> XYZ {
    if pane.z <= new_z {
        pane
    } else {
        let d = pow2((pane.z - new_z) as nat);
        XYZ { x: (pane.x as nat / d) as u32, y: (pane.y as nat / d) as u32, z: new_z }
    }
}

proof fn lemma_small_div_pow2(v: u32, shift: nat)
    requires
        shift >= 32,
    ensures
        v as nat / pow2(shift) == 0,
{
    lemma2_to64();
    if shift > 32 {
        lemma_pow2_strictly_increases(32, shift);
    }
    lemma_fundamental_div_mod_converse_div(v as int, pow2(shift) as int, 0, v as int);
}

/// Rescales a tile to the coarser zoom `new_z` by dividing its indices by
/// `2^(z - new_z)`; a tile at or above `new_z` comes back unchanged.
pub fn zoom_scale(new_z: u16, pane: &XYZ) -> (r: XYZ)
    ensures
        r == scaled(new_z, *pane),
        pane.z > new_z ==> r.z == new_z,
        pane.wf() ==> r.wf(),
{
    if pane.z <= new_z {
        return *pane;
    }
    let shift: u16 = pane.z - new_z;
    let r = if shift >= 32 {
        proof {
            lemma_small_div_pow2(pane.x, shift as nat);
            lemma_small_div_pow2(pane.y, shift as nat);
        }
        XYZ { x: 0, y: 0, z: new_z }
    } else {
        let s: u32 = shift as u32;
        proof {
            lemma_u32_shr_is_div(pane.x, s);
            lemma_u32_shr_is_div(pane.y, s);
        }
        XYZ { x: pane.x >> s, y: pane.y >> s, z: new_z }
    };
    proof {
        if pane.wf() {
            lemma_scaled_on_grid(new_z, *pane);
        }
    }
    r
}

proof fn lemma_scaled_on_grid(new_z: u16, pane: XYZ)
    requires
        pane.wf(),
        pane.z > new_z,
    ensures
        scaled(new_z, pane).wf(),
{
    let k = (pane.z - new_z) as nat;
    let d = pow2(k);
    let n = pow2(new_z as nat);
    vstd::arithmetic::power2::lemma_pow2_adds(new_z as nat, k);
    lemma_pow2_pos(k);
    lemma_pow2_pos(new_z as nat);
    assert(pow2(pane.z as nat) == n * d);
    vstd::arithmetic::mul::lemma_mul_is_commutative(n as int, d as int);
    vstd::arithmetic::div_mod::lemma_multiply_divide_lt(pane.x as int, d as int, n as int);
    vstd::arithmetic::div_mod::lemma_multiply_divide_lt(pane.y as int, d as int, n as int);
}

/// Every tile at zoom `pane.z` whose indices fall inside the span of the
/// coarser tile `cover` is rescaled to exactly `cover`: all fine tiles of one
/// coarse area share a single bucket.
pub proof fn lemma_zoom_bucket_shared(cover: XYZ, pane: XYZ)
    requires
        cover.z < pane.z,
        cover.x * pow2((pane.z - cover.z) as nat) <= pane.x < (cover.x + 1) * pow2(
            (pane.z - cover.z) as nat,
        ),
        cover.y * pow2((pane.z - cover.z) as nat) <= pane.y < (cover.y + 1) * pow2(
            (pane.z - cover.z) as nat,
        ),
    ensures
        scaled(cover.z, pane) == cover,
{
    let d = pow2((pane.z - cover.z) as nat);
    lemma_pow2_pos((pane.z - cover.z) as nat);
    assert((cover.x + 1) * d == cover.x * d + d) by (nonlinear_arith);
    assert((cover.y + 1) * d == cover.y * d + d) by (nonlinear_arith);
    lemma_fundamental_div_mod_converse_div(
        pane.x as int,
        d as int,
        cover.x as int,
        pane.x - cover.x * d,
    );
    lemma_fundamental_div_mod_converse_div(
        pane.y as int,
        d as int,
        cover.y as int,
        pane.y - cover.y * d,
    );
}

/// Shifts the top-left placement of an icon of size `dimensions` so that its
/// anchor point (horizontal centre, bottom edge) lands on `position`; each axis
/// stops at zero.
pub open spec fn anchored(dimensions: Raster, position: Raster) -> Raster {
    Raster {
        x: if position.x > dimensions.x / 2 {
            (position.x - dimensions.x / 2) as u32
        } else {
            0
        },
        y: if position.y > dimensions.y {
            (position.y - dimensions.y) as u32
        } else {
            0
        },
    }
}

/// Top-left placement of an icon of size `dimensions` whose bottom-centre
/// anchor goes on `position`, clamped at zero on each axis.
pub fn translate_edge(dimensions: &Raster, position: &Raster) -> (r: Raster)
    ensures
        r == anchored(*dimensions, *position),
        position.x <= dimensions.x / 2 ==> r.x == 0,
        position.y <= dimensions.y ==> r.y == 0,
        position.x >= dimensions.x / 2 ==> r.x + dimensions.x / 2 == position.x,
        position.y >= dimensions.y ==> r.y + dimensions.y == position.y,
{
    let offset_x: u32 = dimensions.x / 2;
    let offset_y: u32 = dimensions.y;
    let translated_x: u32 = if position.x > offset_x {
        position.x - offset_x
    } else {
        0
    };
    let translated_y: u32 = if position.y > offset_y {
        position.y - offset_y
    } else {
        0
    };
    Raster { x: translated_x, y: translated_y }
}

/// First index of the padded range around `v`.
pub open spec fn padded_start(offset: u32, v: u32) -> u32 {
    if v > offset {
        (v - offset) as u32
    } else {
        0
    }
}

/// Exclusive end of the padded range around `v`, clamped to the grid.
pub open spec fn padded_end(offset: u32, v: u32, z: u16) -> nat {
    if v + offset + 1 < grid(z) {
        (v + offset + 1) as nat
    } else {
        grid(z)
    }
}

proof fn lemma_grid_fits(z: u16)
    requires
        z < 32,
    ensures
        grid(z) <= 0x8000_0000,
        grid(z) > 0,
{
    lemma2_to64();
    lemma_pow2_pos(z as nat);
    if z < 31 {
        lemma_pow2_strictly_increases(z as nat, 31);
    }
}

/// Grid size at zoom `z` as a machine integer.
fn grid_len(z: u16) -> (r: u64)
    requires
        z < 32,
    ensures
        r as nat == grid(z),
        0 < r <= 0x8000_0000,
{
    proof {
        lemma_grid_fits(z);
        lemma_u64_shl_is_mul(1, z as u64);
    }
    1u64 << (z as u64)
}

/// The first tile and the exclusive end of the range of tiles within `offset`
/// tiles of `pane`, clamped to the grid.
pub open spec fn padded(offset: u32, pane: XYZ) -> (XYZ, XYZ) {
    (
        XYZ { x: padded_start(offset, pane.x), y: padded_start(offset, pane.y), z: pane.z },
        XYZ {
            x: padded_end(offset, pane.x, pane.z) as u32,
            y: padded_end(offset, pane.y, pane.z) as u32,
            z: pane.z,
        },
    )
}

/// The corner tiles of the area padded by `offset` tiles around `pane`: the
/// first tile of the range and the exclusive end of the range, both clamped to
/// the grid (clamped, never wrapped).
pub fn pad_tiles(offset: u32, pane: &XYZ) -> (r: (XYZ, XYZ))
    requires
        pane.wf(),
        pane.z < 32,
    ensures
        r == padded(offset, *pane),
        r.1.x as nat == padded_end(offset, pane.x, pane.z),
        r.1.y as nat == padded_end(offset, pane.y, pane.z),
        r.0.wf(),
        r.0.x <= pane.x < r.1.x <= grid(pane.z),
        r.0.y <= pane.y < r.1.y <= grid(pane.z),
{
    let n = grid_len(pane.z);
    let top_x: u32 = if pane.x > offset {
        pane.x - offset
    } else {
        0
    };
    let top_y: u32 = if pane.y > offset {
        pane.y - offset
    } else {
        0
    };
    let end_x: u64 = pane.x as u64 + offset as u64 + 1;
    let end_y: u64 = pane.y as u64 + offset as u64 + 1;
    let bottom_x: u64 = if end_x < n {
        end_x
    } else {
        n
    };
    let bottom_y: u64 = if end_y < n {
        end_y
    } else {
        n
    };
    (
        XYZ { x: top_x, y: top_y, z: pane.z },
        XYZ { x: bottom_x as u32, y: bottom_y as u32, z: pane.z },
    )
}

/// The four tiles one zoom level finer that make up `pane`, in the order
/// top-left, top-right, bottom-left, bottom-right.
pub open spec fn quadrants(pane: XYZ) -> Seq<XYZ> {
    let z = (pane.z + 1) as u16;
    seq![
        XYZ { x: (2 * pane.x) as u32, y: (2 * pane.y) as u32, z },
        XYZ { x: (2 * pane.x + 1) as u32, y: (2 * pane.y) as u32, z },
        XYZ { x: (2 * pane.x) as u32, y: (2 * pane.y + 1) as u32, z },
        XYZ { x: (2 * pane.x + 1) as u32, y: (2 * pane.y + 1) as u32, z },
    ]
}

/// The four children of `pane` at the next zoom level, top-left first, then
/// top-right, bottom-left and bottom-right.
pub fn sub_tiles(pane: &XYZ) -> (r: Vec<XYZ>)
    requires
        pane.wf(),
        pane.z < 32,
    ensures
        r@ == quadrants(*pane),
        forall|i: int| 0 <= i < 4 ==> (#[trigger] r@[i]).wf(),
{
    proof {
        lemma_grid_fits(pane.z);
        vstd::arithmetic::power2::lemma_pow2_unfold((pane.z + 1) as nat);
    }
    let z: u16 = pane.z + 1;
    let x: u32 = 2 * pane.x;
    let y: u32 = 2 * pane.y;
    let r = vec![
        XYZ { x, y, z },
        XYZ { x: x + 1, y, z },
        XYZ { x, y: y + 1, z },
        XYZ { x: x + 1, y: y + 1, z },
    ];
    assert(r@ =~= quadrants(*pane));
    r
}

/// A full turn of longitude in units of 1e-7 degree.
pub const FULL_TURN: u64 = 3_600_000_000;

/// Half a turn of longitude in units of 1e-7 degree.
pub const HALF_TURN: i64 = 1_800_000_000;

/// Longitude, in units of 1e-7 degree, of the western edge of column `x` at
/// zoom `z`: `x / 2^z * 360 - 180`, rounded up to the unit.
pub open spec fn longitude_of(x: nat, z: nat) -> int {
    (x * FULL_TURN + pow2(z) - 1) / (pow2(z) as int) - HALF_TURN
}

/// Column, at zoom `z`, of the tile that holds longitude `lon` (in units of
/// 1e-7 degree): the forward Web-Mercator projection of a longitude.
pub open spec fn tile_of_longitude(lon: int, z: nat) -> int {
    ((lon + HALF_TURN) * pow2(z)) / (FULL_TURN as int)
}

/// Longitude of the western edge of column `pane.x`, in units of 1e-7 degree;
/// `pane.x` may be the grid size itself, the eastern edge of the last column.
pub fn tile_longitude(pane: &XYZ) -> (r: i64)
    requires
        pane.z < 32,
        pane.x <= grid(pane.z),
    ensures
        r == longitude_of(pane.x as nat, pane.z as nat),
        -HALF_TURN <= r <= HALF_TURN,
{
    let n = grid_len(pane.z);
    let x: u64 = pane.x as u64;
    proof {
        assert(x * FULL_TURN <= 0x8000_0000 * FULL_TURN) by (nonlinear_arith)
            requires
                x <= 0x8000_0000,
        ;
    }
    let num: u64 = x * FULL_TURN + n - 1;
    let q: u64 = num / n;
    proof {
        assert(num < n * (FULL_TURN + 1)) by (nonlinear_arith)
            requires
                x <= n,
                num == x * FULL_TURN + n - 1,
        ;
        vstd::arithmetic::div_mod::lemma_multiply_divide_lt(
            num as int,
            n as int,
            (FULL_TURN + 1) as int,
        );
        vstd::arithmetic::div_mod::lemma_div_pos_is_pos(num as int, n as int);
    }
    q as i64 - HALF_TURN
}

/// Taking the western edge longitude of a column and projecting it forward at
/// the same zoom recovers the column, for every zoom at which a grid column is
/// wider than the longitude unit.
pub proof fn lemma_longitude_round_trip(x: nat, z: nat)
    requires
        z <= 31,
        x <= pow2(z),
    ensures
        tile_of_longitude(longitude_of(x, z), z) == x,
{
    let n = pow2(z) as int;
    let k = FULL_TURN as int;
    lemma2_to64();
    lemma_pow2_pos(z);
    if z < 31 {
        lemma_pow2_strictly_increases(z, 31);
    }
    let num = x * k + n - 1;
    let q = num / n;
    let rem = num % n;
    vstd::arithmetic::div_mod::lemma_fundamental_div_mod(num, n);
    vstd::arithmetic::div_mod::lemma_mod_pos_bound(num, n);
    assert(longitude_of(x, z) + HALF_TURN == q);
    vstd::arithmetic::mul::lemma_mul_is_commutative(q, n);
    assert(q * n == x * k + (n - 1 - rem));
    assert(0 <= n - 1 - rem < k);
    lemma_fundamental_div_mod_converse_div(q * n, k, x as int, n - 1 - rem);
}

} // verus!
