//! Continuous pan/zoom state of the view, held in fixed-point tile units:
//! the center coordinates count 256ths of a tile (one pixel at the current
//! zoom), so every pan and zoom command is exact integer arithmetic.

use crate::tile::MAX_ZOOM;
use crate::tile::TilePos;
use vstd::arithmetic::power2::lemma2_to64;
use vstd::arithmetic::power2::lemma_pow2_strictly_increases;
use vstd::arithmetic::power2::pow2;
use vstd::prelude::*;

verus! {

/// Subtile units per tile: the fixed-point denominator of the center
/// coordinates, equal to the tile edge in pixels.
pub const SUBTILE: i64 = 256;

/// Largest magnitude the center coordinates may take, far outside any
/// address the pyramid can hold; pans and zooms clamp to it so the
/// arithmetic can never overflow.
pub const MAX_CENTER: i64 = 0x4000_0000_0000;

/// A center coordinate forced back into its allowed band.
pub open spec fn clamp_center(c: int) -> int {
    if c < -MAX_CENTER {
        -MAX_CENTER as int
    } else if c > MAX_CENTER {
        MAX_CENTER as int
    } else {
        c
    }
}

/// The pan/zoom state: a zoom level and the point of the tile plane,
/// in subtile units at that zoom, that sits at the window center.
#[derive(Debug, Copy, Clone, PartialEq, Eq, Structural)]
pub struct Viewport {
    pub z: u8,
    pub center_x: i64,
    pub center_y: i64,
}

impl Viewport {
    /// The state is within bounds: zoom inside the pyramid, center
    /// coordinates inside the clamp band.
    pub open spec fn wf(self) -> bool {
        &&& self.z <= MAX_ZOOM
        &&& -MAX_CENTER <= self.center_x <= MAX_CENTER
        &&& -MAX_CENTER <= self.center_y <= MAX_CENTER
    }

    /// Whether the state is within bounds, decidable at run time, so
    /// unchecked callers can test it before entering the library.
    pub fn is_valid(&self) -> (r: bool)
        ensures
            r == self.wf(),
    {
        self.z <= MAX_ZOOM && -MAX_CENTER <= self.center_x && self.center_x <= MAX_CENTER
            && -MAX_CENTER <= self.center_y && self.center_y <= MAX_CENTER
    }

    /// The state after panning by (dx, dy) subtile units.
    pub open spec fn spec_pan(self, dx: int, dy: int) -> Viewport {
        Viewport {
            z: self.z,
            center_x: clamp_center(self.center_x + dx) as i64,
            center_y: clamp_center(self.center_y + dy) as i64,
        }
    }

    /// The state one zoom level deeper: the center doubles, then shifts
    /// by half a tile so the same point of the plane stays centered.
    /// No-op at `MAX_ZOOM`.
    pub open spec fn spec_zoom_in(self) -> Viewport {
        if self.z >= MAX_ZOOM {
            self
        } else {
            Viewport {
                z: (self.z + 1) as u8,
                center_x: clamp_center(2 * self.center_x + SUBTILE / 2) as i64,
                center_y: clamp_center(2 * self.center_y + SUBTILE / 2) as i64,
            }
        }
    }

    /// The state one zoom level up: the inverse shift and halving, so the
    /// same point of the plane stays centered. No-op at zoom 0.
    pub open spec fn spec_zoom_out(self) -> Viewport {
        if self.z == 0 {
            self
        } else {
            Viewport {
                z: (self.z - 1) as u8,
                center_x: ((self.center_x + SUBTILE / 2) / 2 - SUBTILE / 2) as i64,
                center_y: ((self.center_y + SUBTILE / 2) / 2 - SUBTILE / 2) as i64,
            }
        }
    }

    /// Move the center by (dx, dy) subtile units, clamped to the band.
    pub fn pan(&mut self, dx: i64, dy: i64)
        requires
            old(self).wf(),
            -0x1000_0000_0000_0000 <= dx <= 0x1000_0000_0000_0000,
            -0x1000_0000_0000_0000 <= dy <= 0x1000_0000_0000_0000,
        ensures
            *final(self) == old(self).spec_pan(dx as int, dy as int),
            final(self).wf(),
    {
        self.center_x = clamp_exec(self.center_x + dx);
        self.center_y = clamp_exec(self.center_y + dy);
    }

    /// Go one zoom level deeper, keeping the centered point fixed;
    /// no-op at `MAX_ZOOM`.
    pub fn zoom_in(&mut self)
        requires
            old(self).wf(),
        ensures
            *final(self) == old(self).spec_zoom_in(),
            final(self).wf(),
    {
        if self.z < MAX_ZOOM {
            self.center_x = clamp_exec(2 * self.center_x + SUBTILE / 2);
            self.center_y = clamp_exec(2 * self.center_y + SUBTILE / 2);
            self.z = self.z + 1;
        }
    }

    /// Go one zoom level up, keeping the centered point fixed;
    /// no-op at zoom 0.
    pub fn zoom_out(&mut self)
        requires
            old(self).wf(),
        ensures
            *final(self) == old(self).spec_zoom_out(),
            final(self).wf(),
    {
        if self.z > 0 {
            self.center_x = half_floor(self.center_x + SUBTILE / 2) - SUBTILE / 2;
            self.center_y = half_floor(self.center_y + SUBTILE / 2) - SUBTILE / 2;
            self.z = self.z - 1;
        }
    }

    /// Pan so that the clicked window pixel becomes the window center.
    /// One pixel is one subtile unit, so the pan offset is the pixel's
    /// distance from the window center.
    pub fn center_on_pixel(&mut self, win_w: u32, win_h: u32, px: i32, py: i32)
        requires
            old(self).wf(),
        ensures
            *final(self) == old(self).spec_pan(
                px as int - (win_w as int) / 2,
                py as int - (win_h as int) / 2,
            ),
            final(self).wf(),
    {
        let dx: i64 = px as i64 - (win_w / 2) as i64;
        let dy: i64 = py as i64 - (win_h / 2) as i64;
        self.pan(dx, dy);
    }

    /// Center on the clicked pixel, then zoom in, so the clicked point of
    /// the plane stays under the cursor.
    pub fn zoom_in_at_pixel(&mut self, win_w: u32, win_h: u32, px: i32, py: i32)
        requires
            old(self).wf(),
        ensures
            *final(self) == old(self).spec_pan(
                px as int - (win_w as int) / 2,
                py as int - (win_h as int) / 2,
            ).spec_zoom_in(),
            final(self).wf(),
    {
        self.center_on_pixel(win_w, win_h, px, py);
        self.zoom_in()
    }

    /// Where a tile sits relative to the window center, in subtile
    /// (pixel) units at the current zoom; the renderer scales this into
    /// its own device coordinates.
    pub fn tile_offset(&self, t: &TilePos) -> (r: (i64, i64))
        requires
            self.wf(),
            t.wf(),
        ensures
            r.0 == t.x * 256 - self.center_x,
            r.1 == t.y * 256 - self.center_y,
    {
        ((t.x as i64) * 256 - self.center_x, (t.y as i64) * 256 - self.center_y)
    }

    /// Tiles needed along one axis to cover a window edge of `w` pixels,
    /// plus a one-tile border on each side.
    pub open spec fn tile_span(w: u32) -> int {
        (w as int + 255) / 256 + 2
    }

    /// First visible column: half the span to the left of the center's
    /// column, clamped to the grid.
    pub open spec fn col_lo(self, win_w: u32) -> int {
        let raw = self.center_x as int / 256 - Self::tile_span(win_w) / 2;
        if raw < 0 {
            0
        } else {
            raw
        }
    }

    /// Last visible column: half the span to the right of the center's
    /// column (rounded up), clamped to the grid.
    pub open spec fn col_hi(self, win_w: u32) -> int {
        let raw = (self.center_x as int + 255) / 256 + Self::tile_span(win_w) / 2;
        if raw > pow2(self.z as nat) - 1 {
            pow2(self.z as nat) - 1
        } else {
            raw
        }
    }

    /// First visible row, as `col_lo`.
    pub open spec fn row_lo(self, win_h: u32) -> int {
        let raw = self.center_y as int / 256 - Self::tile_span(win_h) / 2;
        if raw < 0 {
            0
        } else {
            raw
        }
    }

    /// Last visible row, as `col_hi`.
    pub open spec fn row_hi(self, win_h: u32) -> int {
        let raw = (self.center_y as int + 255) / 256 + Self::tile_span(win_h) / 2;
        if raw > pow2(self.z as nat) - 1 {
            pow2(self.z as nat) - 1
        } else {
            raw
        }
    }

    /// The addresses of the tiles covering a window of the given pixel
    /// size plus a one-tile border, clamped to the grid of the current
    /// zoom level, tagged with imagery source `m`, in row-major order.
    pub fn visible_addresses(&self, win_w: u32, win_h: u32, m: u8) -> (r: Vec<TilePos>)
        requires
            self.wf(),
            win_w <= 0x100_0000,
            win_h <= 0x100_0000,
        ensures
            ({
                let xl = self.col_lo(win_w);
                let xh = self.col_hi(win_w);
                let yl = self.row_lo(win_h);
                let yh = self.row_hi(win_h);
                let nx = if xh >= xl {
                    xh - xl + 1
                } else {
                    0
                };
                let ny = if yh >= yl {
                    yh - yl + 1
                } else {
                    0
                };
                &&& r@.len() == nx * ny
                &&& forall|j: int, i: int|
                    0 <= j < ny && 0 <= i < nx ==> #[trigger] r@[j * nx + i] == (TilePos {
                        z: self.z,
                        x: (xl + i) as u32,
                        y: (yl + j) as u32,
                        m,
                    })
                &&& forall|k: int| 0 <= k < r@.len() ==> (#[trigger] r@[k]).wf()
            }),
    {
        proof {
            lemma2_to64();
            if self.z < MAX_ZOOM {
                lemma_pow2_strictly_increases(self.z as nat, MAX_ZOOM as nat);
            }
        }
        let zmax: i64 = pow2_exec(self.z) as i64 - 1;
        let span_x: i64 = ((win_w as i64) + 255) / 256 + 2;
        let span_y: i64 = ((win_h as i64) + 255) / 256 + 2;
        let xl_raw: i64 = div_floor_256(self.center_x) - span_x / 2;
        let xh_raw: i64 = div_floor_256(self.center_x + 255) + span_x / 2;
        let yl_raw: i64 = div_floor_256(self.center_y) - span_y / 2;
        let yh_raw: i64 = div_floor_256(self.center_y + 255) + span_y / 2;
        let xl: i64 = if xl_raw < 0 {
            0
        } else {
            xl_raw
        };
        let xh: i64 = if xh_raw > zmax {
            zmax
        } else {
            xh_raw
        };
        let yl: i64 = if yl_raw < 0 {
            0
        } else {
            yl_raw
        };
        let yh: i64 = if yh_raw > zmax {
            zmax
        } else {
            yh_raw
        };
        let nx: i64 = if xh >= xl {
            xh - xl + 1
        } else {
            0
        };
        let ny: i64 = if yh >= yl {
            yh - yl + 1
        } else {
            0
        };
        let mut r: Vec<TilePos> = Vec::new();
        let mut j: i64 = 0;
        while j < ny
            invariant
                0 <= j <= ny,
                nx >= 0,
                ny >= 0,
                r@.len() == j * nx,
                nx > 0 ==> 0 <= xl && xl + nx - 1 <= zmax,
                ny > 0 ==> 0 <= yl && yl + ny - 1 <= zmax,
                zmax == pow2(self.z as nat) - 1,
                zmax < 0x8_0000,
                forall|jj: int, ii: int|
                    0 <= jj < j && 0 <= ii < nx ==> #[trigger] r@[jj * nx + ii] == (TilePos {
                        z: self.z,
                        x: (xl + ii) as u32,
                        y: (yl + jj) as u32,
                        m,
                    }),
                self.wf(),
            decreases ny - j,
        {
            let mut i: i64 = 0;
            while i < nx
                invariant
                    0 <= i <= nx,
                    0 <= j < ny,
                    nx > 0 ==> 0 <= xl && xl + nx - 1 <= zmax,
                    ny > 0 ==> 0 <= yl && yl + ny - 1 <= zmax,
                    zmax == pow2(self.z as nat) - 1,
                    zmax < 0x8_0000,
                    r@.len() == j * nx + i,
                    forall|jj: int, ii: int|
                        0 <= jj <= j && 0 <= ii < nx && jj * nx + ii < r@.len()
                            ==> #[trigger] r@[jj * nx + ii] == (TilePos {
                            z: self.z,
                            x: (xl + ii) as u32,
                            y: (yl + jj) as u32,
                            m,
                        }),
                    self.wf(),
                decreases nx - i,
            {
                r.push(
                    TilePos {
                        z: self.z,
                        x: (xl + i) as u32,
                        y: (yl + j) as u32,
                        m,
                    },
                );
                proof {
                    assert forall|jj: int, ii: int|
                        0 <= jj <= j && 0 <= ii < nx && jj * nx + ii
                            < r@.len() implies #[trigger] r@[jj * nx + ii] == (TilePos {
                        z: self.z,
                        x: (xl + ii) as u32,
                        y: (yl + jj) as u32,
                        m,
                    }) by {
                        if jj * nx + ii == j * nx + i {
                            vstd::arithmetic::div_mod::lemma_fundamental_div_mod_converse(
                                jj * nx + ii,
                                nx as int,
                                jj,
                                ii,
                            );
                            vstd::arithmetic::div_mod::lemma_fundamental_div_mod_converse(
                                j * nx + i as int,
                                nx as int,
                                j as int,
                                i as int,
                            );
                        }
                    };
                }
                i = i + 1;
            }
            proof {
                assert forall|jj: int, ii: int|
                    0 <= jj <= j && 0 <= ii < nx implies #[trigger] (jj * nx + ii) < r@.len() by {
                    vstd::arithmetic::mul::lemma_mul_inequality(jj, j as int, nx as int);
                };
            }
            j = j + 1;
            proof {
                assert(r@.len() == (j - 1) * nx + nx);
                assert((j - 1) * nx + nx == j * nx) by (nonlinear_arith);
            }
        }
        proof {
            assert(r@.len() == ny * nx);
            assert(ny * nx == nx * ny) by (nonlinear_arith);
            assert forall|k: int| 0 <= k < r@.len() implies (#[trigger] r@[k]).wf() by {
                let jj = k / (nx as int);
                let ii = k % (nx as int);
                vstd::arithmetic::div_mod::lemma_fundamental_div_mod(k, nx as int);
                vstd::arithmetic::div_mod::lemma_mod_bound(k, nx as int);
                vstd::arithmetic::div_mod::lemma_div_pos_is_pos(k, nx as int);
                vstd::arithmetic::mul::lemma_mul_is_commutative(nx as int, jj);
                assert(k == jj * nx + ii);
                assert(0 <= jj && jj < ny) by (nonlinear_arith)
                    requires
                        k < ny * nx,
                        k == jj * nx + ii,
                        0 <= ii < nx,
                        0 < nx,
                        0 <= jj,
                ;
                assert(r@[jj * nx + ii].wf());
            };
        }
        r
    }
}

/// 2 to the power `e`, for exponents inside the pyramid depth.
fn pow2_exec(e: u8) -> (r: u32)
    requires
        e <= MAX_ZOOM,
    ensures
        r == pow2(e as nat),
{
    proof {
        lemma2_to64();
        vstd::bits::lemma_u32_shl_is_mul(1u32, e as u32);
        if (e as nat) < MAX_ZOOM as nat {
            lemma_pow2_strictly_increases(e as nat, MAX_ZOOM as nat);
        }
    }
    1u32 << (e as u32)
}

/// The mathematical floor of `c` / 256, also for negative coordinates.
fn div_floor_256(c: i64) -> (r: i64)
    requires
        -0x2000_0000_0000_0000 <= c <= 0x2000_0000_0000_0000,
    ensures
        r == c as int / 256,
{
    if c >= 0 {
        c / 256
    } else {
        -((-c + 255) / 256)
    }
}

/// A center coordinate forced back into its allowed band.
fn clamp_exec(c: i64) -> (r: i64)
    ensures
        r == clamp_center(c as int),
{
    if c < -MAX_CENTER {
        -MAX_CENTER
    } else if c > MAX_CENTER {
        MAX_CENTER
    } else {
        c
    }
}

/// Half of `t`, rounded toward negative infinity, matching division in
/// the mathematical (Euclidean) sense.
fn half_floor(t: i64) -> (r: i64)
    requires
        -0x2000_0000_0000_0000 <= t <= 0x2000_0000_0000_0000,
    ensures
        r == t as int / 2,
{
    if t >= 0 {
        t / 2
    } else {
        -((-t + 1) / 2)
    }
}

/// The point of the plane at the window center, on the scale of the
/// deepest zoom level: the centered screen point lies half a tile past
/// the center coordinate, and each level doubles the units.
pub open spec fn world_center_x(v: Viewport) -> int {
    (v.center_x + SUBTILE / 2) * pow2((MAX_ZOOM - v.z) as nat)
}

/// As `world_center_x`, for the vertical axis.
pub open spec fn world_center_y(v: Viewport) -> int {
    (v.center_y + SUBTILE / 2) * pow2((MAX_ZOOM - v.z) as nat)
}

/// Zooming in keeps the same point of the plane centered: the doubling
/// and the half-tile shift cancel on the world scale. Holds whenever the
/// doubled center stays inside the clamp band.
pub proof fn lemma_zoom_in_keeps_center(v: Viewport)
    requires
        v.wf(),
        v.z < MAX_ZOOM,
        -MAX_CENTER <= 2 * v.center_x + SUBTILE / 2 <= MAX_CENTER,
        -MAX_CENTER <= 2 * v.center_y + SUBTILE / 2 <= MAX_CENTER,
    ensures
        world_center_x(v.spec_zoom_in()) == world_center_x(v),
        world_center_y(v.spec_zoom_in()) == world_center_y(v),
{
    let w = v.spec_zoom_in();
    let e = (MAX_ZOOM - w.z) as nat;
    vstd::arithmetic::power2::lemma_pow2_unfold((MAX_ZOOM - v.z) as nat);
    assert(pow2((MAX_ZOOM - v.z) as nat) == 2 * pow2(e));
    assert((2 * v.center_x + 256) * pow2(e) == (v.center_x + 128) * (2 * pow2(e)))
        by (nonlinear_arith);
    assert((2 * v.center_y + 256) * pow2(e) == (v.center_y + 128) * (2 * pow2(e)))
        by (nonlinear_arith);
}

/// Zooming in and back out returns the viewport to exactly its original
/// state: the half-tile shifts cancel the rescalings. Holds whenever the
/// zoom can actually descend and the doubled center stays inside the
/// clamp band.
pub proof fn lemma_viewport_zoom_round_trip(v: Viewport)
    requires
        v.wf(),
        v.z < MAX_ZOOM,
        -MAX_CENTER <= 2 * v.center_x + SUBTILE / 2 <= MAX_CENTER,
        -MAX_CENTER <= 2 * v.center_y + SUBTILE / 2 <= MAX_CENTER,
    ensures
        v.spec_zoom_in().spec_zoom_out() == v,
{
    vstd::arithmetic::div_mod::lemma_div_multiples_vanish(v.center_x + 128, 2);
    vstd::arithmetic::div_mod::lemma_div_multiples_vanish(v.center_y + 128, 2);
}

} // verus!
