//! Pyramid tile addressing: a coordinate in the quad-tree of map tiles and
//! the navigation math between zoom levels.

use vstd::arithmetic::power2::lemma2_to64;
use vstd::arithmetic::power2::lemma_pow2_strictly_increases;
use vstd::arithmetic::power2::lemma_pow2_unfold;
use vstd::arithmetic::power2::pow2;
use vstd::prelude::*;

verus! {

/// Width and height, in pixels, of every tile image.
pub const TILE_SIZE: u32 = 256;

/// Deepest zoom level of the pyramid.
pub const MAX_ZOOM: u8 = 19;

/// Address of one tile: zoom level `z`, column `x`, row `y`, and the
/// imagery source `m` it comes from. The same geographic tile from two
/// sources is two distinct addresses.
#[derive(Debug, Copy, Clone, PartialEq, Eq, Structural, Hash)]
pub struct TilePos {
    pub z: u8,
    pub x: u32,
    pub y: u32,
    pub m: u8,
}

impl TilePos {
    /// A valid address: the zoom level is within the pyramid and the
    /// column and row lie inside the 2^z * 2^z grid of that level.
    pub open spec fn wf(self) -> bool {
        &&& self.z <= MAX_ZOOM
        &&& (self.x as nat) < pow2(self.z as nat)
        &&& (self.y as nat) < pow2(self.z as nat)
    }

    /// Whether the address is valid, decidable at run time, so unchecked
    /// callers can test it before entering the library.
    pub fn is_valid(&self) -> (r: bool)
        ensures
            r == self.wf(),
    {
        if self.z > MAX_ZOOM {
            return false;
        }
        proof {
            lemma2_to64();
            if self.z < MAX_ZOOM {
                lemma_pow2_strictly_increases(self.z as nat, MAX_ZOOM as nat);
            }
            vstd::bits::lemma_u32_shl_is_mul(1u32, self.z as u32);
        }
        self.x < (1u32 << (self.z as u32)) && self.y < (1u32 << (self.z as u32))
    }

    /// The root tile of the pyramid, on the first imagery source.
    pub fn new() -> (r: Self)
        ensures
            r == (TilePos { z: 0, x: 0, y: 0, m: 0 }),
            r.wf(),
    {
        proof {
            lemma2_to64();
        }
        Self { z: 0, x: 0, y: 0, m: 0 }
    }

    /// The child address one zoom level down whose quadrant is picked by
    /// `right` (east half) and `down` (south half). No-op at `MAX_ZOOM`.
    pub open spec fn spec_zoom_in(self, right: bool, down: bool) -> TilePos {
        if self.z >= MAX_ZOOM {
            self
        } else {
            TilePos {
                z: (self.z + 1) as u8,
                x: (self.x * 2 + if right { 1int } else { 0int }) as u32,
                y: (self.y * 2 + if down { 1int } else { 0int }) as u32,
                m: self.m,
            }
        }
    }

    /// Replace this address by the child at zoom + 1 that contains the
    /// fractional position (u/256, v/256) inside this tile; no-op at
    /// `MAX_ZOOM`. The tile's own axes grow east and south, so the child
    /// column (row) gains one exactly when the position is in the right
    /// (lower) half.
    pub fn zoom_in(&mut self, u: u32, v: u32)
        requires
            old(self).wf(),
            u < TILE_SIZE,
            v < TILE_SIZE,
        ensures
            *final(self) == old(self).spec_zoom_in(u >= TILE_SIZE / 2, v >= TILE_SIZE / 2),
            final(self).wf(),
    {
        proof {
            lemma2_to64();
            if self.z < MAX_ZOOM {
                lemma_pow2_unfold((self.z + 1) as nat);
                lemma_pow2_strictly_increases(self.z as nat, MAX_ZOOM as nat);
            }
        }
        if self.z >= MAX_ZOOM {
            return;
        }
        self.x = self.x * 2 + if u >= TILE_SIZE / 2 { 1 } else { 0 };
        self.y = self.y * 2 + if v >= TILE_SIZE / 2 { 1 } else { 0 };
        self.z = self.z + 1;
    }

    /// Replace this address by its child at zoom + 1 on the path toward
    /// `other`, and report which quadrant was taken as a (column, row)
    /// pair of 0/1 increments; no-op returning (0, 0) at `MAX_ZOOM`.
    pub fn zoom_in_tile(&mut self, other: TilePos) -> (r: (i32, i32))
        requires
            old(self).wf(),
        ensures
            final(self).wf(),
            old(self).z >= MAX_ZOOM ==> *final(self) == *old(self) && r == (0i32, 0i32),
            old(self).z < MAX_ZOOM ==> {
                let right = old(self).x * 2 < other.x;
                let down = old(self).y * 2 < other.y;
                &&& *final(self) == old(self).spec_zoom_in(right, down)
                &&& r.0 == if right { 1int } else { 0int }
                &&& r.1 == if down { 1int } else { 0int }
            },
    {
        proof {
            lemma2_to64();
            if self.z < MAX_ZOOM {
                lemma_pow2_unfold((self.z + 1) as nat);
                lemma_pow2_strictly_increases(self.z as nat, MAX_ZOOM as nat);
            }
        }
        if self.z >= MAX_ZOOM {
            return (0, 0);
        }
        self.x = self.x * 2;
        self.y = self.y * 2;
        self.z = self.z + 1;
        let x: i32;
        let y: i32;
        if self.x < other.x {
            x = 1;
            self.x = self.x + 1;
        } else {
            x = 0;
        }
        if self.y < other.y {
            y = 1;
            self.y = self.y + 1;
        } else {
            y = 0;
        }
        (x, y)
    }

    /// The parent address one zoom level up: column and row halved.
    /// No-op at the pyramid root.
    pub open spec fn spec_zoom_out(self) -> TilePos {
        if self.z == 0 {
            self
        } else {
            TilePos { z: (self.z - 1) as u8, x: self.x / 2, y: self.y / 2, m: self.m }
        }
    }

    /// Replace this address by its parent (column and row halved,
    /// zoom decreased by one); no-op at zoom 0.
    pub fn zoom_out(&mut self)
        ensures
            *final(self) == old(self).spec_zoom_out(),
            old(self).wf() ==> final(self).wf(),
    {
        proof {
            if self.wf() && self.z > 0 {
                vstd::arithmetic::power2::lemma_pow2_unfold(self.z as nat);
            }
        }
        if self.z <= 0 {
            return;
        }
        self.x = self.x / 2;
        self.y = self.y / 2;
        self.z = self.z - 1;
    }

    /// How many zoom levels `child` lies below `self`, clamped to [0, 8].
    /// Beyond eight levels the crop degenerates to a single pixel, the
    /// accepted limiting case.
    pub open spec fn crop_depth(self, child: TilePos) -> nat {
        if child.z <= self.z {
            0
        } else if child.z - self.z >= 8 {
            8
        } else {
            (child.z - self.z) as nat
        }
    }

    /// The pixel sub-rectangle (left, top, edge) of this tile's 256 x 256
    /// image that corresponds to `child`'s footprint: at depth d the image
    /// splits into a 2^d x 2^d grid of cells of edge 256 / 2^d, and the
    /// cell is picked by the child's column and row modulo 2^d.
    pub open spec fn spec_crop(self, child: TilePos) -> (int, int, int) {
        let period = pow2(self.crop_depth(child)) as int;
        let edge = 256int / period;
        (((child.x as int) % period) * edge, ((child.y as int) % period) * edge, edge)
    }

    /// The pixel rectangle of this tile's image standing for `child`'s
    /// footprint, as (left, top, width, height); width and height are
    /// always equal. Meaningful when `self` is an ancestor of `child` or
    /// equal to it, but computed from the coordinates alone.
    pub fn get_crop(&mut self, child: &TilePos) -> (r: (i32, i32, i32, i32))
        requires
            old(self).wf(),
            child.wf(),
        ensures
            *final(self) == *old(self),
            (r.0 as int, r.1 as int, r.2 as int) == old(self).spec_crop(*child),
            r.3 == r.2,
            0 <= r.0 && r.0 + r.2 <= 256,
            0 <= r.1 && r.1 + r.2 <= 256,
            1 <= r.2 && r.2 <= 256,
    {
        let dz: u32 = if child.z <= self.z {
            0
        } else if (child.z - self.z) as u32 >= 8 {
            8
        } else {
            (child.z - self.z) as u32
        };
        let (p, s): (u32, u32) = if dz == 0 {
            (1, 256)
        } else if dz == 1 {
            (2, 128)
        } else if dz == 2 {
            (4, 64)
        } else if dz == 3 {
            (8, 32)
        } else if dz == 4 {
            (16, 16)
        } else if dz == 5 {
            (32, 8)
        } else if dz == 6 {
            (64, 4)
        } else if dz == 7 {
            (128, 2)
        } else {
            (256, 1)
        };
        assert(p == pow2(dz as nat)) by {
            lemma2_to64();
        };
        assert((p == 1 && s == 256) || (p == 2 && s == 128) || (p == 4 && s == 64) || (p == 8
            && s == 32) || (p == 16 && s == 16) || (p == 32 && s == 8) || (p == 64 && s == 4) || (
        p == 128 && s == 2) || (p == 256 && s == 1));
        assert(p * s == 256) by (nonlinear_arith)
            requires
                ((p == 1 && s == 256) || (p == 2 && s == 128) || (p == 4 && s == 64) || (p == 8
                    && s == 32) || (p == 16 && s == 16) || (p == 32 && s == 8) || (p == 64 && s
                    == 4) || (p == 128 && s == 2) || (p == 256 && s == 1)),
        ;
        assert(256int / (p as int) == s) by {
            vstd::arithmetic::div_mod::lemma_div_multiples_vanish(s as int, p as int);
        };
        let mx: u32 = child.x % p;
        let my: u32 = child.y % p;
        assert(mx * s + s <= 256 && my * s + s <= 256) by (nonlinear_arith)
            requires
                mx < p,
                my < p,
                ((p == 1 && s == 256) || (p == 2 && s == 128) || (p == 4 && s == 64) || (p == 8
                    && s == 32) || (p == 16 && s == 16) || (p == 32 && s == 8) || (p == 64 && s
                    == 4) || (p == 128 && s == 2) || (p == 256 && s == 1)),
        ;
        let xx: u32 = mx * s;
        let yy: u32 = my * s;
        (xx as i32, yy as i32, s as i32, s as i32)
    }

    /// The address `n` zoom levels up: `spec_zoom_out` applied `n` times.
    pub open spec fn zoom_out_n(self, n: nat) -> TilePos
        decreases n,
    {
        if n == 0 {
            self
        } else {
            self.spec_zoom_out().zoom_out_n((n - 1) as nat)
        }
    }

    /// The candidate ancestors of this address in fallback order: the
    /// address itself first, then its parent, and so on up to the pyramid
    /// root. The chain is bounded by the address's own zoom level, so it
    /// holds at most `MAX_ZOOM` + 1 entries.
    pub fn ancestor_chain(&self) -> (r: Vec<TilePos>)
        requires
            self.wf(),
        ensures
            r@.len() == self.z + 1,
            forall|i: int| 0 <= i <= self.z ==> #[trigger] r@[i] == self.zoom_out_n(i as nat),
            forall|i: int| 0 <= i <= self.z ==> (#[trigger] r@[i]).wf(),
            r@[0] == *self,
            r@[self.z as int].z == 0,
    {
        let mut r: Vec<TilePos> = Vec::new();
        let mut cur: TilePos = *self;
        r.push(cur);
        proof {
            lemma_zoom_out_n_zoom(*self, 0);
        }
        while cur.z > 0
            invariant
                self.wf(),
                cur == self.zoom_out_n((r@.len() - 1) as nat),
                cur.wf(),
                cur.z == self.z - (r@.len() - 1),
                1 <= r@.len() <= self.z + 1,
                forall|i: int| 0 <= i < r@.len() ==> #[trigger] r@[i] == self.zoom_out_n(i as nat),
                forall|i: int| 0 <= i < r@.len() ==> (#[trigger] r@[i]).wf(),
            decreases cur.z,
        {
            proof {
                lemma_zoom_out_n_snoc(*self, (r@.len() - 1) as nat);
            }
            cur.zoom_out();
            r.push(cur);
        }
        proof {
            lemma_zoom_out_n_zoom(*self, (self.z) as nat);
        }
        r
    }
}

/// Iterated zoom-out can be unrolled from either end: one more step after
/// `n` steps is the parent of the `n`-step ancestor.
pub proof fn lemma_zoom_out_n_snoc(a: TilePos, n: nat)
    ensures
        a.zoom_out_n(n + 1) == a.zoom_out_n(n).spec_zoom_out(),
    decreases n,
{
    reveal_with_fuel(TilePos::zoom_out_n, 3);
    if n > 0 {
        lemma_zoom_out_n_snoc(a.spec_zoom_out(), (n - 1) as nat);
    }
}

/// Zooming out `n` levels from a valid address lowers the zoom by exactly
/// `n` (stopping at the root) and keeps the address valid.
pub proof fn lemma_zoom_out_n_zoom(a: TilePos, n: nat)
    requires
        a.wf(),
        n <= a.z,
    ensures
        a.zoom_out_n(n).wf(),
        a.zoom_out_n(n).z == a.z - n,
        a.zoom_out_n(n).m == a.m,
    decreases n,
{
    if n > 0 {
        lemma_pow2_unfold(a.z as nat);
        lemma_zoom_out_n_zoom(a.spec_zoom_out(), (n - 1) as nat);
    }
}

/// A pixel column/row pair (px, py) lies inside the rectangle
/// (left, top, edge).
pub open spec fn crop_contains(c: (int, int, int), px: int, py: int) -> bool {
    &&& c.0 <= px < c.0 + c.2
    &&& c.1 <= py < c.1 + c.2
}

/// At every depth up to 8 the grid period divides the 256-pixel tile edge
/// evenly: period times cell edge is exactly 256.
pub proof fn lemma_cell_edge(d: nat)
    requires
        d <= 8,
    ensures
        pow2(d) as int * (256int / pow2(d) as int) == 256,
        1 <= 256int / pow2(d) as int <= 256,
{
    lemma2_to64();
    if d == 0 {
        assert(256int / pow2(0) as int == 256);
    } else if d == 1 {
        assert(256int / pow2(1) as int == 128);
    } else if d == 2 {
        assert(256int / pow2(2) as int == 64);
    } else if d == 3 {
        assert(256int / pow2(3) as int == 32);
    } else if d == 4 {
        assert(256int / pow2(4) as int == 16);
    } else if d == 5 {
        assert(256int / pow2(5) as int == 8);
    } else if d == 6 {
        assert(256int / pow2(6) as int == 4);
    } else if d == 7 {
        assert(256int / pow2(7) as int == 2);
    } else {
        assert(256int / pow2(8) as int == 1);
    }
}

/// Zooming out `n` levels divides the column and row by 2^n.
pub proof fn lemma_zoom_out_n_div(a: TilePos, n: nat)
    requires
        n <= a.z,
    ensures
        a.zoom_out_n(n).z == a.z - n,
        a.zoom_out_n(n).m == a.m,
        a.zoom_out_n(n).x == a.x as int / pow2(n) as int,
        a.zoom_out_n(n).y == a.y as int / pow2(n) as int,
    decreases n,
{
    vstd::arithmetic::power2::lemma_pow2_pos(n);
    if n == 0 {
        assert(pow2(0) == 1) by {
            lemma2_to64();
        };
    } else {
        let b = a.spec_zoom_out();
        lemma_zoom_out_n_div(b, (n - 1) as nat);
        lemma_pow2_unfold(n);
        vstd::arithmetic::power2::lemma_pow2_pos((n - 1) as nat);
        vstd::arithmetic::div_mod::lemma_div_denominator(
            a.x as int,
            2,
            pow2((n - 1) as nat) as int,
        );
        vstd::arithmetic::div_mod::lemma_div_denominator(
            a.y as int,
            2,
            pow2((n - 1) as nat) as int,
        );
    }
}

/// The crop cell of a descendant contains a pixel exactly when the
/// descendant's column and row, taken modulo the grid period, select the
/// grid cell in which that pixel lies. Together with the fact that a
/// descendant of a fixed ancestor is determined by those residues (see
/// `lemma_crop_unique`), the 2^d x 2^d crops partition the ancestor's
/// image: no gaps and no overlaps.
pub proof fn lemma_crop_partition(anc: TilePos, desc: TilePos, px: int, py: int)
    requires
        0 <= px < 256,
        0 <= py < 256,
    ensures
        ({
            let p = pow2(anc.crop_depth(desc)) as int;
            let s = 256int / p;
            crop_contains(anc.spec_crop(desc), px, py) <==> ((desc.x as int) % p == px / s && (
            desc.y as int) % p == py / s)
        }),
{
    let d = anc.crop_depth(desc);
    let p = pow2(d) as int;
    let s = 256int / p;
    lemma_cell_edge(d);
    vstd::arithmetic::power2::lemma_pow2_pos(d);
    let qx = (desc.x as int) % p;
    let qy = (desc.y as int) % p;
    vstd::arithmetic::div_mod::lemma_mod_bound(desc.x as int, p);
    vstd::arithmetic::div_mod::lemma_mod_bound(desc.y as int, p);
    if crop_contains(anc.spec_crop(desc), px, py) {
        vstd::arithmetic::div_mod::lemma_fundamental_div_mod_converse(px, s, qx, px - qx * s);
        vstd::arithmetic::div_mod::lemma_fundamental_div_mod_converse(py, s, qy, py - qy * s);
    }
    if qx == px / s && qy == py / s {
        vstd::arithmetic::div_mod::lemma_fundamental_div_mod(px, s);
        vstd::arithmetic::div_mod::lemma_mod_bound(px, s);
        vstd::arithmetic::div_mod::lemma_fundamental_div_mod(py, s);
        vstd::arithmetic::div_mod::lemma_mod_bound(py, s);
    }
}

/// Every pixel of an ancestor's image is covered: the descendant at the
/// given depth whose grid cell holds the pixel is a valid address, zooms
/// back out to the ancestor, and its crop contains the pixel.
pub proof fn lemma_crop_cover(anc: TilePos, depth: nat, px: int, py: int)
    requires
        anc.wf(),
        anc.z + depth <= MAX_ZOOM,
        depth <= 8,
        0 <= px < 256,
        0 <= py < 256,
    ensures
        ({
            let p = pow2(depth) as int;
            let s = 256int / p;
            let desc = TilePos {
                z: (anc.z + depth) as u8,
                x: (anc.x * p + px / s) as u32,
                y: (anc.y * p + py / s) as u32,
                m: anc.m,
            };
            &&& desc.wf()
            &&& desc.zoom_out_n(depth) == anc
            &&& anc.crop_depth(desc) == depth
            &&& crop_contains(anc.spec_crop(desc), px, py)
        }),
{
    let p = pow2(depth) as int;
    let s = 256int / p;
    lemma_cell_edge(depth);
    vstd::arithmetic::power2::lemma_pow2_pos(depth);
    vstd::arithmetic::power2::lemma_pow2_adds(anc.z as nat, depth);
    if anc.z as nat + depth < MAX_ZOOM as nat {
        lemma_pow2_strictly_increases(anc.z as nat + depth, MAX_ZOOM as nat);
    }
    lemma2_to64();
    // The pixel's grid cell index is below the period.
    assert(px / s < p && py / s < p) by {
        assert((p - 1) * s + (s - 1) == p * s - 1) by (nonlinear_arith);
        vstd::arithmetic::div_mod::lemma_fundamental_div_mod_converse(
            p * s - 1,
            s,
            p - 1,
            s - 1,
        );
        vstd::arithmetic::div_mod::lemma_div_is_ordered(px, p * s - 1, s);
        vstd::arithmetic::div_mod::lemma_div_is_ordered(py, p * s - 1, s);
    };
    let ix = anc.x * p + px / s;
    let iy = anc.y * p + py / s;
    // The descendant's coordinates stay inside the deeper grid.
    assert(0 <= ix < pow2((anc.z + depth) as nat) && 0 <= iy < pow2((anc.z + depth) as nat)) by {
        vstd::arithmetic::mul::lemma_mul_inequality(anc.x as int + 1, pow2(anc.z as nat) as int, p);
        vstd::arithmetic::mul::lemma_mul_is_distributive_add_other_way(
            p,
            anc.x as int,
            1,
        );
        vstd::arithmetic::mul::lemma_mul_is_commutative(anc.x as int, p);
        vstd::arithmetic::mul::lemma_mul_inequality(anc.y as int + 1, pow2(anc.z as nat) as int, p);
        vstd::arithmetic::mul::lemma_mul_is_distributive_add_other_way(
            p,
            anc.y as int,
            1,
        );
        vstd::arithmetic::mul::lemma_mul_is_commutative(anc.y as int, p);
    };
    let desc = TilePos {
        z: (anc.z + depth) as u8,
        x: ix as u32,
        y: iy as u32,
        m: anc.m,
    };
    vstd::arithmetic::div_mod::lemma_fundamental_div_mod_converse(ix, p, anc.x as int, px / s);
    vstd::arithmetic::div_mod::lemma_fundamental_div_mod_converse(iy, p, anc.y as int, py / s);
    lemma_zoom_out_n_div(desc, depth);
    assert(desc.zoom_out_n(depth) == anc);
    assert(anc.crop_depth(desc) == depth);
    lemma_crop_partition(anc, desc, px, py);
}

/// No overlap: two descendants of the same ancestor at the same depth
/// whose crops share a pixel are the same address.
pub proof fn lemma_crop_unique(anc: TilePos, d1: TilePos, d2: TilePos, px: int, py: int)
    requires
        anc.z <= d1.z,
        d1.z == d2.z,
        d1.z - anc.z <= 8,
        d1.zoom_out_n((d1.z - anc.z) as nat) == anc,
        d2.zoom_out_n((d2.z - anc.z) as nat) == anc,
        0 <= px < 256,
        0 <= py < 256,
        crop_contains(anc.spec_crop(d1), px, py),
        crop_contains(anc.spec_crop(d2), px, py),
    ensures
        d1 == d2,
{
    let depth = (d1.z - anc.z) as nat;
    let p = pow2(depth) as int;
    lemma_cell_edge(depth);
    vstd::arithmetic::power2::lemma_pow2_pos(depth);
    lemma_crop_partition(anc, d1, px, py);
    lemma_crop_partition(anc, d2, px, py);
    lemma_zoom_out_n_div(d1, depth);
    lemma_zoom_out_n_div(d2, depth);
    vstd::arithmetic::div_mod::lemma_fundamental_div_mod(d1.x as int, p);
    vstd::arithmetic::div_mod::lemma_fundamental_div_mod(d2.x as int, p);
    vstd::arithmetic::div_mod::lemma_fundamental_div_mod(d1.y as int, p);
    vstd::arithmetic::div_mod::lemma_fundamental_div_mod(d2.y as int, p);
}

/// Zooming back out from any child of a valid address returns the
/// original address: the pyramid round trip is the identity below
/// `MAX_ZOOM`, whatever position inside the tile picked the child.
pub proof fn lemma_zoom_round_trip(a: TilePos, right: bool, down: bool)
    requires
        a.wf(),
        a.z < MAX_ZOOM,
    ensures
        a.spec_zoom_in(right, down).spec_zoom_out() == a,
{
    lemma2_to64();
    lemma_pow2_strictly_increases(a.z as nat, MAX_ZOOM as nat);
}

} // verus!
