//! The coordinate model: points, per-axis resolutions, and the two tagged
//! location types.
//!
//! A `RealWorldLocation` is the only coordinate callers pass in or
//! receive. An `InternalLocation` is grid-relative: it carries the offset
//! and the resolution it was produced with, and satisfies
//! `internal = (real_world - offset) * resolution` on the x and y axes
//! (z is offset-subtracted but never scaled). Both conversions are exact,
//! so converting there and back reproduces the original value.

use crate::rat::{iabs, rat_abs, rat_add, rat_div, rat_eq, rat_mul, rat_sub, Rat, Real};
use vstd::prelude::*;

verus! {

/// Mathematical value of a point: one rational per axis.
pub ghost struct RatCoords {
    pub x: Rat,
    pub y: Rat,
    pub z: Rat,
}

/// A point in 3D space, in meters. Only x and y take part in grid
/// indexing; z is carried along.
#[derive(Clone, Copy, Debug, PartialEq)]
pub struct Coords {
    pub x: Real,
    pub y: Real,
    pub z: Real,
}

impl View for Coords {
    type V = RatCoords;

    open spec fn view(&self) -> RatCoords {
        RatCoords { x: self.x@, y: self.y@, z: self.z@ }
    }
}

/// Positive denominators throughout.
pub open spec fn coords_wf(c: Coords) -> bool {
    c.x.wf() && c.y.wf() && c.z.wf()
}

/// The machine-limit bound on caller-supplied coordinates: numerators up
/// to 2^32 in magnitude, denominators up to 2^16. Inside those bounds all
/// grid arithmetic is exact and free of overflow.
pub open spec fn coord_sized(r: Real) -> bool {
    r.sized(0x1_0000_0000, 0x1_0000)
}

pub open spec fn coords_sized(c: Coords) -> bool {
    coord_sized(c.x) && coord_sized(c.y) && coord_sized(c.z)
}

/// The machine-limit bound on resolutions: numerator and denominator up
/// to 2^8.
pub open spec fn res_sized(r: Real) -> bool {
    r.sized(0x100, 0x100)
}

/// `x <= y` componentwise products fit; precondition of exact
/// subtraction.
pub open spec fn sub_fits(a: Rat, b: Rat) -> bool {
    iabs(a.num) * b.den + iabs(b.num) * a.den <= i128::MAX && a.den * b.den <= i128::MAX
}

/// Numerator magnitude bound of the exact difference `a - b`.
pub open spec fn sub_num_bound(a: Rat, b: Rat) -> int {
    iabs(a.num) * b.den + iabs(b.num) * a.den
}

/// Denominators of the grid-relative image of a point are positive.
pub(crate) proof fn lemma_internal_dens_pos(p: RatCoords, o: RatCoords, r: RatCoords)
    requires
        p.x.den > 0 && p.y.den > 0 && p.z.den > 0,
        o.x.den > 0 && o.y.den > 0 && o.z.den > 0,
        r.x.den > 0 && r.y.den > 0,
    ensures
        internal_of(p, o, r).x.den > 0,
        internal_of(p, o, r).y.den > 0,
        internal_of(p, o, r).z.den > 0,
{
    crate::rat::lemma_mul_pos(p.x.den, o.x.den);
    crate::rat::lemma_mul_pos(p.x.den * o.x.den, r.x.den);
    crate::rat::lemma_mul_pos(p.y.den, o.y.den);
    crate::rat::lemma_mul_pos(p.y.den * o.y.den, r.y.den);
    crate::rat::lemma_mul_pos(p.z.den, o.z.den);
}

/// Denominators of the real-world image of a grid-relative point are
/// positive.
pub(crate) proof fn lemma_world_dens_pos(i: RatCoords, o: RatCoords, r: RatCoords)
    requires
        i.x.den > 0 && i.y.den > 0 && i.z.den > 0,
        o.x.den > 0 && o.y.den > 0 && o.z.den > 0,
        r.x.num > 0 && r.y.num > 0,
    ensures
        world_of(i, o, r).x.den > 0,
        world_of(i, o, r).y.den > 0,
        world_of(i, o, r).z.den > 0,
{
    crate::rat::lemma_mul_pos(i.x.den, r.x.num);
    crate::rat::lemma_mul_pos(i.x.den * r.x.num, o.x.den);
    crate::rat::lemma_mul_pos(i.y.den, r.y.num);
    crate::rat::lemma_mul_pos(i.y.den * r.y.num, o.y.den);
    crate::rat::lemma_mul_pos(i.z.den, o.z.den);
}

impl Coords {
    pub fn new(x: Real, y: Real, z: Real) -> (r: Coords)
        ensures
            r.x == x,
            r.y == y,
            r.z == z,
    {
        Coords { x, y, z }
    }

    pub fn x(&self) -> (r: Real)
        ensures
            r == self.x,
    {
        self.x
    }

    pub fn y(&self) -> (r: Real)
        ensures
            r == self.y,
    {
        self.y
    }

    pub fn z(&self) -> (r: Real)
        ensures
            r == self.z,
    {
        self.z
    }

    /// Distance along the x axis: `|other.x - self.x|`.
    pub fn distance_x(&self, other: &Coords) -> (r: Real)
        requires
            self.x.wf(),
            other.x.wf(),
            sub_fits(other@.x, self@.x),
        ensures
            r.wf(),
            rat_eq(r@, rat_abs(rat_sub(other@.x, self@.x))),
            iabs(r@.num) <= sub_num_bound(other@.x, self@.x),
            r@.den <= other@.x.den * self@.x.den,
    {
        let d = other.x.sub(&self.x);
        let r = d.abs_val();
        proof {
            lemma_abs_compat(d@, rat_sub(other@.x, self@.x));
        }
        r
    }

    /// Distance along the y axis: `|other.y - self.y|`.
    pub fn distance_y(&self, other: &Coords) -> (r: Real)
        requires
            self.y.wf(),
            other.y.wf(),
            sub_fits(other@.y, self@.y),
        ensures
            r.wf(),
            rat_eq(r@, rat_abs(rat_sub(other@.y, self@.y))),
            iabs(r@.num) <= sub_num_bound(other@.y, self@.y),
            r@.den <= other@.y.den * self@.y.den,
    {
        let d = other.y.sub(&self.y);
        let r = d.abs_val();
        proof {
            lemma_abs_compat(d@, rat_sub(other@.y, self@.y));
        }
        r
    }

    /// Distance along the z axis: `|other.z - self.z|`.
    pub fn distance_z(&self, other: &Coords) -> (r: Real)
        requires
            self.z.wf(),
            other.z.wf(),
            sub_fits(other@.z, self@.z),
        ensures
            r.wf(),
            rat_eq(r@, rat_abs(rat_sub(other@.z, self@.z))),
            iabs(r@.num) <= sub_num_bound(other@.z, self@.z),
            r@.den <= other@.z.den * self@.z.den,
    {
        let d = other.z.sub(&self.z);
        let r = d.abs_val();
        proof {
            lemma_abs_compat(d@, rat_sub(other@.z, self@.z));
        }
        r
    }

    /// Componentwise sum.
    pub fn add(&self, rhs: &Coords) -> (r: Coords)
        requires
            coords_wf(*self),
            coords_wf(*rhs),
            sub_fits(self@.x, rhs@.x),
            sub_fits(self@.y, rhs@.y),
            sub_fits(self@.z, rhs@.z),
        ensures
            coords_wf(r),
            rat_eq(r@.x, rat_add(self@.x, rhs@.x)),
            rat_eq(r@.y, rat_add(self@.y, rhs@.y)),
            rat_eq(r@.z, rat_add(self@.z, rhs@.z)),
    {
        Coords {
            x: self.x.add(&rhs.x),
            y: self.y.add(&rhs.y),
            z: self.z.add(&rhs.z),
        }
    }

    /// Componentwise difference.
    pub fn sub(&self, rhs: &Coords) -> (r: Coords)
        requires
            coords_wf(*self),
            coords_wf(*rhs),
            sub_fits(self@.x, rhs@.x),
            sub_fits(self@.y, rhs@.y),
            sub_fits(self@.z, rhs@.z),
        ensures
            coords_wf(r),
            rat_eq(r@.x, rat_sub(self@.x, rhs@.x)),
            rat_eq(r@.y, rat_sub(self@.y, rhs@.y)),
            rat_eq(r@.z, rat_sub(self@.z, rhs@.z)),
    {
        Coords {
            x: self.x.sub(&rhs.x),
            y: self.y.sub(&rhs.y),
            z: self.z.sub(&rhs.z),
        }
    }
}

proof fn lemma_abs_compat(a: Rat, b: Rat)
    by (nonlinear_arith)
    requires
        rat_eq(a, b),
        a.den > 0,
        b.den > 0,
    ensures
        rat_eq(rat_abs(a), rat_abs(b)),
{
}

proof fn lemma_coord_pair_fits(a: Rat, b: Rat)
    by (nonlinear_arith)
    requires
        iabs(a.num) <= 0x1_0000_0000,
        0 < a.den <= 0x1_0000,
        iabs(b.num) <= 0x1_0000_0000,
        0 < b.den <= 0x1_0000,
    ensures
        sub_fits(a, b),
        sub_fits(b, a),
        sub_num_bound(b, a) <= 0x2_0000_0000_0000,
        a.den * b.den <= 0x1_0000_0000,
        b.den * a.den <= 0x1_0000_0000,
{
}

proof fn lemma_add_compat_left(a: Rat, a2: Rat, b: Rat)
    by (nonlinear_arith)
    requires
        rat_eq(a, a2),
        a.den > 0,
        a2.den > 0,
        b.den > 0,
    ensures
        rat_eq(rat_add(a, b), rat_add(a2, b)),
{
}

proof fn lemma_rat_eq_trans(a: Rat, b: Rat, c: Rat)
    by (nonlinear_arith)
    requires
        rat_eq(a, b),
        rat_eq(b, c),
        a.den > 0,
        b.den > 0,
        c.den > 0,
    ensures
        rat_eq(a, c),
{
}

proof fn lemma_mul_compat_left(a: Rat, a2: Rat, b: Rat)
    by (nonlinear_arith)
    requires
        rat_eq(a, a2),
        a.den > 0,
        a2.den > 0,
        b.den > 0,
    ensures
        rat_eq(rat_mul(a, b), rat_mul(a2, b)),
{
}

/// Per-axis resolution: how many cells per meter along each axis. All
/// three factors are positive.
#[derive(Clone, Copy, Debug, PartialEq)]
pub struct AxisResolution {
    pub x: Real,
    pub y: Real,
    pub z: Real,
}

impl View for AxisResolution {
    type V = RatCoords;

    open spec fn view(&self) -> RatCoords {
        RatCoords { x: self.x@, y: self.y@, z: self.z@ }
    }
}

/// Well-formed: positive on each axis.
pub open spec fn resolution_wf(r: AxisResolution) -> bool {
    r.x.wf() && r.y.wf() && r.z.wf() && r.x@.num > 0 && r.y@.num > 0 && r.z@.num > 0
}

/// The machine-limit bound on resolutions.
pub open spec fn resolution_sized(r: AxisResolution) -> bool {
    res_sized(r.x) && res_sized(r.y) && res_sized(r.z)
}

impl AxisResolution {
    /// A resolution from three positive factors.
    pub fn new(x: Real, y: Real, z: Real) -> (r: AxisResolution)
        requires
            x.wf() && y.wf() && z.wf(),
            x@.num > 0 && y@.num > 0 && z@.num > 0,
        ensures
            r.x == x && r.y == y && r.z == z,
            resolution_wf(r),
    {
        AxisResolution { x, y, z }
    }

    /// The same resolution on every axis.
    pub fn uniform(resolution: Real) -> (r: AxisResolution)
        requires
            resolution.wf(),
            resolution@.num > 0,
        ensures
            r.x == resolution && r.y == resolution && r.z == resolution,
            resolution_wf(r),
    {
        AxisResolution { x: resolution, y: resolution, z: resolution }
    }
}

/// A point in real-world coordinates: what external callers use. Never
/// carries an implicit offset.
#[derive(Clone, Copy, Debug, PartialEq)]
pub struct RealWorldLocation {
    location: Coords,
}

impl View for RealWorldLocation {
    type V = RatCoords;

    closed spec fn view(&self) -> RatCoords {
        self.location@
    }
}

/// Mathematical value of the grid-relative point for a world point `p`,
/// offset `o` and resolution `r`: x and y are offset and scaled, z is
/// only offset.
pub open spec fn internal_of(p: RatCoords, o: RatCoords, r: RatCoords) -> RatCoords {
    RatCoords {
        x: rat_mul(rat_sub(p.x, o.x), r.x),
        y: rat_mul(rat_sub(p.y, o.y), r.y),
        z: rat_sub(p.z, o.z),
    }
}

/// Mathematical value of the world point for a grid-relative point `i`
/// taken with offset `o` and resolution `r`: the exact inverse of
/// `internal_of`.
pub open spec fn world_of(i: RatCoords, o: RatCoords, r: RatCoords) -> RatCoords {
    RatCoords {
        x: rat_add(rat_div(i.x, r.x), o.x),
        y: rat_add(rat_div(i.y, r.y), o.y),
        z: rat_add(i.z, o.z),
    }
}

pub open spec fn rat_coords_eq(a: RatCoords, b: RatCoords) -> bool {
    rat_eq(a.x, b.x) && rat_eq(a.y, b.y) && rat_eq(a.z, b.z)
}

/// A real-world location's mathematical value is that of its point.
pub broadcast proof fn lemma_rwl_view(p: RealWorldLocation)
    ensures
        #[trigger] p@ == p.spec_location()@,
{
}

impl RealWorldLocation {
    /// The point, for use in specifications.
    pub closed spec fn spec_location(&self) -> Coords {
        self.location
    }

    pub fn new(location: Coords) -> (r: RealWorldLocation)
        ensures
            r@ == location@,
            r.location() == location,
    {
        RealWorldLocation { location }
    }

    /// A real-world location from its three coordinates.
    pub fn from_xyz(x: Real, y: Real, z: Real) -> (r: RealWorldLocation)
        ensures
            r@.x == x@ && r@.y == y@ && r@.z == z@,
    {
        RealWorldLocation { location: Coords { x, y, z } }
    }

    #[verifier::when_used_as_spec(spec_location)]
    pub fn location(&self) -> (r: Coords)
        ensures
            r == self.spec_location(),
            r@ == self@,
    {
        self.location
    }

    pub fn x(&self) -> (r: Real)
        ensures
            r@ == self@.x,
    {
        self.location.x
    }

    pub fn y(&self) -> (r: Real)
        ensures
            r@ == self@.y,
    {
        self.location.y
    }

    pub fn z(&self) -> (r: Real)
        ensures
            r@ == self@.z,
    {
        self.location.z
    }

    /// Translate into the grid-relative frame anchored at `offset` and
    /// scaled by `resolution`. Exact; never fails within the stated
    /// machine-limit bounds.
    pub fn into_internal(self, offset: Coords, resolution: AxisResolution) -> (r: InternalLocation)
        requires
            coords_wf(self.location()),
            coords_wf(offset),
            resolution_wf(resolution),
            coords_sized(self.location()),
            coords_sized(offset),
            resolution_sized(resolution),
        ensures
            coords_wf(r.location()),
            rat_coords_eq(r.location()@, internal_of(self@, offset@, resolution@)),
            r.offset() == offset,
            r.resolution() == resolution,
            internal_sized(r.location()),
    {
        proof {
            lemma_coord_pair_fits(self@.x, offset@.x);
            lemma_coord_pair_fits(self@.y, offset@.y);
            lemma_coord_pair_fits(self@.z, offset@.z);
        }
        let dx = self.location.x.sub(&offset.x);
        let dy = self.location.y.sub(&offset.y);
        let dz = self.location.z.sub(&offset.z);
        proof {
            lemma_diff_res_fits(self@.x, offset@.x, dx@, resolution@.x);
            lemma_diff_res_fits(self@.y, offset@.y, dy@, resolution@.y);
        }
        let ix = dx.mul(&resolution.x);
        let iy = dy.mul(&resolution.y);
        proof {
            crate::rat::lemma_mul_pos(self@.x.den, offset@.x.den);
            crate::rat::lemma_mul_pos(self@.x.den * offset@.x.den, resolution@.x.den);
            crate::rat::lemma_mul_pos(dx@.den, resolution@.x.den);
            crate::rat::lemma_mul_pos(self@.y.den, offset@.y.den);
            crate::rat::lemma_mul_pos(self@.y.den * offset@.y.den, resolution@.y.den);
            crate::rat::lemma_mul_pos(dy@.den, resolution@.y.den);
            lemma_mul_compat_left(dx@, rat_sub(self@.x, offset@.x), resolution@.x);
            lemma_mul_compat_left(dy@, rat_sub(self@.y, offset@.y), resolution@.y);
            lemma_internal_result_sized(self@.x, offset@.x, dx@, resolution@.x, ix@);
            lemma_internal_result_sized(self@.y, offset@.y, dy@, resolution@.y, iy@);
            lemma_rat_eq_trans(
                ix@,
                rat_mul(dx@, resolution@.x),
                rat_mul(rat_sub(self@.x, offset@.x), resolution@.x),
            );
            lemma_rat_eq_trans(
                iy@,
                rat_mul(dy@, resolution@.y),
                rat_mul(rat_sub(self@.y, offset@.y), resolution@.y),
            );
            lemma_internal_z_sized(self@.z, offset@.z, dz@);
        }
        InternalLocation {
            location: Coords { x: ix, y: iy, z: dz },
            offset,
            resolution,
        }
    }
}

/// The bounds every grid-relative coordinate produced by this crate
/// satisfies: numerator up to 2^57 in magnitude, denominator up to 2^40.
pub open spec fn internal_coord_sized(r: Real) -> bool {
    r.sized(0x200_0000_0000_0000, 0x100_0000_0000)
}

pub open spec fn internal_sized(c: Coords) -> bool {
    internal_coord_sized(c.x) && internal_coord_sized(c.y) && internal_coord_sized(c.z)
}

proof fn lemma_diff_res_fits(a: Rat, b: Rat, d: Rat, r: Rat)
    by (nonlinear_arith)
    requires
        iabs(d.num) <= sub_num_bound(a, b),
        0 < d.den <= a.den * b.den,
        iabs(a.num) <= 0x1_0000_0000,
        0 < a.den <= 0x1_0000,
        iabs(b.num) <= 0x1_0000_0000,
        0 < b.den <= 0x1_0000,
        iabs(r.num) <= 0x100,
        0 < r.den <= 0x100,
    ensures
        iabs(d.num) * iabs(r.num) <= i128::MAX,
        d.den * r.den <= i128::MAX,
{
}

proof fn lemma_internal_result_sized(a: Rat, b: Rat, d: Rat, r: Rat, i: Rat)
    by (nonlinear_arith)
    requires
        iabs(d.num) <= sub_num_bound(a, b),
        0 < d.den <= a.den * b.den,
        iabs(a.num) <= 0x1_0000_0000,
        0 < a.den <= 0x1_0000,
        iabs(b.num) <= 0x1_0000_0000,
        0 < b.den <= 0x1_0000,
        iabs(r.num) <= 0x100,
        0 < r.den <= 0x100,
        iabs(i.num) <= iabs(d.num) * iabs(r.num),
        0 < i.den <= d.den * r.den,
    ensures
        iabs(i.num) <= 0x200_0000_0000_0000,
        0 < i.den <= 0x100_0000_0000,
{
}

proof fn lemma_internal_z_sized(a: Rat, b: Rat, d: Rat)
    by (nonlinear_arith)
    requires
        iabs(d.num) <= sub_num_bound(a, b),
        0 < d.den <= a.den * b.den,
        iabs(a.num) <= 0x1_0000_0000,
        0 < a.den <= 0x1_0000,
        iabs(b.num) <= 0x1_0000_0000,
        0 < b.den <= 0x1_0000,
    ensures
        iabs(d.num) <= 0x200_0000_0000_0000,
        0 < d.den <= 0x100_0000_0000,
{
}

/// A grid-relative point together with the offset and resolution it was
/// derived from. Not meaningful without them.
#[derive(Clone, Copy, Debug, PartialEq)]
pub struct InternalLocation {
    location: Coords,
    offset: Coords,
    resolution: AxisResolution,
}

impl InternalLocation {
    /// The grid-relative point, for use in specifications.
    pub closed spec fn spec_location(&self) -> Coords {
        self.location
    }

    /// The stored offset, for use in specifications.
    pub closed spec fn spec_offset(&self) -> Coords {
        self.offset
    }

    /// The stored resolution, for use in specifications.
    pub closed spec fn spec_resolution(&self) -> AxisResolution {
        self.resolution
    }

    /// Wrap an already grid-relative point. No arithmetic happens here;
    /// the caller asserts that `location` is relative to `offset` at
    /// `resolution`.
    pub fn new(location: Coords, offset: Coords, resolution: AxisResolution) -> (r:
        InternalLocation)
        ensures
            r.location() == location,
            r.offset() == offset,
            r.resolution() == resolution,
    {
        InternalLocation { location, offset, resolution }
    }

    #[verifier::when_used_as_spec(spec_location)]
    pub fn location(&self) -> (r: Coords)
        ensures
            r == self.spec_location(),
    {
        self.location
    }

    #[verifier::when_used_as_spec(spec_offset)]
    pub fn offset(&self) -> (r: Coords)
        ensures
            r == self.spec_offset(),
    {
        self.offset
    }

    #[verifier::when_used_as_spec(spec_resolution)]
    pub fn resolution(&self) -> (r: AxisResolution)
        ensures
            r == self.spec_resolution(),
    {
        self.resolution
    }

    pub fn x(&self) -> (r: Real)
        ensures
            r == self.spec_location().x,
    {
        self.location.x
    }

    pub fn y(&self) -> (r: Real)
        ensures
            r == self.spec_location().y,
    {
        self.location.y
    }

    pub fn z(&self) -> (r: Real)
        ensures
            r == self.spec_location().z,
    {
        self.location.z
    }

    /// Translate back to the real-world frame: the exact inverse of
    /// `RealWorldLocation::into_internal` with the stored offset and
    /// resolution.
    pub fn into_real_world(self) -> (r: RealWorldLocation)
        requires
            coords_wf(self.location()),
            coords_wf(self.offset()),
            resolution_wf(self.resolution()),
            internal_sized(self.location()),
            coords_sized(self.offset()),
            resolution_sized(self.resolution()),
        ensures
            coords_wf(r.location()),
            rat_coords_eq(r@, world_of(self.location()@, self.offset()@, self.resolution()@)),
            world_sized(r.location()),
            iabs(r@.x.num) <= (iabs(self.location()@.x.num) * self.resolution()@.x.den)
                * self.offset()@.x.den + iabs(self.offset()@.x.num) * (self.location()@.x.den
                * self.resolution()@.x.num),
            r@.x.den <= (self.location()@.x.den * self.resolution()@.x.num)
                * self.offset()@.x.den,
            iabs(r@.y.num) <= (iabs(self.location()@.y.num) * self.resolution()@.y.den)
                * self.offset()@.y.den + iabs(self.offset()@.y.num) * (self.location()@.y.den
                * self.resolution()@.y.num),
            r@.y.den <= (self.location()@.y.den * self.resolution()@.y.num)
                * self.offset()@.y.den,
            iabs(r@.z.num) <= iabs(self.location()@.z.num) * self.offset()@.z.den + iabs(
                self.offset()@.z.num,
            ) * self.location()@.z.den,
            r@.z.den <= self.location()@.z.den * self.offset()@.z.den,
    {
        proof {
            lemma_div_res_fits(self.location()@.x, self.resolution()@.x);
            lemma_div_res_fits(self.location()@.y, self.resolution()@.y);
        }
        let wx = self.location.x.div(&self.resolution.x);
        let wy = self.location.y.div(&self.resolution.y);
        proof {
            lemma_div_add_fits(self.location()@.x, self.resolution()@.x, wx@, self.offset()@.x);
            lemma_div_add_fits(self.location()@.y, self.resolution()@.y, wy@, self.offset()@.y);
            lemma_z_add_fits(self.location()@.z, self.offset()@.z);
        }
        let rx = wx.add(&self.offset.x);
        let ry = wy.add(&self.offset.y);
        let rz = self.location.z.add(&self.offset.z);
        proof {
            crate::rat::lemma_mul_pos(self.location()@.x.den, self.resolution()@.x.num);
            crate::rat::lemma_mul_pos(
                self.location()@.x.den * self.resolution()@.x.num,
                self.offset()@.x.den,
            );
            crate::rat::lemma_mul_pos(wx@.den, self.offset()@.x.den);
            crate::rat::lemma_mul_pos(self.location()@.y.den, self.resolution()@.y.num);
            crate::rat::lemma_mul_pos(
                self.location()@.y.den * self.resolution()@.y.num,
                self.offset()@.y.den,
            );
            crate::rat::lemma_mul_pos(wy@.den, self.offset()@.y.den);
            lemma_add_compat_left(wx@, rat_div(self.location()@.x, self.resolution()@.x), self.offset()@.x);
            lemma_add_compat_left(wy@, rat_div(self.location()@.y, self.resolution()@.y), self.offset()@.y);
            lemma_world_result_sized(
                self.location()@.x,
                self.resolution()@.x,
                wx@,
                self.offset()@.x,
                rx@,
            );
            lemma_world_result_sized(
                self.location()@.y,
                self.resolution()@.y,
                wy@,
                self.offset()@.y,
                ry@,
            );
            lemma_world_z_sized(self.location()@.z, self.offset()@.z, rz@);
            lemma_rat_eq_trans(
                rx@,
                rat_add(wx@, self.offset()@.x),
                rat_add(rat_div(self.location()@.x, self.resolution()@.x), self.offset()@.x),
            );
            lemma_rat_eq_trans(
                ry@,
                rat_add(wy@, self.offset()@.y),
                rat_add(rat_div(self.location()@.y, self.resolution()@.y), self.offset()@.y),
            );
            lemma_chain_bound(
                iabs(wx@.num),
                wx@.den,
                iabs(self.location()@.x.num),
                self.location()@.x.den,
                self.resolution()@.x.num,
                self.resolution()@.x.den,
                iabs(self.offset()@.x.num),
                self.offset()@.x.den,
                iabs(rx@.num),
                rx@.den,
            );
            lemma_chain_bound(
                iabs(wy@.num),
                wy@.den,
                iabs(self.location()@.y.num),
                self.location()@.y.den,
                self.resolution()@.y.num,
                self.resolution()@.y.den,
                iabs(self.offset()@.y.num),
                self.offset()@.y.den,
                iabs(ry@.num),
                ry@.den,
            );
        }
        RealWorldLocation { location: Coords { x: rx, y: ry, z: rz } }
    }

    /// Re-anchor to a new offset, by round-tripping through the
    /// real-world frame, never by adjusting the stored offset directly.
    pub fn change_offset(self, offset: Coords) -> (r: InternalLocation)
        requires
            coords_wf(self.location()),
            coords_wf(self.offset()),
            resolution_wf(self.resolution()),
            internal_sized(self.location()),
            coords_sized(self.offset()),
            resolution_sized(self.resolution()),
            coords_wf(offset),
            coords_sized(offset),
        ensures
            coords_wf(r.location()),
            r.offset() == offset,
            r.resolution() == self.resolution(),
            rat_coords_eq(
                r.location()@,
                internal_of(
                    world_of(self.location()@, self.offset()@, self.resolution()@),
                    offset@,
                    self.resolution()@,
                ),
            ),
    {
        let resolution = self.resolution;
        let ghost iv = self.location()@;
        let ghost ov = self.offset()@;
        let ghost rv = self.resolution()@;
        let world = self.into_real_world();
        proof {
            lemma_world_then_internal_fits(world@, offset@, rv);
        }
        let r = world.into_internal_wide(offset, resolution);
        proof {
            lemma_world_dens_pos(iv, ov, rv);
            lemma_internal_compat(world@, world_of(iv, ov, rv), offset@, rv);
            lemma_internal_dens_pos(world@, offset@, rv);
            lemma_internal_dens_pos(world_of(iv, ov, rv), offset@, rv);
            lemma_rat_eq_trans(
                r.location()@.x,
                internal_of(world@, offset@, rv).x,
                internal_of(world_of(iv, ov, rv), offset@, rv).x,
            );
            lemma_rat_eq_trans(
                r.location()@.y,
                internal_of(world@, offset@, rv).y,
                internal_of(world_of(iv, ov, rv), offset@, rv).y,
            );
            lemma_rat_eq_trans(
                r.location()@.z,
                internal_of(world@, offset@, rv).z,
                internal_of(world_of(iv, ov, rv), offset@, rv).z,
            );
        }
        r
    }
}

/// The bounds every real-world coordinate reconstructed by this crate
/// satisfies: numerator up to 2^82, denominator up to 2^64.
pub open spec fn world_coord_sized(r: Real) -> bool {
    r.sized(0x40000_0000_0000_0000_0000, 0x1_0000_0000_0000_0000)
}

pub open spec fn world_sized(c: Coords) -> bool {
    world_coord_sized(c.x) && world_coord_sized(c.y) && world_coord_sized(c.z)
}

proof fn lemma_div_res_fits(i: Rat, r: Rat)
    by (nonlinear_arith)
    requires
        iabs(i.num) <= 0x200_0000_0000_0000,
        0 < i.den <= 0x100_0000_0000,
        iabs(r.num) <= 0x100,
        0 < r.den <= 0x100,
        r.num > 0,
    ensures
        iabs(i.num) * r.den <= i128::MAX,
        i.den * r.num <= i128::MAX,
{
}

proof fn lemma_div_add_fits(i: Rat, r: Rat, w: Rat, o: Rat)
    by (nonlinear_arith)
    requires
        iabs(i.num) <= 0x200_0000_0000_0000,
        0 < i.den <= 0x100_0000_0000,
        iabs(r.num) <= 0x100,
        0 < r.den <= 0x100,
        r.num > 0,
        iabs(w.num) <= iabs(i.num) * r.den,
        0 < w.den <= i.den * r.num,
        iabs(o.num) <= 0x1_0000_0000,
        0 < o.den <= 0x1_0000,
    ensures
        iabs(w.num) * o.den + iabs(o.num) * w.den <= i128::MAX,
        w.den * o.den <= i128::MAX,
{
}

proof fn lemma_z_add_fits(i: Rat, o: Rat)
    by (nonlinear_arith)
    requires
        iabs(i.num) <= 0x200_0000_0000_0000,
        0 < i.den <= 0x100_0000_0000,
        iabs(o.num) <= 0x1_0000_0000,
        0 < o.den <= 0x1_0000,
    ensures
        iabs(i.num) * o.den + iabs(o.num) * i.den <= i128::MAX,
        i.den * o.den <= i128::MAX,
{
}

proof fn lemma_world_result_sized(i: Rat, r: Rat, w: Rat, o: Rat, res: Rat)
    by (nonlinear_arith)
    requires
        iabs(i.num) <= 0x200_0000_0000_0000,
        0 < i.den <= 0x100_0000_0000,
        iabs(r.num) <= 0x100,
        0 < r.den <= 0x100,
        r.num > 0,
        iabs(w.num) <= iabs(i.num) * r.den,
        0 < w.den <= i.den * r.num,
        iabs(o.num) <= 0x1_0000_0000,
        0 < o.den <= 0x1_0000,
        iabs(res.num) <= iabs(w.num) * o.den + iabs(o.num) * w.den,
        0 < res.den <= w.den * o.den,
    ensures
        iabs(res.num) <= 0x40000_0000_0000_0000_0000,
        0 < res.den <= 0x1_0000_0000_0000_0000,
{
}

proof fn lemma_world_z_sized(i: Rat, o: Rat, res: Rat)
    by (nonlinear_arith)
    requires
        iabs(i.num) <= 0x200_0000_0000_0000,
        0 < i.den <= 0x100_0000_0000,
        iabs(o.num) <= 0x1_0000_0000,
        0 < o.den <= 0x1_0000,
        iabs(res.num) <= iabs(i.num) * o.den + iabs(o.num) * i.den,
        0 < res.den <= i.den * o.den,
    ensures
        iabs(res.num) <= 0x40000_0000_0000_0000_0000,
        0 < res.den <= 0x1_0000_0000_0000_0000,
{
}

proof fn lemma_world_then_internal_fits(w: RatCoords, o: RatCoords, r: RatCoords)
    by (nonlinear_arith)
    requires
        iabs(w.x.num) <= 0x40000_0000_0000_0000_0000,
        0 < w.x.den <= 0x1_0000_0000_0000_0000,
        iabs(w.y.num) <= 0x40000_0000_0000_0000_0000,
        0 < w.y.den <= 0x1_0000_0000_0000_0000,
        iabs(w.z.num) <= 0x40000_0000_0000_0000_0000,
        0 < w.z.den <= 0x1_0000_0000_0000_0000,
        iabs(o.x.num) <= 0x1_0000_0000 && 0 < o.x.den <= 0x1_0000,
        iabs(o.y.num) <= 0x1_0000_0000 && 0 < o.y.den <= 0x1_0000,
        iabs(o.z.num) <= 0x1_0000_0000 && 0 < o.z.den <= 0x1_0000,
        iabs(r.x.num) <= 0x100 && 0 < r.x.den <= 0x100,
        iabs(r.y.num) <= 0x100 && 0 < r.y.den <= 0x100,
    ensures
        sub_fits(w.x, o.x),
        sub_fits(w.y, o.y),
        sub_fits(w.z, o.z),
        sub_num_bound(w.x, o.x) * iabs(r.x.num) <= i128::MAX,
        (w.x.den * o.x.den) * r.x.den <= i128::MAX,
        sub_num_bound(w.y, o.y) * iabs(r.y.num) <= i128::MAX,
        (w.y.den * o.y.den) * r.y.den <= i128::MAX,
{
}

pub(crate) proof fn lemma_internal_compat(w: RatCoords, w2: RatCoords, o: RatCoords, r: RatCoords)
    requires
        rat_coords_eq(w, w2),
        w.x.den > 0 && w.y.den > 0 && w.z.den > 0,
        w2.x.den > 0 && w2.y.den > 0 && w2.z.den > 0,
        o.x.den > 0 && o.y.den > 0 && o.z.den > 0,
        r.x.den > 0 && r.y.den > 0,
    ensures
        rat_coords_eq(internal_of(w, o, r), internal_of(w2, o, r)),
{
    lemma_sub_compat(w.x, w2.x, o.x);
    lemma_sub_compat(w.y, w2.y, o.y);
    lemma_sub_compat(w.z, w2.z, o.z);
    assert(rat_sub(w.x, o.x).den > 0 && rat_sub(w2.x, o.x).den > 0 && rat_sub(w.y, o.y).den > 0
        && rat_sub(w2.y, o.y).den > 0) by (nonlinear_arith)
        requires
            w.x.den > 0 && w.y.den > 0 && w2.x.den > 0 && w2.y.den > 0 && o.x.den > 0 && o.y.den
                > 0,
    ;
    lemma_mul_compat_left(rat_sub(w.x, o.x), rat_sub(w2.x, o.x), r.x);
    lemma_mul_compat_left(rat_sub(w.y, o.y), rat_sub(w2.y, o.y), r.y);
}

proof fn lemma_sub_compat(a: Rat, a2: Rat, b: Rat)
    by (nonlinear_arith)
    requires
        rat_eq(a, a2),
        a.den > 0,
        a2.den > 0,
        b.den > 0,
    ensures
        rat_eq(rat_sub(a, b), rat_sub(a2, b)),
{
}

impl RealWorldLocation {
    /// As `into_internal`, for points already carrying the wider bounds
    /// of a reconstructed real-world coordinate.
    pub fn into_internal_wide(self, offset: Coords, resolution: AxisResolution) -> (r:
        InternalLocation)
        requires
            coords_wf(self.location()),
            coords_wf(offset),
            resolution_wf(resolution),
            sub_fits(self@.x, offset@.x),
            sub_fits(self@.y, offset@.y),
            sub_fits(self@.z, offset@.z),
            sub_num_bound(self@.x, offset@.x) * iabs(resolution@.x.num) <= i128::MAX,
            (self@.x.den * offset@.x.den) * resolution@.x.den <= i128::MAX,
            sub_num_bound(self@.y, offset@.y) * iabs(resolution@.y.num) <= i128::MAX,
            (self@.y.den * offset@.y.den) * resolution@.y.den <= i128::MAX,
        ensures
            coords_wf(r.location()),
            rat_coords_eq(r.location()@, internal_of(self@, offset@, resolution@)),
            r.offset() == offset,
            r.resolution() == resolution,
    {
        let dx = self.location.x.sub(&offset.x);
        let dy = self.location.y.sub(&offset.y);
        let dz = self.location.z.sub(&offset.z);
        proof {
            lemma_wide_mul_fits(self@.x, offset@.x, dx@, resolution@.x);
            lemma_wide_mul_fits(self@.y, offset@.y, dy@, resolution@.y);
        }
        let ix = dx.mul(&resolution.x);
        let iy = dy.mul(&resolution.y);
        proof {
            crate::rat::lemma_mul_pos(self@.x.den, offset@.x.den);
            crate::rat::lemma_mul_pos(self@.x.den * offset@.x.den, resolution@.x.den);
            crate::rat::lemma_mul_pos(dx@.den, resolution@.x.den);
            crate::rat::lemma_mul_pos(self@.y.den, offset@.y.den);
            crate::rat::lemma_mul_pos(self@.y.den * offset@.y.den, resolution@.y.den);
            crate::rat::lemma_mul_pos(dy@.den, resolution@.y.den);
            lemma_mul_compat_left(dx@, rat_sub(self@.x, offset@.x), resolution@.x);
            lemma_mul_compat_left(dy@, rat_sub(self@.y, offset@.y), resolution@.y);
            lemma_rat_eq_trans(
                ix@,
                rat_mul(dx@, resolution@.x),
                rat_mul(rat_sub(self@.x, offset@.x), resolution@.x),
            );
            lemma_rat_eq_trans(
                iy@,
                rat_mul(dy@, resolution@.y),
                rat_mul(rat_sub(self@.y, offset@.y), resolution@.y),
            );
        }
        InternalLocation {
            location: Coords { x: ix, y: iy, z: dz },
            offset,
            resolution,
        }
    }
}

proof fn lemma_wide_mul_fits(a: Rat, b: Rat, d: Rat, r: Rat)
    by (nonlinear_arith)
    requires
        iabs(d.num) <= sub_num_bound(a, b),
        0 < d.den <= a.den * b.den,
        sub_num_bound(a, b) * iabs(r.num) <= i128::MAX,
        (a.den * b.den) * r.den <= i128::MAX,
        r.den > 0,
        iabs(r.num) >= 0,
    ensures
        iabs(d.num) * iabs(r.num) <= i128::MAX,
        d.den * r.den <= i128::MAX,
{
}

proof fn lemma_chain_bound(wn: int, wd: int, inum: int, iden: int, rnum: int, rden: int, onum: int, oden: int, resn: int, resd: int)
    by (nonlinear_arith)
    requires
        0 <= wn <= inum * rden,
        0 < wd <= iden * rnum,
        0 <= resn <= wn * oden + onum * wd,
        0 < resd <= wd * oden,
        inum >= 0,
        iden > 0,
        rnum > 0,
        rden > 0,
        onum >= 0,
        oden > 0,
    ensures
        resn <= (inum * rden) * oden + onum * (iden * rnum),
        resd <= (iden * rnum) * oden,
{
}

/// Converting a point to the grid-relative frame and back is the
/// identity: for every point `p`, offset `o` and positive resolution
/// `r`, `world_of(internal_of(p, o, r), o, r) == p` on every axis.
pub proof fn lemma_round_trip(p: RatCoords, o: RatCoords, r: RatCoords)
    requires
        p.x.den > 0 && p.y.den > 0 && p.z.den > 0,
        o.x.den > 0 && o.y.den > 0 && o.z.den > 0,
        r.x.den > 0 && r.y.den > 0,
        r.x.num > 0 && r.y.num > 0,
    ensures
        rat_coords_eq(world_of(internal_of(p, o, r), o, r), p),
{
    lemma_round_trip_axis(p.x, o.x, r.x);
    lemma_round_trip_axis(p.y, o.y, r.y);
    assert(rat_eq(rat_add(rat_sub(p.z, o.z), o.z), p.z)) by (nonlinear_arith)
        requires
            p.z.den > 0,
            o.z.den > 0,
    ;
}

proof fn lemma_round_trip_axis(p: Rat, o: Rat, r: Rat)
    requires
        p.den > 0,
        o.den > 0,
        r.den > 0,
        r.num > 0,
    ensures
        rat_eq(rat_add(rat_div(rat_mul(rat_sub(p, o), r), r), o), p),
{
    let a = rat_sub(p, o);
    let m = rat_mul(a, r);
    let d = rat_div(m, r);
    crate::rat::lemma_mul_pos(p.den, o.den);
    crate::rat::lemma_mul_pos(a.den, r.den);
    crate::rat::lemma_mul_pos(m.den, r.num);
    assert(rat_eq(d, a)) by (nonlinear_arith)
        requires
            p.den > 0,
            o.den > 0,
            r.den > 0,
            r.num > 0,
            a == rat_sub(p, o),
            m == rat_mul(a, r),
            d == rat_div(m, r),
    ;
    lemma_add_compat_left(d, a, o);
    assert(rat_eq(rat_add(a, o), p)) by (nonlinear_arith)
        requires
            p.den > 0,
            o.den > 0,
            a == rat_sub(p, o),
    ;
    crate::rat::lemma_mul_pos(d.den, o.den);
    crate::rat::lemma_mul_pos(a.den, o.den);
    lemma_rat_eq_trans(rat_add(d, o), rat_add(a, o), p);
}

/// Re-anchoring loses nothing: translating a point in with offset `o1`,
/// re-anchoring to `o2`, and translating back out yields the original
/// point, whatever the two offsets are.
pub proof fn lemma_re_anchor(p: RatCoords, o1: RatCoords, o2: RatCoords, r: RatCoords)
    requires
        p.x.den > 0 && p.y.den > 0 && p.z.den > 0,
        o1.x.den > 0 && o1.y.den > 0 && o1.z.den > 0,
        o2.x.den > 0 && o2.y.den > 0 && o2.z.den > 0,
        r.x.den > 0 && r.y.den > 0,
        r.x.num > 0 && r.y.num > 0,
    ensures
        rat_coords_eq(
            world_of(
                internal_of(world_of(internal_of(p, o1, r), o1, r), o2, r),
                o2,
                r,
            ),
            p,
        ),
{
    let i1 = internal_of(p, o1, r);
    let w = world_of(i1, o1, r);
    lemma_internal_dens_pos(p, o1, r);
    lemma_world_dens_pos(i1, o1, r);
    lemma_round_trip(p, o1, r);
    let i2 = internal_of(w, o2, r);
    let back = world_of(i2, o2, r);
    lemma_internal_dens_pos(w, o2, r);
    lemma_world_dens_pos(i2, o2, r);
    lemma_round_trip(w, o2, r);
    lemma_rat_eq_trans(back.x, w.x, p.x);
    lemma_rat_eq_trans(back.y, w.y, p.y);
    lemma_rat_eq_trans(back.z, w.z, p.z);
}

} // verus!
