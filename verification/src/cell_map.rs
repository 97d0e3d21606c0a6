//! The grid: a row-major 2D array of cell labels anchored to the real
//! world by an offset and a per-axis resolution.
//!
//! Real-world coordinates go in and come out; every translation to a grid
//! index routes through `location_to_map_index`, the single chokepoint
//! that also decides out-of-bounds.

use crate::coords::{
    coords_sized, coords_wf, internal_of, rat_coords_eq, resolution_sized, resolution_wf,
    sub_fits, world_of, AxisResolution, Coords, InternalLocation, RatCoords, RealWorldLocation,
};
use crate::rat::{
    iabs, lemma_mul_pos, lemma_rat_floor_eq, rat_abs, rat_eq, rat_floor, rat_from_int, rat_mul,
    rat_sub, Rat, Real,
};
use crate::{LocationError, MapState};
use vstd::prelude::*;

verus! {

use crate::coords::lemma_internal_dens_pos;

broadcast use crate::coords::lemma_rwl_view;

/// A grid of labeled cells.
///
/// `cells` is row-major: the cell at row `r`, column `c` is
/// `cells[r * ncols + c]`. The offset is the real-world coordinate of the
/// bottom-left corner; the resolution says how many cells cover one
/// meter on each axis.
#[derive(Debug, PartialEq)]
pub struct CellMap {
    cells: Vec<MapState>,
    nrows: usize,
    ncols: usize,
    resolution: AxisResolution,
    offset: Coords,
}

impl CellMap {
    /// The labels, row-major, for use in specifications.
    pub closed spec fn spec_cells(&self) -> Seq<MapState> {
        self.cells@
    }

    /// Number of rows, for use in specifications.
    pub closed spec fn spec_nrows(&self) -> int {
        self.nrows as int
    }

    /// Number of columns, for use in specifications.
    pub closed spec fn spec_ncols(&self) -> int {
        self.ncols as int
    }

    /// The offset, for use in specifications.
    pub closed spec fn spec_offset(&self) -> Coords {
        self.offset
    }

    /// The resolution, for use in specifications.
    pub closed spec fn spec_resolution(&self) -> AxisResolution {
        self.resolution
    }

    /// Well-formed: the array matches the dimensions, and the anchor data
    /// is within the machine-limit bounds of the coordinate model.
    pub open spec fn wf(&self) -> bool {
        self.spec_cells().len() == self.spec_nrows() * self.spec_ncols()
        && 0 <= self.spec_nrows() <= 0x1_0000_0000
        && 0 <= self.spec_ncols() <= 0x1_0000_0000
        && coords_wf(self.spec_offset())
        && coords_sized(self.spec_offset())
        && resolution_wf(self.spec_resolution())
        && resolution_sized(self.spec_resolution())
    }

    /// The label of the cell at `row`, `col`.
    pub open spec fn spec_cell_at(&self, row: int, col: int) -> MapState {
        self.spec_cells()[row * self.spec_ncols() + col]
    }

    /// The column a real-world point falls into: the floor of its
    /// grid-relative x coordinate (may be negative or past the edge).
    pub open spec fn spec_col(&self, p: RatCoords) -> int {
        rat_floor(internal_of(p, self.spec_offset()@, self.spec_resolution()@).x)
    }

    /// The row a real-world point falls into.
    pub open spec fn spec_row(&self, p: RatCoords) -> int {
        rat_floor(internal_of(p, self.spec_offset()@, self.spec_resolution()@).y)
    }

    /// Whether a real-world point lands inside the grid.
    pub open spec fn spec_index_ok(&self, p: RatCoords) -> bool {
        0 <= self.spec_col(p) < self.spec_ncols() && 0 <= self.spec_row(p) < self.spec_nrows()
    }

    /// Number of columns the grid spanning `point1` and `point2` gets:
    /// the scaled width with its fractional remainder truncated.
    pub open spec fn spec_new_cols(point1: RatCoords, point2: RatCoords, res: RatCoords) -> int {
        rat_floor(rat_mul(rat_abs(rat_sub(point2.x, point1.x)), res.x))
    }

    /// Number of rows, as `spec_new_cols`.
    pub open spec fn spec_new_rows(point1: RatCoords, point2: RatCoords, res: RatCoords) -> int {
        rat_floor(rat_mul(rat_abs(rat_sub(point2.y, point1.y)), res.y))
    }

    /// Create a grid covering the bounding box of two corner points, all
    /// cells `Unexplored`. The offset is the componentwise minimum of the
    /// corners; the dimensions are the box's extent scaled by the
    /// resolution, truncated toward zero.
    pub fn new(point1: RealWorldLocation, point2: RealWorldLocation, resolution: AxisResolution)
        -> (r: CellMap)
        requires
            coords_wf(point1.location()),
            coords_sized(point1.location()),
            coords_wf(point2.location()),
            coords_sized(point2.location()),
            resolution_wf(resolution),
            resolution_sized(resolution),
            Self::spec_new_cols(point1@, point2@, resolution@) <= 0x1_0000_0000,
            Self::spec_new_rows(point1@, point2@, resolution@) <= 0x1_0000_0000,
            Self::spec_new_cols(point1@, point2@, resolution@) <= usize::MAX,
            Self::spec_new_rows(point1@, point2@, resolution@) <= usize::MAX,
            Self::spec_new_rows(point1@, point2@, resolution@) * Self::spec_new_cols(
                point1@,
                point2@,
                resolution@,
            ) <= usize::MAX,
        ensures
            r.wf(),
            r.spec_ncols() == Self::spec_new_cols(point1@, point2@, resolution@),
            r.spec_nrows() == Self::spec_new_rows(point1@, point2@, resolution@),
            r.spec_resolution() == resolution,
            r.spec_offset()@.x == if crate::rat::rat_le(point1@.x, point2@.x) {
                point1@.x
            } else {
                point2@.x
            },
            r.spec_offset()@.y == if crate::rat::rat_le(point1@.y, point2@.y) {
                point1@.y
            } else {
                point2@.y
            },
            r.spec_offset()@.z == if crate::rat::rat_le(point1@.z, point2@.z) {
                point1@.z
            } else {
                point2@.z
            },
            forall|i: int|
                0 <= i < r.spec_cells().len() ==> r.spec_cells()[i] == MapState::Unexplored,
    {
        proof {
            lemma_corner_fits(point1@.x, point2@.x);
            lemma_corner_fits(point1@.y, point2@.y);
            lemma_corner_fits(point1@.z, point2@.z);
        }
        let p1 = point1.location();
        let p2 = point2.location();
        let wx = p1.distance_x(&p2);
        let wy = p1.distance_y(&p2);
        proof {
            lemma_dim_mul_fits(point1@.x, point2@.x, wx@, resolution@.x);
            lemma_dim_mul_fits(point1@.y, point2@.y, wy@, resolution@.y);
        }
        let cols_r = wx.mul(&resolution.x);
        let rows_r = wy.mul(&resolution.y);
        proof {
            lemma_dim_value(point1@.x, point2@.x, wx@, resolution@.x, cols_r@);
            lemma_dim_value(point1@.y, point2@.y, wy@, resolution@.y, rows_r@);
        }
        let cols_i = cols_r.floor_int();
        let rows_i = rows_r.floor_int();
        let ncols: usize = if cols_i < 0 {
            0
        } else {
            cols_i as usize
        };
        let nrows: usize = if rows_i < 0 {
            0
        } else {
            rows_i as usize
        };
        proof {
            lemma_dim_nonneg(point1@.x, point2@.x, resolution@.x);
            lemma_dim_nonneg(point1@.y, point2@.y, resolution@.y);
        }
        let offset = Coords {
            x: p1.x.min_val(&p2.x),
            y: p1.y.min_val(&p2.y),
            z: p1.z.min_val(&p2.z),
        };
        let n: usize = nrows * ncols;
        let mut cells: Vec<MapState> = Vec::new();
        let mut i: usize = 0;
        while i < n
            invariant
                i <= n,
                cells@.len() == i as int,
                forall|j: int| 0 <= j < i as int ==> cells@[j] == MapState::Unexplored,
            decreases n - i,
        {
            cells.push(MapState::Unexplored);
            i = i + 1;
        }
        CellMap { cells, nrows, ncols, resolution, offset }
    }

    /// Wrap an existing label array. The array is taken as-is; beyond the
    /// shape, nothing checks that `resolution` and `offset` are
    /// consistent with it — that is the caller's responsibility.
    pub fn from_raster(
        cells: Vec<MapState>,
        nrows: usize,
        ncols: usize,
        resolution: AxisResolution,
        offset: Coords,
    ) -> (r: CellMap)
        requires
            cells@.len() == nrows * ncols,
            nrows <= 0x1_0000_0000,
            ncols <= 0x1_0000_0000,
            coords_wf(offset),
            coords_sized(offset),
            resolution_wf(resolution),
            resolution_sized(resolution),
        ensures
            r.wf(),
            r.spec_cells() == cells@,
            r.spec_nrows() == nrows as int,
            r.spec_ncols() == ncols as int,
            r.spec_resolution() == resolution,
            r.spec_offset() == offset,
    {
        CellMap { cells, nrows, ncols, resolution, offset }
    }

    /// Translate a real-world location into the `[row, col]` index of the
    /// cell it falls into, or `OutOfMap` when it lies outside the grid:
    /// left of or below the offset, or at or past the far edges. Every
    /// label read or write routes through here.
    pub fn location_to_map_index(&self, location: &RealWorldLocation) -> (r: Result<
        [usize; 2],
        LocationError,
    >)
        requires
            self.wf(),
            coords_wf(location.location()),
            coords_sized(location.location()),
        ensures
            match r {
                Ok(idx) => self.spec_index_ok(location@) && idx@[0] as int == self.spec_row(
                    location@,
                ) && idx@[1] as int == self.spec_col(location@),
                Err(e) => e == LocationError::OutOfMap && !self.spec_index_ok(location@),
            },
    {
        let internal = (*location).into_internal(self.offset, self.resolution);
        let fx = internal.x().floor_int();
        let fy = internal.y().floor_int();
        proof {
            lemma_internal_dens_pos(location@, self.spec_offset()@, self.spec_resolution()@);
            lemma_rat_floor_eq(
                internal.location()@.x,
                internal_of(location@, self.spec_offset()@, self.spec_resolution()@).x,
            );
            lemma_rat_floor_eq(
                internal.location()@.y,
                internal_of(location@, self.spec_offset()@, self.spec_resolution()@).y,
            );
        }
        if fx < 0 || fy < 0 {
            return Err(LocationError::OutOfMap);
        }
        if fx >= self.ncols as i128 || fy >= self.nrows as i128 {
            return Err(LocationError::OutOfMap);
        }
        Ok([fy as usize, fx as usize])
    }

    /// The label at a real-world location, or `OutOfMap`.
    pub fn get_location(&self, coord: &RealWorldLocation) -> (r: Result<MapState, LocationError>)
        requires
            self.wf(),
            coords_wf(coord.location()),
            coords_sized(coord.location()),
        ensures
            match r {
                Ok(l) => self.spec_index_ok(coord@) && l == self.spec_cell_at(
                    self.spec_row(coord@),
                    self.spec_col(coord@),
                ),
                Err(e) => e == LocationError::OutOfMap && !self.spec_index_ok(coord@),
            },
    {
        match self.location_to_map_index(coord) {
            Ok(idx) => {
                let row = idx[0];
                let col = idx[1];
                let len = self.cells.len();
                proof {
                    lemma_flat_index(
                        row as int,
                        col as int,
                        self.spec_nrows(),
                        self.spec_ncols(),
                    );
                }
                Ok(self.cells[row * self.ncols + col])
            },
            Err(e) => Err(e),
        }
    }

    /// Overwrite the label at a real-world location. Exactly that one
    /// cell changes; on `OutOfMap` the map is untouched.
    pub fn set_location(&mut self, coord: &RealWorldLocation, value: MapState) -> (r: Result<
        (),
        LocationError,
    >)
        requires
            old(self).wf(),
            coords_wf(coord.location()),
            coords_sized(coord.location()),
        ensures
            final(self).wf(),
            final(self).spec_nrows() == old(self).spec_nrows(),
            final(self).spec_ncols() == old(self).spec_ncols(),
            final(self).spec_offset() == old(self).spec_offset(),
            final(self).spec_resolution() == old(self).spec_resolution(),
            match r {
                Ok(_) => old(self).spec_index_ok(coord@) && final(self).spec_cells() == old(
                    self,
                ).spec_cells().update(
                    old(self).spec_row(coord@) * old(self).spec_ncols() + old(self).spec_col(
                        coord@,
                    ),
                    value,
                ),
                Err(e) => e == LocationError::OutOfMap && !old(self).spec_index_ok(coord@)
                    && final(self).spec_cells() == old(self).spec_cells(),
            },
    {
        match self.location_to_map_index(coord) {
            Ok(idx) => {
                let row = idx[0];
                let col = idx[1];
                let len = self.cells.len();
                proof {
                    lemma_flat_index(
                        row as int,
                        col as int,
                        self.spec_nrows(),
                        self.spec_ncols(),
                    );
                }
                self.cells[row * self.ncols + col] = value;
                Ok(())
            },
            Err(e) => Err(e),
        }
    }

    pub fn resolution(&self) -> (r: &AxisResolution)
        ensures
            *r == self.spec_resolution(),
    {
        &self.resolution
    }

    pub fn offset(&self) -> (r: &Coords)
        ensures
            *r == self.spec_offset(),
    {
        &self.offset
    }

    /// The labels, row-major.
    pub fn cells(&self) -> (r: &Vec<MapState>)
        ensures
            r@ == self.spec_cells(),
    {
        &self.cells
    }

    pub fn ncols(&self) -> (r: usize)
        ensures
            r as int == self.spec_ncols(),
    {
        self.ncols
    }

    pub fn nrows(&self) -> (r: usize)
        ensures
            r as int == self.spec_nrows(),
    {
        self.nrows
    }

    pub fn width(&self) -> (r: usize)
        ensures
            r as int == self.spec_ncols(),
    {
        self.ncols
    }

    pub fn height(&self) -> (r: usize)
        ensures
            r as int == self.spec_nrows(),
    {
        self.nrows
    }
}

pub(crate) proof fn lemma_flat_index(row: int, col: int, nrows: int, ncols: int)
    by (nonlinear_arith)
    requires
        0 <= row < nrows,
        0 <= col < ncols,
    ensures
        0 <= row * ncols + col < nrows * ncols,
{
}

proof fn lemma_corner_fits(a: Rat, b: Rat)
    by (nonlinear_arith)
    requires
        iabs(a.num) <= 0x1_0000_0000,
        0 < a.den <= 0x1_0000,
        iabs(b.num) <= 0x1_0000_0000,
        0 < b.den <= 0x1_0000,
    ensures
        sub_fits(a, b),
        sub_fits(b, a),
        iabs(a.num) * b.den <= i128::MAX,
        iabs(b.num) * a.den <= i128::MAX,
{
}

proof fn lemma_dim_mul_fits(p1: Rat, p2: Rat, w: Rat, r: Rat)
    by (nonlinear_arith)
    requires
        iabs(p1.num) <= 0x1_0000_0000,
        0 < p1.den <= 0x1_0000,
        iabs(p2.num) <= 0x1_0000_0000,
        0 < p2.den <= 0x1_0000,
        iabs(w.num) <= iabs(p2.num) * p1.den + iabs(p1.num) * p2.den,
        0 < w.den <= p2.den * p1.den,
        iabs(r.num) <= 0x100,
        0 < r.den <= 0x100,
    ensures
        iabs(w.num) * iabs(r.num) <= i128::MAX,
        w.den * r.den <= i128::MAX,
{
}

proof fn lemma_dim_value(p1: Rat, p2: Rat, w: Rat, r: Rat, m: Rat)
    requires
        p1.den > 0,
        p2.den > 0,
        r.den > 0,
        w.den > 0,
        m.den > 0,
        rat_eq(w, rat_abs(rat_sub(p2, p1))),
        rat_eq(m, rat_mul(w, r)),
    ensures
        rat_floor(m) == rat_floor(rat_mul(rat_abs(rat_sub(p2, p1)), r)),
{
    lemma_mul_pos(p2.den, p1.den);
    lemma_mul_pos(p2.den * p1.den, r.den);
    lemma_mul_pos(w.den, r.den);
    lemma_mul_compat_left_pub(w, rat_abs(rat_sub(p2, p1)), r);
    lemma_rat_eq_trans_pub(m, rat_mul(w, r), rat_mul(rat_abs(rat_sub(p2, p1)), r));
    lemma_rat_floor_eq(m, rat_mul(rat_abs(rat_sub(p2, p1)), r));
}

pub(crate) proof fn lemma_mul_compat_left_pub(a: Rat, a2: Rat, b: Rat)
    by (nonlinear_arith)
    requires
        rat_eq(a, a2),
        a.den > 0,
        a2.den > 0,
        b.den > 0,
    ensures
        rat_eq(rat_mul(a, b), rat_mul(a2, b)),
{
}

pub(crate) proof fn lemma_rat_eq_trans_pub(a: Rat, b: Rat, c: Rat)
    by (nonlinear_arith)
    requires
        rat_eq(a, b),
        rat_eq(b, c),
        a.den > 0,
        b.den > 0,
        c.den > 0,
    ensures
        rat_eq(a, c),
{
}

proof fn lemma_dim_nonneg(p1: Rat, p2: Rat, r: Rat)
    requires
        p1.den > 0,
        p2.den > 0,
        r.den > 0,
        r.num > 0,
    ensures
        rat_floor(rat_mul(rat_abs(rat_sub(p2, p1)), r)) >= 0,
{
    let w = rat_abs(rat_sub(p2, p1));
    let m = rat_mul(w, r);
    assert(m.num >= 0) by (nonlinear_arith)
        requires
            w.num >= 0,
            r.num > 0,
            m.num == w.num * r.num,
    ;
    lemma_mul_pos(p2.den, p1.den);
    lemma_mul_pos(p2.den * p1.den, r.den);
    vstd::arithmetic::div_mod::lemma_div_pos_is_pos(m.num, m.den);
}

/// A query result: one cell's label together with the real-world
/// location of the cell's lower corner.
#[derive(Debug, PartialEq)]
pub struct Cell {
    location: RealWorldLocation,
    value: MapState,
}

impl Cell {
    /// The real-world location, for use in specifications.
    pub closed spec fn spec_location(&self) -> RealWorldLocation {
        self.location
    }

    /// The label, for use in specifications.
    pub closed spec fn spec_value(&self) -> MapState {
        self.value
    }

    /// A cell from the grid-relative location of its lower corner.
    pub fn new(location: InternalLocation, value: MapState) -> (r: Cell)
        requires
            coords_wf(location.location()),
            coords_wf(location.offset()),
            resolution_wf(location.resolution()),
            crate::coords::internal_sized(location.location()),
            coords_sized(location.offset()),
            resolution_sized(location.resolution()),
        ensures
            rat_coords_eq(
                r.spec_location()@,
                world_of(location.location()@, location.offset()@, location.resolution()@),
            ),
            r.spec_value() == value,
    {
        Cell { location: location.into_real_world(), value }
    }

    pub fn location(&self) -> (r: &RealWorldLocation)
        ensures
            *r == self.spec_location(),
    {
        &self.location
    }

    pub fn x(&self) -> (r: Real)
        ensures
            r@ == self.spec_location()@.x,
    {
        self.location.x()
    }

    pub fn y(&self) -> (r: Real)
        ensures
            r@ == self.spec_location()@.y,
    {
        self.location.y()
    }

    #[verifier::when_used_as_spec(spec_value)]
    pub fn value(&self) -> (r: MapState)
        ensures
            r == self.spec_value(),
    {
        self.value
    }
}

impl CellMap {
    /// The flat indices, in row-major order, of the cells among the
    /// first `k` whose label equals `state`.
    pub open spec fn spec_state_indices(&self, state: MapState, k: int) -> Seq<int>
        decreases k,
    {
        if k <= 0 {
            Seq::empty()
        } else if self.spec_cells()[k - 1] == state {
            self.spec_state_indices(state, k - 1).push(k - 1)
        } else {
            self.spec_state_indices(state, k - 1)
        }
    }

    /// The real-world location of the lower corner of the cell with flat
    /// index `n`.
    pub open spec fn spec_corner_of(&self, n: int) -> RatCoords {
        world_of(
            RatCoords {
                x: rat_from_int(n % self.spec_ncols()),
                y: rat_from_int(n / self.spec_ncols()),
                z: rat_from_int(0),
            },
            self.spec_offset()@,
            self.spec_resolution()@,
        )
    }

    /// All cells with the given label, in row-major order (row 0 first,
    /// within a row column 0 first), each with the real-world location of
    /// its lower corner.
    pub fn get_map_state(&self, state: MapState) -> (r: Vec<Cell>)
        requires
            self.wf(),
        ensures
            ({
                let idxs = self.spec_state_indices(
                    state,
                    self.spec_nrows() * self.spec_ncols(),
                );
                r@.len() == idxs.len() && forall|i: int|
                    0 <= i < idxs.len() ==> (#[trigger] r@[i]).spec_value() == state
                        && rat_coords_eq(r@[i].spec_location()@, self.spec_corner_of(idxs[i]))
            }),
    {
        let mut result: Vec<Cell> = Vec::new();
        let n: usize = self.cells.len();
        let mut k: usize = 0;
        proof {
            vstd::arithmetic::mul::lemma_mul_nonnegative(self.spec_nrows(), self.spec_ncols());
        }
        while k < n
            invariant
                self.wf(),
                k <= n,
                n as int == self.spec_nrows() * self.spec_ncols(),
                ({
                    let idxs = self.spec_state_indices(state, k as int);
                    result@.len() == idxs.len() && forall|i: int|
                        0 <= i < idxs.len() ==> (#[trigger] result@[i]).spec_value() == state
                            && rat_coords_eq(
                            result@[i].spec_location()@,
                            self.spec_corner_of(idxs[i]),
                        )
                }),
            decreases n - k,
        {
            proof {
                lemma_product_pos(self.spec_nrows(), self.spec_ncols(), k as int);
            }
            if self.cells[k] == state {
                let col: usize = k % self.ncols;
                let row: usize = k / self.ncols;
                proof {
                    assert(self.spec_ncols() * self.spec_nrows() == self.spec_nrows()
                        * self.spec_ncols()) by (nonlinear_arith);
                    vstd::arithmetic::div_mod::lemma_multiply_divide_lt(
                        k as int,
                        self.spec_ncols(),
                        self.spec_nrows(),
                    );
                }
                let corner = InternalLocation::new(
                    Coords {
                        x: Real::from_int(col as i128),
                        y: Real::from_int(row as i128),
                        z: Real::from_int(0),
                    },
                    self.offset,
                    self.resolution,
                );
                let cell = Cell::new(corner, state);
                result.push(cell);
            }
            k = k + 1;
        }
        result
    }

    /// The flat indices, in row-major order, of the positions where the
    /// outcome sequence holds true.
    pub open spec fn spec_true_indices(bs: Seq<bool>, k: int) -> Seq<int>
        decreases k,
    {
        if k <= 0 {
            Seq::empty()
        } else if bs[k - 1] {
            Self::spec_true_indices(bs, k - 1).push(k - 1)
        } else {
            Self::spec_true_indices(bs, k - 1)
        }
    }

    /// All cells whose label satisfies the given predicate, scanned in
    /// row-major order. There is one predicate outcome per grid cell, and
    /// the result holds exactly the cells with a true outcome, in scan
    /// order, each with the real-world lower corner of its cell.
    pub fn get_map_region<F: Fn(MapState) -> bool>(&self, filter: F) -> (r: Vec<Cell>)
        requires
            self.wf(),
            forall|l: MapState| #[trigger] filter.requires((l,)),
        ensures
            exists|bs: Seq<bool>|
                {
                    let total = self.spec_nrows() * self.spec_ncols();
                    let idxs = Self::spec_true_indices(bs, total);
                    #[trigger] bs.len() == total && (forall|m: int|
                        0 <= m < total ==> filter.ensures(
                            ((#[trigger] self.spec_cells()[m]),),
                            bs[m],
                        )) && r@.len() == idxs.len() && (forall|i: int|
                        0 <= i < idxs.len() ==> (#[trigger] r@[i]).spec_value()
                            == self.spec_cells()[idxs[i]] && rat_coords_eq(
                            r@[i].spec_location()@,
                            self.spec_corner_of(idxs[i]),
                        ))
                },
    {
        let mut result: Vec<Cell> = Vec::new();
        let n: usize = self.cells.len();
        let mut k: usize = 0;
        let ghost mut bs: Seq<bool> = Seq::empty();
        proof {
            vstd::arithmetic::mul::lemma_mul_nonnegative(self.spec_nrows(), self.spec_ncols());
        }
        while k < n
            invariant
                self.wf(),
                k <= n,
                n as int == self.spec_nrows() * self.spec_ncols(),
                forall|l: MapState| #[trigger] filter.requires((l,)),
                bs.len() == k as int,
                forall|m: int|
                    0 <= m < k as int ==> filter.ensures(
                        ((#[trigger] self.spec_cells()[m]),),
                        bs[m],
                    ),
                ({
                    let idxs = Self::spec_true_indices(bs, k as int);
                    result@.len() == idxs.len() && (forall|i: int|
                        0 <= i < idxs.len() ==> (#[trigger] result@[i]).spec_value()
                            == self.spec_cells()[idxs[i]] && rat_coords_eq(
                            result@[i].spec_location()@,
                            self.spec_corner_of(idxs[i]),
                        ))
                }),
            decreases n - k,
        {
            proof {
                lemma_product_pos(self.spec_nrows(), self.spec_ncols(), k as int);
            }
            let label = self.cells[k];
            let keep = filter(label);
            if keep {
                let col: usize = k % self.ncols;
                let row: usize = k / self.ncols;
                proof {
                    assert(self.spec_ncols() * self.spec_nrows() == self.spec_nrows()
                        * self.spec_ncols()) by (nonlinear_arith);
                    vstd::arithmetic::div_mod::lemma_multiply_divide_lt(
                        k as int,
                        self.spec_ncols(),
                        self.spec_nrows(),
                    );
                }
                let corner = InternalLocation::new(
                    Coords {
                        x: Real::from_int(col as i128),
                        y: Real::from_int(row as i128),
                        z: Real::from_int(0),
                    },
                    self.offset,
                    self.resolution,
                );
                let cell = Cell::new(corner, label);
                result.push(cell);
            }
            proof {
                let old_bs = bs;
                bs = bs.push(keep);
                assert(Self::spec_true_indices(bs, k as int) =~= Self::spec_true_indices(
                    old_bs,
                    k as int,
                )) by {
                    lemma_true_indices_push(old_bs, keep, k as int);
                }
                assert forall|m: int| 0 <= m < (k + 1) as int implies filter.ensures(
                    ((#[trigger] self.spec_cells()[m]),),
                    bs[m],
                ) by {
                    if m < k as int {
                        assert(filter.ensures(((self.spec_cells()[m]),), old_bs[m]));
                    }
                }
            }
            k = k + 1;
        }
        proof {
            assert(bs.len() == self.spec_nrows() * self.spec_ncols());
        }
        result
    }
}

pub(crate) proof fn lemma_product_pos(a: int, b: int, k: int)
    by (nonlinear_arith)
    requires
        0 <= k < a * b,
        a >= 0,
        b >= 0,
    ensures
        a > 0,
        b > 0,
{
}

proof fn lemma_true_indices_push(bs: Seq<bool>, b: bool, k: int)
    requires
        0 <= k <= bs.len(),
    ensures
        CellMap::spec_true_indices(bs.push(b), k) == CellMap::spec_true_indices(bs, k),
    decreases k,
{
    if k > 0 {
        lemma_true_indices_push(bs, b, k - 1);
        assert(bs.push(b)[k - 1] == bs[k - 1]);
    }
}

proof fn lemma_floor_neg(num: int, den: int)
    requires
        num < 0,
        den > 0,
    ensures
        num / den < 0,
{
    vstd::arithmetic::div_mod::lemma_fundamental_div_mod(num, den);
    vstd::arithmetic::div_mod::lemma_mod_division_less_than_divisor(num, den);
    assert(num / den < 0) by (nonlinear_arith)
        requires
            num == den * (num / den) + num % den,
            0 <= num % den < den,
            num < 0,
            den > 0,
    ;
}

proof fn lemma_floor_at_least(num: int, den: int, w: int)
    requires
        den > 0,
        w >= 0,
        num >= w * den,
    ensures
        num / den >= w,
{
    vstd::arithmetic::div_mod::lemma_div_is_ordered(w * den, num, den);
    vstd::arithmetic::div_mod::lemma_div_by_multiple(w, den);
}

proof fn lemma_low_x(pxn: int, pxd: int, oxn: int, oxd: int, rxn: int, rxd: int)
    by (nonlinear_arith)
    requires
        pxd > 0,
        oxd > 0,
        rxn > 0,
        pxn * oxd < oxn * pxd,
    ensures
        (pxn * oxd - oxn * pxd) * rxn < 0,
{
}

#[verifier::rlimit(100)]
proof fn lemma_high_x(pxn: int, pxd: int, oxn: int, oxd: int, rxn: int, rxd: int, w: int)
    by (nonlinear_arith)
    requires
        pxd > 0,
        oxd > 0,
        rxn > 0,
        rxd > 0,
        w >= 0,
        (w * rxd * oxd + oxn * (1 * rxn)) * pxd <= pxn * ((1 * rxn) * oxd),
    ensures
        (pxn * oxd - oxn * pxd) * rxn >= w * ((pxd * oxd) * rxd),
{
}

/// The far edge of the grid, along one axis, in real-world terms: the
/// offset plus the cell count divided by the resolution.
pub open spec fn far_edge(offset: Rat, count: int, res: Rat) -> Rat {
    crate::rat::rat_add(crate::rat::rat_div(rat_from_int(count), res), offset)
}

/// Out-of-bounds is decided consistently: a point strictly left of or
/// below the offset, or at or beyond the far edge on either axis, never
/// resolves to a grid index.
pub proof fn lemma_out_of_bounds(m: &CellMap, p: RatCoords)
    requires
        m.wf(),
        p.x.den > 0,
        p.y.den > 0,
        p.z.den > 0,
    ensures
        crate::rat::rat_lt(p.x, m.spec_offset()@.x) ==> !m.spec_index_ok(p),
        crate::rat::rat_lt(p.y, m.spec_offset()@.y) ==> !m.spec_index_ok(p),
        crate::rat::rat_le(
            far_edge(m.spec_offset()@.x, m.spec_ncols(), m.spec_resolution()@.x),
            p.x,
        ) ==> !m.spec_index_ok(p),
        crate::rat::rat_le(
            far_edge(m.spec_offset()@.y, m.spec_nrows(), m.spec_resolution()@.y),
            p.y,
        ) ==> !m.spec_index_ok(p),
{
    let o = m.spec_offset()@;
    let res = m.spec_resolution()@;
    let ix = internal_of(p, o, res).x;
    let iy = internal_of(p, o, res).y;
    lemma_internal_dens_pos(p, o, res);
    if crate::rat::rat_lt(p.x, o.x) {
        lemma_low_x(p.x.num, p.x.den, o.x.num, o.x.den, res.x.num, res.x.den);
        lemma_floor_neg(ix.num, ix.den);
    }
    if crate::rat::rat_lt(p.y, o.y) {
        lemma_low_x(p.y.num, p.y.den, o.y.num, o.y.den, res.y.num, res.y.den);
        lemma_floor_neg(iy.num, iy.den);
    }
    if crate::rat::rat_le(far_edge(o.x, m.spec_ncols(), res.x), p.x) {
        lemma_high_x(
            p.x.num,
            p.x.den,
            o.x.num,
            o.x.den,
            res.x.num,
            res.x.den,
            m.spec_ncols(),
        );
        lemma_floor_at_least(ix.num, ix.den, m.spec_ncols());
    }
    if crate::rat::rat_le(far_edge(o.y, m.spec_nrows(), res.y), p.y) {
        lemma_high_x(
            p.y.num,
            p.y.den,
            o.y.num,
            o.y.den,
            res.y.num,
            res.y.den,
            m.spec_nrows(),
        );
        lemma_floor_at_least(iy.num, iy.den, m.spec_nrows());
    }
}

} // verus!
