//! A map given as a polygon, and its rasterization into a grid.
//!
//! The region of interest is an ordered sequence of at least three
//! real-world vertices, optionally with further vertex sequences for
//! already-explored sub-regions. Rasterization anchors a grid at the
//! polygon's bounding-box minimum and labels each cell by an exact
//! membership test: a cell is inside the polygon exactly when its center
//! point lies in the closed polygon (interior by the even-odd rule, or on
//! the boundary).

use crate::cell_map::{
    lemma_mul_compat_left_pub, lemma_rat_eq_trans_pub, CellMap,
};
use crate::coords::{
    coords_sized, coords_wf, internal_of, rat_coords_eq, resolution_sized, resolution_wf,
    world_of, AxisResolution, Coords, InternalLocation, RatCoords, RealWorldLocation,
};
use crate::local_map::stamp_cells;
use crate::rat::{
    iabs, lemma_mul_abs_bound, lemma_mul_pos, lemma_rat_floor_eq, rat_floor, rat_from_int,
    rat_le, rat_lt, rat_mul, rat_sub, Rat, Real,
};
use crate::{MapState, PolygonMapError};
use vstd::prelude::*;

verus! {

broadcast use crate::coords::lemma_rwl_view;

/// The smaller of two rationals, the first on ties.
pub open spec fn rat_min(a: Rat, b: Rat) -> Rat {
    if rat_le(a, b) {
        a
    } else {
        b
    }
}

/// The larger of two rationals, the first on ties.
pub open spec fn rat_max(a: Rat, b: Rat) -> Rat {
    if rat_le(b, a) {
        a
    } else {
        b
    }
}

/// Smallest x coordinate among the first `k` vertices.
pub open spec fn vmin_x(verts: Seq<RealWorldLocation>, k: int) -> Rat
    decreases k,
{
    if k <= 1 {
        verts[0]@.x
    } else {
        rat_min(vmin_x(verts, k - 1), verts[k - 1]@.x)
    }
}

/// Smallest y coordinate among the first `k` vertices.
pub open spec fn vmin_y(verts: Seq<RealWorldLocation>, k: int) -> Rat
    decreases k,
{
    if k <= 1 {
        verts[0]@.y
    } else {
        rat_min(vmin_y(verts, k - 1), verts[k - 1]@.y)
    }
}

/// Largest x coordinate among the first `k` vertices.
pub open spec fn vmax_x(verts: Seq<RealWorldLocation>, k: int) -> Rat
    decreases k,
{
    if k <= 1 {
        verts[0]@.x
    } else {
        rat_max(vmax_x(verts, k - 1), verts[k - 1]@.x)
    }
}

/// Largest y coordinate among the first `k` vertices.
pub open spec fn vmax_y(verts: Seq<RealWorldLocation>, k: int) -> Rat
    decreases k,
{
    if k <= 1 {
        verts[0]@.y
    } else {
        rat_max(vmax_y(verts, k - 1), verts[k - 1]@.y)
    }
}

/// The grid anchor a polygon gets: its bounding box's minimum corner on
/// x and y, and zero on z.
pub open spec fn poly_offset(verts: Seq<RealWorldLocation>) -> RatCoords {
    RatCoords {
        x: vmin_x(verts, verts.len() as int),
        y: vmin_y(verts, verts.len() as int),
        z: rat_from_int(0),
    }
}

/// Grid columns a polygon gets: its bounding box width scaled by the
/// resolution, fractional remainder truncated.
pub open spec fn poly_cols(verts: Seq<RealWorldLocation>, res: AxisResolution) -> int {
    rat_floor(
        rat_mul(
            rat_sub(vmax_x(verts, verts.len() as int), vmin_x(verts, verts.len() as int)),
            res@.x,
        ),
    )
}

/// Grid rows a polygon gets.
pub open spec fn poly_rows(verts: Seq<RealWorldLocation>, res: AxisResolution) -> int {
    rat_floor(
        rat_mul(
            rat_sub(vmax_y(verts, verts.len() as int), vmin_y(verts, verts.len() as int)),
            res@.y,
        ),
    )
}

/// The polygon's vertices in grid-relative coordinates: offset by the
/// bounding-box minimum and scaled by the resolution, exactly.
pub open spec fn iv_spec(verts: Seq<RealWorldLocation>, res: AxisResolution) -> Seq<(Rat, Rat)> {
    Seq::new(
        verts.len(),
        |i: int|
            (
                internal_of(verts[i]@, poly_offset(verts), res@).x,
                internal_of(verts[i]@, poly_offset(verts), res@).y,
            ),
    )
}

/// Orientation of point `p` against the directed edge `a -> b`, as the
/// sign-carrying integer obtained from the exact cross product
/// `(b - a) x (p - a)` after clearing the (positive) denominators: zero
/// exactly on the line through `a` and `b`, positive on its left.
pub open spec fn orient_num(ax: Rat, ay: Rat, bx: Rat, by: Rat, px: Rat, py: Rat) -> int {
    (bx.num * ax.den - ax.num * bx.den) * (py.num * ay.den - ay.num * py.den) * (by.den * px.den)
        - (by.num * ay.den - ay.num * by.den) * (px.num * ax.den - ax.num * px.den) * (bx.den
        * py.den)
}

/// The second endpoint of edge `i`: the next vertex, wrapping around.
pub open spec fn edge_to(pts: Seq<(Rat, Rat)>, i: int) -> (Rat, Rat) {
    if i + 1 == pts.len() {
        pts[0]
    } else {
        pts[i + 1]
    }
}

/// Whether the horizontal ray from `p` rightward crosses edge `i`, by
/// the half-open rule: the edge spans the scanline height with its lower
/// endpoint inclusive, and the crossing lies at or right of `p`.
pub open spec fn edge_crossing(pts: Seq<(Rat, Rat)>, i: int, px: Rat, py: Rat) -> bool {
    let a = pts[i];
    let b = edge_to(pts, i);
    (rat_le(a.1, py) && rat_lt(py, b.1) && orient_num(a.0, a.1, b.0, b.1, px, py) >= 0) || (rat_le(
        b.1,
        py,
    ) && rat_lt(py, a.1) && orient_num(a.0, a.1, b.0, b.1, px, py) <= 0)
}

/// Whether `p` lies on the closed segment of edge `i`.
pub open spec fn edge_on(pts: Seq<(Rat, Rat)>, i: int, px: Rat, py: Rat) -> bool {
    let a = pts[i];
    let b = edge_to(pts, i);
    orient_num(a.0, a.1, b.0, b.1, px, py) == 0 && (rat_le(a.0, px) || rat_le(b.0, px)) && (rat_le(
        px,
        a.0,
    ) || rat_le(px, b.0)) && (rat_le(a.1, py) || rat_le(b.1, py)) && (rat_le(py, a.1) || rat_le(
        py,
        b.1,
    ))
}

/// Number of edges among the first `k` that the ray from `p` crosses.
pub open spec fn cross_count(pts: Seq<(Rat, Rat)>, px: Rat, py: Rat, k: int) -> int
    decreases k,
{
    if k <= 0 {
        0
    } else if edge_crossing(pts, k - 1, px, py) {
        cross_count(pts, px, py, k - 1) + 1
    } else {
        cross_count(pts, px, py, k - 1)
    }
}

/// Whether `p` lies on one of the first `k` edges.
pub open spec fn any_on(pts: Seq<(Rat, Rat)>, px: Rat, py: Rat, k: int) -> bool
    decreases k,
{
    if k <= 0 {
        false
    } else {
        any_on(pts, px, py, k - 1) || edge_on(pts, k - 1, px, py)
    }
}

/// Membership of a point in the closed polygon: on the boundary, or in
/// the interior by the even-odd rule.
pub open spec fn point_in(pts: Seq<(Rat, Rat)>, px: Rat, py: Rat) -> bool {
    any_on(pts, px, py, pts.len() as int) || cross_count(pts, px, py, pts.len() as int) % 2 == 1
}

/// The center of the cell with flat index `j` in a grid `cols` wide, in
/// grid-relative coordinates: both components are odd halves.
pub open spec fn center_x(j: int, cols: int) -> Rat {
    Rat { num: 2 * (j % cols) + 1, den: 2 }
}

pub open spec fn center_y(j: int, cols: int) -> Rat {
    Rat { num: 2 * (j / cols) + 1, den: 2 }
}

/// Whether the cell with flat index `j` of the polygon's grid is inside
/// the polygon: its center is in the closed polygon.
pub open spec fn cell_in(verts: Seq<RealWorldLocation>, res: AxisResolution, j: int) -> bool {
    point_in(
        iv_spec(verts, res),
        center_x(j, poly_cols(verts, res)),
        center_y(j, poly_cols(verts, res)),
    )
}

/// The real-world location of the lower corner of cell `j` of a
/// polygon's own grid.
pub open spec fn ecorner(verts: Seq<RealWorldLocation>, res: AxisResolution, j: int) -> RatCoords {
    world_of(
        RatCoords {
            x: rat_from_int(j % poly_cols(verts, res)),
            y: rat_from_int(j / poly_cols(verts, res)),
            z: rat_from_int(0),
        },
        poly_offset(verts),
        res@,
    )
}

/// The machine-limit bound on polygon vertices: numerators up to 2^12 in
/// magnitude, denominators up to 2^6 on x and y.
pub open spec fn poly_vertex_sized(v: RealWorldLocation) -> bool {
    v.spec_location().x.sized(0x1000, 0x40) && v.spec_location().y.sized(0x1000, 0x40)
        && v.spec_location().z.sized(0x1000, 0x40)
}

pub open spec fn poly_sized(verts: Seq<RealWorldLocation>) -> bool {
    forall|i: int| 0 <= i < verts.len() ==> poly_vertex_sized(#[trigger] verts[i])
}

/// The machine-limit bound on rasterization resolutions: numerator and
/// denominator up to 2^6 on x and y.
pub open spec fn poly_res_sized(res: AxisResolution) -> bool {
    res.x.sized(0x40, 0x40) && res.y.sized(0x40, 0x40) && resolution_wf(res)
        && resolution_sized(res)
}

/// Bounds every grid-relative polygon vertex satisfies.
pub open spec fn ivc_sized(r: Rat) -> bool {
    iabs(r.num) <= 0x200_0000 && 0 < r.den <= 0x40000
}

/// Bounds every cell-center coordinate satisfies.
pub open spec fn ctr_sized(r: Rat) -> bool {
    iabs(r.num) <= 0x20_0000 && r.den == 2
}

/// The labels of the polygon's own grid before any explored overlay:
/// `Unexplored` inside, `OutOfMap` outside.
pub open spec fn base_cells(verts: Seq<RealWorldLocation>, res: AxisResolution) -> Seq<MapState> {
    Seq::new(
        (poly_rows(verts, res) * poly_cols(verts, res)) as nat,
        |j: int|
            if cell_in(verts, res, j) {
                MapState::Unexplored
            } else {
                MapState::OutOfMap
            },
    )
}

/// Overlay of one explored polygon, cell by cell up to flat index `k` of
/// the explored polygon's own grid: each inside cell's lower corner is
/// carried to the real world and, where it falls inside `geom`, that
/// cell is overwritten with `Explored`.
pub open spec fn overlay_upto(
    geom: &CellMap,
    cells: Seq<MapState>,
    everts: Seq<RealWorldLocation>,
    res: AxisResolution,
    k: int,
) -> Seq<MapState>
    decreases k,
{
    if k <= 0 {
        cells
    } else {
        let prev = overlay_upto(geom, cells, everts, res, k - 1);
        if cell_in(everts, res, k - 1) {
            stamp_cells(geom, prev, ecorner(everts, res, k - 1), MapState::Explored)
        } else {
            prev
        }
    }
}

/// Overlay of the first `k` explored polygons, in order.
pub open spec fn overlay_all(
    geom: &CellMap,
    cells: Seq<MapState>,
    explored: Seq<Seq<RealWorldLocation>>,
    res: AxisResolution,
    k: int,
) -> Seq<MapState>
    decreases k,
{
    if k <= 0 {
        cells
    } else {
        overlay_upto(
            geom,
            overlay_all(geom, cells, explored, res, k - 1),
            explored[k - 1],
            res,
            (poly_rows(explored[k - 1], res) * poly_cols(explored[k - 1], res)) as int,
        )
    }
}

/// A map region given as a polygon, with optional already-explored
/// sub-regions.
#[derive(Debug)]
pub struct PolygonMap {
    vertices: Vec<RealWorldLocation>,
    explored: Option<Vec<Vec<RealWorldLocation>>>,
}

impl PolygonMap {
    /// The vertices, for use in specifications.
    pub closed spec fn spec_vertices(&self) -> Seq<RealWorldLocation> {
        self.vertices@
    }

    /// The explored sub-regions (empty when none were given), for use in
    /// specifications.
    pub closed spec fn spec_explored(&self) -> Seq<Seq<RealWorldLocation>> {
        match self.explored {
            Some(e) => e@.map_values(|v: Vec<RealWorldLocation>| v@),
            None => Seq::empty(),
        }
    }

    /// Every vertex sequence has at least three vertices.
    pub open spec fn wf(&self) -> bool {
        self.spec_vertices().len() >= 3 && forall|i: int|
            0 <= i < self.spec_explored().len() ==> (#[trigger] self.spec_explored()[i]).len()
                >= 3
    }

    /// A polygon map from the region's vertices. Fails with
    /// `NotEnoughVertices` exactly when fewer than three are given.
    pub fn new(vertices: Vec<RealWorldLocation>) -> (r: Result<PolygonMap, PolygonMapError>)
        ensures
            match r {
                Ok(p) => vertices@.len() >= 3 && p.wf() && p.spec_vertices() == vertices@
                    && p.spec_explored().len() == 0,
                Err(e) => e == PolygonMapError::NotEnoughVertices && vertices@.len() < 3,
            },
    {
        let vertices = Self::verify_polygon(vertices)?;
        Ok(PolygonMap { vertices, explored: None })
    }

    /// As `new`, and also records already-explored sub-regions, each of
    /// which must itself have at least three vertices.
    pub fn new_explored(
        vertices: Vec<RealWorldLocation>,
        explored: Option<Vec<Vec<RealWorldLocation>>>,
    ) -> (r: Result<PolygonMap, PolygonMapError>)
        ensures
            match r {
                Ok(p) => vertices@.len() >= 3 && p.wf() && p.spec_vertices() == vertices@
                    && (match explored {
                    Some(e) => p.spec_explored().len() == e@.len() && forall|i: int|
                        0 <= i < e@.len() ==> #[trigger] p.spec_explored()[i] == e@[i]@
                            && e@[i]@.len() >= 3,
                    None => p.spec_explored().len() == 0,
                }),
                Err(e) => e == PolygonMapError::NotEnoughVertices && (vertices@.len() < 3 || (
                match explored {
                    Some(ex) => exists|i: int| 0 <= i < ex@.len() && (#[trigger] ex@[i]@).len() < 3,
                    None => false,
                })),
            },
    {
        match &explored {
            Some(e) => {
                let n: usize = e.len();
                let mut i: usize = 0;
                while i < n
                    invariant
                        i <= n,
                        explored == Some(*e),
                        n as int == e@.len(),
                        forall|j: int| 0 <= j < i as int ==> (#[trigger] e@[j]@).len() >= 3,
                    decreases n - i,
                {
                    if e[i].len() < 3 {
                        proof {
                            let wi = i as int;
                            assert(explored == Some(*e));
                            assert(0 <= wi < (explored->Some_0)@.len() && (#[trigger] (
                            explored->Some_0)@[wi]@).len() < 3);
                        }
                        return Err(PolygonMapError::NotEnoughVertices);
                    }
                    i = i + 1;
                }
            },
            None => {},
        }
        let vertices = Self::verify_polygon(vertices)?;
        Ok(PolygonMap { vertices, explored })
    }

    /// Hand the vertex list back unless it is too short to describe a
    /// polygon.
    fn verify_polygon(vertices: Vec<RealWorldLocation>) -> (r: Result<
        Vec<RealWorldLocation>,
        PolygonMapError,
    >)
        ensures
            match r {
                Ok(v) => v@ == vertices@ && vertices@.len() >= 3,
                Err(e) => e == PolygonMapError::NotEnoughVertices && vertices@.len() < 3,
            },
    {
        if vertices.len() < 3 {
            Err(PolygonMapError::NotEnoughVertices)
        } else {
            Ok(vertices)
        }
    }

    pub fn vertices(&self) -> (r: &Vec<RealWorldLocation>)
        ensures
            r@ == self.spec_vertices(),
    {
        &self.vertices
    }
}

/// Views of a vector of grid-relative points.
pub open spec fn pts_view(s: Seq<(Real, Real)>) -> Seq<(Rat, Rat)> {
    Seq::new(s.len(), |i: int| (s[i].0@, s[i].1@))
}

proof fn lemma_cmp_fits(a: Rat, b: Rat)
    by (nonlinear_arith)
    requires
        iabs(a.num) <= 0x400_0000_0000,
        0 < a.den <= 0x40000,
        iabs(b.num) <= 0x400_0000_0000,
        0 < b.den <= 0x40000,
    ensures
        iabs(a.num) * b.den <= i128::MAX,
        iabs(b.num) * a.den <= i128::MAX,
{
}

/// A coordinate fit for the membership comparisons: a grid-relative
/// vertex coordinate or a cell-center coordinate.
pub open spec fn cmp_sized(r: Rat) -> bool {
    iabs(r.num) <= 0x400_0000_0000 && 0 < r.den <= 0x40000 && r.num > i128::MIN
}

fn le_c(a: &Real, b: &Real) -> (r: bool)
    requires
        cmp_sized(a@),
        cmp_sized(b@),
    ensures
        r == rat_le(a@, b@),
{
    proof {
        lemma_cmp_fits(a@, b@);
    }
    a.le(b)
}

fn lt_c(a: &Real, b: &Real) -> (r: bool)
    requires
        cmp_sized(a@),
        cmp_sized(b@),
    ensures
        r == rat_lt(a@, b@),
{
    proof {
        lemma_cmp_fits(a@, b@);
    }
    a.lt(b)
}

/// The denominator-cleared orientation of `p` against the edge
/// `a -> b`, computed exactly.
fn orient_val(ax: &Real, ay: &Real, bx: &Real, by: &Real, px: &Real, py: &Real) -> (v: i128)
    requires
        ivc_sized(ax@) && ivc_sized(ay@) && ivc_sized(bx@) && ivc_sized(by@),
        ctr_sized(px@) && ctr_sized(py@),
    ensures
        v as int == orient_num(ax@, ay@, bx@, by@, px@, py@),
{
    proof {
        lemma_mul_abs_bound(bx@.num, ax@.den, 0x200_0000, 0x40000);
        lemma_mul_abs_bound(ax@.num, bx@.den, 0x200_0000, 0x40000);
        lemma_mul_abs_bound(py@.num, ay@.den, 0x400_0000, 0x40000);
        lemma_mul_abs_bound(ay@.num, py@.den, 0x200_0000, 2);
        lemma_mul_abs_bound(by@.den, px@.den, 0x40000, 2);
        lemma_mul_abs_bound(by@.num, ay@.den, 0x200_0000, 0x40000);
        lemma_mul_abs_bound(ay@.num, by@.den, 0x200_0000, 0x40000);
        lemma_mul_abs_bound(px@.num, ax@.den, 0x400_0000, 0x40000);
        lemma_mul_abs_bound(ax@.num, px@.den, 0x200_0000, 2);
        lemma_mul_abs_bound(bx@.den, py@.den, 0x40000, 2);
    }
    let t1: i128 = bx.num() * ax.den() - ax.num() * bx.den();
    let t2: i128 = py.num() * ay.den() - ay.num() * py.den();
    let t3: i128 = by.den() * px.den();
    let u1: i128 = by.num() * ay.den() - ay.num() * by.den();
    let u2: i128 = px.num() * ax.den() - ax.num() * px.den();
    let u3: i128 = bx.den() * py.den();
    proof {
        lemma_mul_abs_bound(t1 as int, t2 as int, 0x1000_0000_0000, 0x2000_0000_0000);
        lemma_mul_abs_bound(
            t1 as int * t2 as int,
            t3 as int,
            0x200_0000_0000_0000_0000_0000,
            0x80000,
        );
        lemma_mul_abs_bound(u1 as int, u2 as int, 0x1000_0000_0000, 0x2000_0000_0000);
        lemma_mul_abs_bound(
            u1 as int * u2 as int,
            u3 as int,
            0x200_0000_0000_0000_0000_0000,
            0x80000,
        );
    }
    t1 * t2 * t3 - u1 * u2 * u3
}

proof fn lemma_cross_count_bounds(pts: Seq<(Rat, Rat)>, px: Rat, py: Rat, k: int)
    requires
        k >= 0,
    ensures
        0 <= cross_count(pts, px, py, k) <= k,
    decreases k,
{
    if k > 0 {
        lemma_cross_count_bounds(pts, px, py, k - 1);
    }
}

/// Exact membership of the point `(px, py)` in the closed polygon with
/// the given grid-relative vertices.
fn cell_inside(iv: &Vec<(Real, Real)>, px: &Real, py: &Real) -> (r: bool)
    requires
        iv@.len() >= 1,
        forall|i: int|
            0 <= i < iv@.len() ==> ivc_sized((#[trigger] iv@[i]).0@) && ivc_sized(iv@[i].1@),
        ctr_sized(px@),
        ctr_sized(py@),
    ensures
        r == point_in(pts_view(iv@), px@, py@),
{
    let n: usize = iv.len();
    let mut count: u64 = 0;
    let mut on_edge: bool = false;
    let mut i: usize = 0;
    while i < n
        invariant
            i <= n,
            n as int == iv@.len(),
            1 <= n,
            forall|j: int|
                0 <= j < iv@.len() ==> ivc_sized((#[trigger] iv@[j]).0@) && ivc_sized(iv@[j].1@),
            ctr_sized(px@),
            ctr_sized(py@),
            count as int == cross_count(pts_view(iv@), px@, py@, i as int),
            on_edge == any_on(pts_view(iv@), px@, py@, i as int),
        decreases n - i,
    {
        let a = &iv[i];
        let bi: usize = if i + 1 == n {
            0
        } else {
            i + 1
        };
        let b = &iv[bi];
        proof {
            assert(pts_view(iv@)[i as int] == (iv@[i as int].0@, iv@[i as int].1@));
            assert(edge_to(pts_view(iv@), i as int) == (iv@[bi as int].0@, iv@[bi as int].1@));
            lemma_cross_count_bounds(pts_view(iv@), px@, py@, i as int);
        }
        let o: i128 = orient_val(&a.0, &a.1, &b.0, &b.1, px, py);
        let ay_le_py = le_c(&a.1, py);
        let py_lt_by = lt_c(py, &b.1);
        let by_le_py = le_c(&b.1, py);
        let py_lt_ay = lt_c(py, &a.1);
        let crossing: bool = (ay_le_py && py_lt_by && o >= 0) || (by_le_py && py_lt_ay && o <= 0);
        if crossing {
            count = count + 1;
        }
        let x_lo = le_c(&a.0, px) || le_c(&b.0, px);
        let x_hi = le_c(px, &a.0) || le_c(px, &b.0);
        let y_lo = ay_le_py || by_le_py;
        let y_hi = le_c(py, &a.1) || le_c(py, &b.1);
        if o == 0 && x_lo && x_hi && y_lo && y_hi {
            on_edge = true;
        }
        i = i + 1;
    }
    on_edge || count % 2 == 1
}

proof fn lemma_vmin_x_props(verts: Seq<RealWorldLocation>, k: int)
    requires
        1 <= k <= verts.len(),
        poly_sized(verts),
    ensures
        iabs(vmin_x(verts, k).num) <= 0x1000,
        0 < vmin_x(verts, k).den <= 0x40,
        vmin_x(verts, k).num > i128::MIN,
    decreases k,
{
    if k > 1 {
        lemma_vmin_x_props(verts, k - 1);
    }
}

proof fn lemma_vmin_y_props(verts: Seq<RealWorldLocation>, k: int)
    requires
        1 <= k <= verts.len(),
        poly_sized(verts),
    ensures
        iabs(vmin_y(verts, k).num) <= 0x1000,
        0 < vmin_y(verts, k).den <= 0x40,
        vmin_y(verts, k).num > i128::MIN,
    decreases k,
{
    if k > 1 {
        lemma_vmin_y_props(verts, k - 1);
    }
}

proof fn lemma_vmax_x_props(verts: Seq<RealWorldLocation>, k: int)
    requires
        1 <= k <= verts.len(),
        poly_sized(verts),
    ensures
        iabs(vmax_x(verts, k).num) <= 0x1000,
        0 < vmax_x(verts, k).den <= 0x40,
        vmax_x(verts, k).num > i128::MIN,
    decreases k,
{
    if k > 1 {
        lemma_vmax_x_props(verts, k - 1);
    }
}

proof fn lemma_vmax_y_props(verts: Seq<RealWorldLocation>, k: int)
    requires
        1 <= k <= verts.len(),
        poly_sized(verts),
    ensures
        iabs(vmax_y(verts, k).num) <= 0x1000,
        0 < vmax_y(verts, k).den <= 0x40,
        vmax_y(verts, k).num > i128::MIN,
    decreases k,
{
    if k > 1 {
        lemma_vmax_y_props(verts, k - 1);
    }
}

pub(crate) proof fn lemma_rat_le_trans(a: Rat, b: Rat, c: Rat)
    by (nonlinear_arith)
    requires
        rat_le(a, b),
        rat_le(b, c),
        a.den > 0,
        b.den > 0,
        c.den > 0,
    ensures
        rat_le(a, c),
{
}

proof fn lemma_vminmax_x_le(verts: Seq<RealWorldLocation>, k: int)
    requires
        1 <= k <= verts.len(),
        poly_sized(verts),
    ensures
        rat_le(vmin_x(verts, k), verts[0]@.x),
        rat_le(verts[0]@.x, vmax_x(verts, k)),
    decreases k,
{
    lemma_vmin_x_props(verts, k);
    lemma_vmax_x_props(verts, k);
    if k > 1 {
        lemma_vminmax_x_le(verts, k - 1);
        lemma_vmin_x_props(verts, k - 1);
        lemma_vmax_x_props(verts, k - 1);
        if !rat_le(vmin_x(verts, k - 1), verts[k - 1]@.x) {
            lemma_rat_le_trans(verts[k - 1]@.x, vmin_x(verts, k - 1), verts[0]@.x);
        }
        if !rat_le(verts[k - 1]@.x, vmax_x(verts, k - 1)) {
            lemma_rat_le_trans(verts[0]@.x, vmax_x(verts, k - 1), verts[k - 1]@.x);
        }
    }
}

proof fn lemma_vminmax_y_le(verts: Seq<RealWorldLocation>, k: int)
    requires
        1 <= k <= verts.len(),
        poly_sized(verts),
    ensures
        rat_le(vmin_y(verts, k), verts[0]@.y),
        rat_le(verts[0]@.y, vmax_y(verts, k)),
    decreases k,
{
    lemma_vmin_y_props(verts, k);
    lemma_vmax_y_props(verts, k);
    if k > 1 {
        lemma_vminmax_y_le(verts, k - 1);
        lemma_vmin_y_props(verts, k - 1);
        lemma_vmax_y_props(verts, k - 1);
        if !rat_le(vmin_y(verts, k - 1), verts[k - 1]@.y) {
            lemma_rat_le_trans(verts[k - 1]@.y, vmin_y(verts, k - 1), verts[0]@.y);
        }
        if !rat_le(verts[k - 1]@.y, vmax_y(verts, k - 1)) {
            lemma_rat_le_trans(verts[0]@.y, vmax_y(verts, k - 1), verts[k - 1]@.y);
        }
    }
}

proof fn lemma_fold_fits(a: Rat, b: Rat)
    by (nonlinear_arith)
    requires
        iabs(a.num) <= 0x1000,
        0 < a.den <= 0x40,
        iabs(b.num) <= 0x1000,
        0 < b.den <= 0x40,
    ensures
        iabs(a.num) * b.den <= i128::MAX,
        iabs(b.num) * a.den <= i128::MAX,
        iabs(a.num) * b.den + iabs(b.num) * a.den <= i128::MAX,
        a.den * b.den <= i128::MAX,
{
}

proof fn lemma_poly_dim_fits(mn: Rat, mx: Rat, w: Rat, r: Rat)
    by (nonlinear_arith)
    requires
        iabs(mn.num) <= 0x1000,
        0 < mn.den <= 0x40,
        iabs(mx.num) <= 0x1000,
        0 < mx.den <= 0x40,
        iabs(w.num) <= iabs(mx.num) * mn.den + iabs(mn.num) * mx.den,
        0 < w.den <= mx.den * mn.den,
        iabs(r.num) <= 0x40,
        0 < r.den <= 0x40,
    ensures
        iabs(w.num) * iabs(r.num) <= i128::MAX,
        w.den * r.den <= i128::MAX,
{
}

/// Floor of the scaled bounding-box extent: nonnegative, and no larger
/// than the numerator bound of the product.
proof fn lemma_poly_dim_props(verts: Seq<RealWorldLocation>, res: AxisResolution)
    requires
        verts.len() >= 1,
        poly_sized(verts),
        poly_res_sized(res),
    ensures
        0 <= poly_cols(verts, res) <= 0x80000,
        0 <= poly_rows(verts, res) <= 0x80000,
{
    let n = verts.len() as int;
    lemma_vmin_x_props(verts, n);
    lemma_vmax_x_props(verts, n);
    lemma_vmin_y_props(verts, n);
    lemma_vmax_y_props(verts, n);
    lemma_vminmax_x_le(verts, n);
    lemma_vminmax_y_le(verts, n);
    lemma_rat_le_trans(vmin_x(verts, n), verts[0]@.x, vmax_x(verts, n));
    lemma_rat_le_trans(vmin_y(verts, n), verts[0]@.y, vmax_y(verts, n));
    lemma_dim_floor(vmin_x(verts, n), vmax_x(verts, n), res@.x);
    lemma_dim_floor(vmin_y(verts, n), vmax_y(verts, n), res@.y);
}

proof fn lemma_dim_floor(mn: Rat, mx: Rat, r: Rat)
    requires
        rat_le(mn, mx),
        iabs(mn.num) <= 0x1000,
        0 < mn.den <= 0x40,
        iabs(mx.num) <= 0x1000,
        0 < mx.den <= 0x40,
        iabs(r.num) <= 0x40,
        0 < r.den <= 0x40,
        r.num > 0,
    ensures
        0 <= rat_floor(rat_mul(rat_sub(mx, mn), r)) <= 0x80000,
{
    let w = rat_sub(mx, mn);
    let m = rat_mul(w, r);
    assert(0 <= w.num && 0 < w.den && 0 <= m.num && 0 < m.den && m.num <= 0x80000 * m.den)
        by (nonlinear_arith)
        requires
            rat_le(mn, mx),
            iabs(mn.num) <= 0x1000,
            0 < mn.den <= 0x40,
            iabs(mx.num) <= 0x1000,
            0 < mx.den <= 0x40,
            iabs(r.num) <= 0x40,
            0 < r.den <= 0x40,
            r.num > 0,
            w == rat_sub(mx, mn),
            m == rat_mul(w, r),
    ;
    vstd::arithmetic::div_mod::lemma_div_pos_is_pos(m.num, m.den);
    vstd::arithmetic::div_mod::lemma_div_is_ordered(m.num, 0x80000 * m.den, m.den);
    vstd::arithmetic::div_mod::lemma_div_by_multiple(0x80000, m.den);
}

/// One coordinate of a vertex carried into the grid-relative frame,
/// stored with exactly the components of the mathematical definition.
fn internal_coord(v: &Real, o: &Real, res: &Real) -> (r: Real)
    requires
        v.sized(0x1000, 0x40),
        o.sized(0x1000, 0x40),
        res.sized(0x40, 0x40),
    ensures
        r@ == rat_mul(rat_sub(v@, o@), res@),
        ivc_sized(r@),
        r.wf(),
{
    proof {
        lemma_mul_abs_bound(v@.num, o@.den, 0x1000, 0x40);
        lemma_mul_abs_bound(o@.num, v@.den, 0x1000, 0x40);
        lemma_mul_abs_bound(v@.num * o@.den - o@.num * v@.den, res@.num, 0x80000, 0x40);
        lemma_mul_abs_bound(v@.den, o@.den, 0x40, 0x40);
        lemma_mul_pos(v@.den, o@.den);
        lemma_mul_pos(v@.den * o@.den, res@.den);
        lemma_mul_abs_bound(v@.den * o@.den, res@.den, 0x1000, 0x40);
    }
    let n: i128 = (v.num() * o.den() - o.num() * v.den()) * res.num();
    let d: i128 = v.den() * o.den() * res.den();
    Real::from_parts(n, d)
}

proof fn lemma_stamp_geom(a: &CellMap, b: &CellMap, cells: Seq<MapState>, p: RatCoords, label: MapState)
    requires
        crate::local_map::same_geometry(a, b),
    ensures
        stamp_cells(a, cells, p, label) == stamp_cells(b, cells, p, label),
{
    crate::local_map::lemma_same_geometry_index(a, b, p);
}

proof fn lemma_overlay_upto_geom(
    a: &CellMap,
    b: &CellMap,
    cells: Seq<MapState>,
    everts: Seq<RealWorldLocation>,
    res: AxisResolution,
    k: int,
)
    requires
        crate::local_map::same_geometry(a, b),
    ensures
        overlay_upto(a, cells, everts, res, k) == overlay_upto(b, cells, everts, res, k),
    decreases k,
{
    if k > 0 {
        lemma_overlay_upto_geom(a, b, cells, everts, res, k - 1);
        lemma_stamp_geom(
            a,
            b,
            overlay_upto(a, cells, everts, res, k - 1),
            ecorner(everts, res, k - 1),
            MapState::Explored,
        );
    }
}

proof fn lemma_overlay_all_geom(
    a: &CellMap,
    b: &CellMap,
    cells: Seq<MapState>,
    explored: Seq<Seq<RealWorldLocation>>,
    res: AxisResolution,
    k: int,
)
    requires
        crate::local_map::same_geometry(a, b),
    ensures
        overlay_all(a, cells, explored, res, k) == overlay_all(b, cells, explored, res, k),
    decreases k,
{
    if k > 0 {
        lemma_overlay_all_geom(a, b, cells, explored, res, k - 1);
        lemma_overlay_upto_geom(
            a,
            b,
            overlay_all(b, cells, explored, res, k - 1),
            explored[k - 1],
            res,
            (poly_rows(explored[k - 1], res) * poly_cols(explored[k - 1], res)) as int,
        );
    }
}

/// Value-equal points land in the same grid cell.
proof fn lemma_index_congruent(geom: &CellMap, p1: RatCoords, p2: RatCoords)
    requires
        geom.wf(),
        rat_coords_eq(p1, p2),
        p1.x.den > 0 && p1.y.den > 0 && p1.z.den > 0,
        p2.x.den > 0 && p2.y.den > 0 && p2.z.den > 0,
    ensures
        geom.spec_index_ok(p1) == geom.spec_index_ok(p2),
        geom.spec_row(p1) == geom.spec_row(p2),
        geom.spec_col(p1) == geom.spec_col(p2),
{
    let o = geom.spec_offset()@;
    let r = geom.spec_resolution()@;
    crate::coords::lemma_internal_compat(p1, p2, o, r);
    crate::coords::lemma_internal_dens_pos(p1, o, r);
    crate::coords::lemma_internal_dens_pos(p2, o, r);
    lemma_rat_floor_eq(internal_of(p1, o, r).x, internal_of(p2, o, r).x);
    lemma_rat_floor_eq(internal_of(p1, o, r).y, internal_of(p2, o, r).y);
}

impl PolygonMap {
    /// Rasterize one vertex sequence onto its own grid: booleans in
    /// row-major order (true = the cell center is in the closed
    /// polygon), the grid's rows, columns and real-world offset.
    fn rasterize_polygon(vertices: &Vec<RealWorldLocation>, resolution: &AxisResolution) -> (r: (
        Vec<bool>,
        usize,
        usize,
        Coords,
    ))
        requires
            vertices@.len() >= 1,
            poly_sized(vertices@),
            poly_res_sized(*resolution),
            poly_rows(vertices@, *resolution) * poly_cols(vertices@, *resolution) <= usize::MAX,
        ensures
            r.1 as int == poly_rows(vertices@, *resolution),
            r.2 as int == poly_cols(vertices@, *resolution),
            r.3@ == poly_offset(vertices@),
            coords_wf(r.3),
            coords_sized(r.3),
            r.3.x.sized(0x1000, 0x40) && r.3.y.sized(0x1000, 0x40) && r.3.z.sized(0x1000, 0x40),
            r.0@.len() == poly_rows(vertices@, *resolution) * poly_cols(vertices@, *resolution),
            forall|j: int|
                0 <= j < r.0@.len() ==> r.0@[j] == cell_in(vertices@, *resolution, j),
    {
        let n: usize = vertices.len();
        let mut mnx = vertices[0].x();
        let mut mny = vertices[0].y();
        let mut mxx = vertices[0].x();
        let mut mxy = vertices[0].y();
        let mut i: usize = 1;
        while i < n
            invariant
                1 <= i <= n,
                n as int == vertices@.len(),
                poly_sized(vertices@),
                mnx@ == vmin_x(vertices@, i as int),
                mny@ == vmin_y(vertices@, i as int),
                mxx@ == vmax_x(vertices@, i as int),
                mxy@ == vmax_y(vertices@, i as int),
                mnx.sized(0x1000, 0x40),
                mny.sized(0x1000, 0x40),
                mxx.sized(0x1000, 0x40),
                mxy.sized(0x1000, 0x40),
            decreases n - i,
        {
            let v = &vertices[i];
            proof {
                lemma_fold_fits(mnx@, v@.x);
                lemma_fold_fits(mny@, v@.y);
                lemma_fold_fits(mxx@, v@.x);
                lemma_fold_fits(mxy@, v@.y);
            }
            mnx = mnx.min_val(&v.x());
            mny = mny.min_val(&v.y());
            mxx = mxx.max_val(&v.x());
            mxy = mxy.max_val(&v.y());
            i = i + 1;
        }
        proof {
            lemma_vmin_x_props(vertices@, n as int);
            lemma_vmin_y_props(vertices@, n as int);
            lemma_vmax_x_props(vertices@, n as int);
            lemma_vmax_y_props(vertices@, n as int);
            lemma_vminmax_x_le(vertices@, n as int);
            lemma_vminmax_y_le(vertices@, n as int);
            lemma_rat_le_trans(mnx@, vertices@[0]@.x, mxx@);
            lemma_rat_le_trans(mny@, vertices@[0]@.y, mxy@);
            lemma_fold_fits(mxx@, mnx@);
            lemma_fold_fits(mxy@, mny@);
        }
        let wx = mxx.sub(&mnx);
        let wy = mxy.sub(&mny);
        proof {
            lemma_poly_dim_fits(mnx@, mxx@, wx@, resolution@.x);
            lemma_poly_dim_fits(mny@, mxy@, wy@, resolution@.y);
        }
        let crx = wx.mul(&resolution.x);
        let cry = wy.mul(&resolution.y);
        proof {
            lemma_mul_pos(mxx@.den, mnx@.den);
            lemma_mul_pos(mxx@.den * mnx@.den, resolution@.x.den);
            lemma_mul_pos(wx@.den, resolution@.x.den);
            lemma_mul_compat_left_pub(wx@, rat_sub(mxx@, mnx@), resolution@.x);
            lemma_rat_eq_trans_pub(
                crx@,
                rat_mul(wx@, resolution@.x),
                rat_mul(rat_sub(mxx@, mnx@), resolution@.x),
            );
            lemma_rat_floor_eq(crx@, rat_mul(rat_sub(mxx@, mnx@), resolution@.x));
            lemma_mul_pos(mxy@.den, mny@.den);
            lemma_mul_pos(mxy@.den * mny@.den, resolution@.y.den);
            lemma_mul_pos(wy@.den, resolution@.y.den);
            lemma_mul_compat_left_pub(wy@, rat_sub(mxy@, mny@), resolution@.y);
            lemma_rat_eq_trans_pub(
                cry@,
                rat_mul(wy@, resolution@.y),
                rat_mul(rat_sub(mxy@, mny@), resolution@.y),
            );
            lemma_rat_floor_eq(cry@, rat_mul(rat_sub(mxy@, mny@), resolution@.y));
            lemma_poly_dim_props(vertices@, *resolution);
        }
        let cols_i: i128 = crx.floor_int();
        let rows_i: i128 = cry.floor_int();
        let ncols: usize = cols_i as usize;
        let nrows: usize = rows_i as usize;
        let offset = Coords { x: mnx, y: mny, z: Real::from_int(0) };
        let mut iv: Vec<(Real, Real)> = Vec::new();
        let mut vi: usize = 0;
        while vi < n
            invariant
                vi <= n,
                n as int == vertices@.len(),
                poly_sized(vertices@),
                poly_res_sized(*resolution),
                mnx@ == poly_offset(vertices@).x,
                mny@ == poly_offset(vertices@).y,
                mnx.sized(0x1000, 0x40),
                mny.sized(0x1000, 0x40),
                iv@.len() == vi as int,
                forall|j: int|
                    0 <= j < vi as int ==> (#[trigger] iv@[j]).0@ == internal_of(
                        vertices@[j]@,
                        poly_offset(vertices@),
                        resolution@,
                    ).x && iv@[j].1@ == internal_of(
                        vertices@[j]@,
                        poly_offset(vertices@),
                        resolution@,
                    ).y && ivc_sized(iv@[j].0@) && ivc_sized(iv@[j].1@),
            decreases n - vi,
        {
            let v = &vertices[vi];
            let ix = internal_coord(&v.x(), &mnx, &resolution.x);
            let iy = internal_coord(&v.y(), &mny, &resolution.y);
            iv.push((ix, iy));
            vi = vi + 1;
        }
        let mut bools: Vec<bool> = Vec::new();
        let total: usize = nrows * ncols;
        let mut k: usize = 0;
        while k < total
            invariant
                k <= total,
                n as int == vertices@.len(),
                1 <= n,
                poly_sized(vertices@),
                poly_res_sized(*resolution),
                ncols as int == poly_cols(vertices@, *resolution),
                nrows as int == poly_rows(vertices@, *resolution),
                0 <= ncols as int <= 0x80000,
                0 <= nrows as int <= 0x80000,
                total as int == nrows as int * ncols as int,
                iv@.len() == n as int,
                forall|j: int|
                    0 <= j < n as int ==> (#[trigger] iv@[j]).0@ == internal_of(
                        vertices@[j]@,
                        poly_offset(vertices@),
                        resolution@,
                    ).x && iv@[j].1@ == internal_of(
                        vertices@[j]@,
                        poly_offset(vertices@),
                        resolution@,
                    ).y && ivc_sized(iv@[j].0@) && ivc_sized(iv@[j].1@),
                bools@.len() == k as int,
                forall|j: int|
                    0 <= j < k as int ==> bools@[j] == cell_in(vertices@, *resolution, j),
            decreases total - k,
        {
            proof {
                crate::cell_map::lemma_product_pos(nrows as int, ncols as int, k as int);
                assert(ncols as int * nrows as int == nrows as int * ncols as int)
                    by (nonlinear_arith);
                vstd::arithmetic::div_mod::lemma_multiply_divide_lt(
                    k as int,
                    ncols as int,
                    nrows as int,
                );
            }
            let col: usize = k % ncols;
            let row: usize = k / ncols;
            let px = Real::from_parts(2 * (col as i128) + 1, 2);
            let py = Real::from_parts(2 * (row as i128) + 1, 2);
            proof {
                assert(px@ == center_x(k as int, poly_cols(vertices@, *resolution)));
                assert(py@ == center_y(k as int, poly_cols(vertices@, *resolution)));
                assert(pts_view(iv@) =~= iv_spec(vertices@, *resolution));
            }
            let b = cell_inside(&iv, &px, &py);
            bools.push(b);
            k = k + 1;
        }
        (bools, nrows, ncols, offset)
    }

    /// Rasterize the polygon into a grid.
    ///
    /// The grid is anchored at the polygon's bounding-box minimum,
    /// spans the bounding box at the given resolution (fractional cells
    /// truncated), and labels each cell `Unexplored` when its center is
    /// in the closed polygon and `OutOfMap` otherwise. Each explored
    /// sub-polygon is then rasterized the same way on its own grid; its
    /// inside cells are carried back to real-world coordinates, and each
    /// one that falls inside the main grid is overwritten to `Explored`,
    /// while the ones outside are silently dropped.
    pub fn to_cell_map(self, resolution: AxisResolution) -> (r: CellMap)
        requires
            self.wf(),
            poly_sized(self.spec_vertices()),
            forall|e: int|
                0 <= e < self.spec_explored().len() ==> poly_sized(
                    #[trigger] self.spec_explored()[e],
                ),
            poly_res_sized(resolution),
            poly_rows(self.spec_vertices(), resolution) * poly_cols(self.spec_vertices(), resolution)
                <= usize::MAX,
            forall|e: int|
                0 <= e < self.spec_explored().len() ==> poly_rows(
                    #[trigger] self.spec_explored()[e],
                    resolution,
                ) * poly_cols(self.spec_explored()[e], resolution) <= usize::MAX,
        ensures
            r.wf(),
            r.spec_nrows() == poly_rows(self.spec_vertices(), resolution),
            r.spec_ncols() == poly_cols(self.spec_vertices(), resolution),
            r.spec_offset()@ == poly_offset(self.spec_vertices()),
            r.spec_resolution() == resolution,
            r.spec_cells() == overlay_all(
                &r,
                base_cells(self.spec_vertices(), resolution),
                self.spec_explored(),
                resolution,
                self.spec_explored().len() as int,
            ),
    {
        let (bools, nrows, ncols, offset) = Self::rasterize_polygon(&self.vertices, &resolution);
        proof {
            lemma_poly_dim_props(self.spec_vertices(), resolution);
            assert(nrows as int * ncols as int <= 0x80000 * 0x80000) by (nonlinear_arith)
                requires
                    0 <= nrows as int <= 0x80000,
                    0 <= ncols as int <= 0x80000,
            ;
        }
        let bn: usize = bools.len();
        let mut cells: Vec<MapState> = Vec::new();
        let mut j: usize = 0;
        while j < bn
            invariant
                j <= bn,
                bn as int == bools@.len(),
                bools@.len() == poly_rows(self.spec_vertices(), resolution) * poly_cols(
                    self.spec_vertices(),
                    resolution,
                ),
                forall|m: int|
                    0 <= m < bn as int ==> bools@[m] == cell_in(
                        self.spec_vertices(),
                        resolution,
                        m,
                    ),
                cells@.len() == j as int,
                forall|m: int|
                    0 <= m < j as int ==> cells@[m] == base_cells(
                        self.spec_vertices(),
                        resolution,
                    )[m],
            decreases bn - j,
        {
            if bools[j] {
                cells.push(MapState::Unexplored);
            } else {
                cells.push(MapState::OutOfMap);
            }
            j = j + 1;
        }
        proof {
            assert(cells@ =~= base_cells(self.spec_vertices(), resolution));
        }
        let mut cellmap = CellMap::from_raster(cells, nrows, ncols, resolution, offset);
        let ghost gm0 = cellmap;
        let ghost bc = base_cells(self.spec_vertices(), resolution);
        match &self.explored {
            Some(list) => {
                let en: usize = list.len();
                let mut e_i: usize = 0;
                while e_i < en
                    invariant
                        e_i <= en,
                        self.explored == Some(*list),
                        en as int == self.spec_explored().len(),
                        self.wf(),
                        forall|e: int|
                            0 <= e < self.spec_explored().len() ==> poly_sized(
                                #[trigger] self.spec_explored()[e],
                            ),
                        forall|e: int|
                            0 <= e < self.spec_explored().len() ==> poly_rows(
                                #[trigger] self.spec_explored()[e],
                                resolution,
                            ) * poly_cols(self.spec_explored()[e], resolution) <= usize::MAX,
                        poly_res_sized(resolution),
                        cellmap.wf(),
                        crate::local_map::same_geometry(&cellmap, &gm0),
                        gm0.wf(),
                        cellmap.spec_cells() == overlay_all(
                            &gm0,
                            bc,
                            self.spec_explored(),
                            resolution,
                            e_i as int,
                        ),
                    decreases en - e_i,
                {
                    let ep = &list[e_i];
                    proof {
                        assert(self.spec_explored()[e_i as int] == ep@);
                        assert(poly_sized(ep@));
                        assert(ep@.len() >= 3);
                        assert(poly_rows(ep@, resolution) * poly_cols(ep@, resolution)
                            <= usize::MAX);
                    }
                    let (eb, erows, ecols, eoffset) = Self::rasterize_polygon(ep, &resolution);
                    let ghost ev = ep@;
                    let ghost entry_cells = cellmap.spec_cells();
                    proof {
                        lemma_poly_dim_props(ev, resolution);
                    }
                    let etotal: usize = eb.len();
                    let mut k: usize = 0;
                    while k < etotal
                        invariant
                            k <= etotal,
                            etotal as int == eb@.len(),
                            eb@.len() == poly_rows(ev, resolution) * poly_cols(ev, resolution),
                            forall|m: int|
                                0 <= m < etotal as int ==> eb@[m] == cell_in(ev, resolution, m),
                            ecols as int == poly_cols(ev, resolution),
                            erows as int == poly_rows(ev, resolution),
                            0 <= ecols as int <= 0x80000,
                            0 <= erows as int <= 0x80000,
                            eoffset@ == poly_offset(ev),
                            coords_wf(eoffset),
                            coords_sized(eoffset),
                            eoffset.x.sized(0x1000, 0x40) && eoffset.y.sized(0x1000, 0x40)
                                && eoffset.z.sized(0x1000, 0x40),
                            poly_res_sized(resolution),
                            cellmap.wf(),
                            crate::local_map::same_geometry(&cellmap, &gm0),
                            gm0.wf(),
                            cellmap.spec_cells() == overlay_upto(
                                &gm0,
                                entry_cells,
                                ev,
                                resolution,
                                k as int,
                            ),
                        decreases etotal - k,
                    {
                        if *vec_bool_get(&eb, k) {
                            proof {
                                crate::cell_map::lemma_product_pos(
                                    erows as int,
                                    ecols as int,
                                    k as int,
                                );
                                assert(ecols as int * erows as int == erows as int * ecols as int)
                                    by (nonlinear_arith);
                                vstd::arithmetic::div_mod::lemma_multiply_divide_lt(
                                    k as int,
                                    ecols as int,
                                    erows as int,
                                );
                            }
                            let col: usize = k % ecols;
                            let row: usize = k / ecols;
                            let corner_il = InternalLocation::new(
                                Coords {
                                    x: Real::from_int(col as i128),
                                    y: Real::from_int(row as i128),
                                    z: Real::from_int(0),
                                },
                                eoffset,
                                resolution,
                            );
                            let corner = corner_il.into_real_world();
                            proof {
                                lemma_corner_sized(
                                    corner_il.location()@,
                                    eoffset@,
                                    resolution@,
                                    corner@,
                                );
                                crate::coords::lemma_world_dens_pos(
                                    corner_il.location()@,
                                    eoffset@,
                                    resolution@,
                                );
                                lemma_index_congruent(
                                    &gm0,
                                    corner@,
                                    ecorner(ev, resolution, k as int),
                                );
                                crate::local_map::lemma_same_geometry_index(
                                    &cellmap,
                                    &gm0,
                                    corner@,
                                );
                            }
                            let ghost pre = cellmap;
                            match cellmap.set_location(&corner, MapState::Explored) {
                                Ok(_) => {},
                                Err(_) => {},
                            }
                            proof {
                                crate::local_map::lemma_same_geometry_index(
                                    &pre,
                                    &gm0,
                                    corner@,
                                );
                            }
                        }
                        k = k + 1;
                    }
                    e_i = e_i + 1;
                }
            },
            None => {},
        }
        proof {
            lemma_overlay_all_geom(
                &cellmap,
                &gm0,
                bc,
                self.spec_explored(),
                resolution,
                self.spec_explored().len() as int,
            );
        }
        cellmap
    }
}

/// The real-world corner reconstructed from an explored grid cell fits
/// the coordinate bounds of the grid interface.
proof fn lemma_corner_sized(i: RatCoords, o: RatCoords, r: RatCoords, w: RatCoords)
    by (nonlinear_arith)
    requires
        0 <= i.x.num <= 0x80000 && i.x.den == 1,
        0 <= i.y.num <= 0x80000 && i.y.den == 1,
        i.z.num == 0 && i.z.den == 1,
        iabs(o.x.num) <= 0x1000 && 0 < o.x.den <= 0x40,
        iabs(o.y.num) <= 0x1000 && 0 < o.y.den <= 0x40,
        iabs(o.z.num) <= 0x1000 && 0 < o.z.den <= 0x40,
        0 < r.x.num <= 0x40 && 0 < r.x.den <= 0x40,
        0 < r.y.num <= 0x40 && 0 < r.y.den <= 0x40,
        iabs(w.x.num) <= (iabs(i.x.num) * r.x.den) * o.x.den + iabs(o.x.num) * (i.x.den
            * r.x.num),
        0 < w.x.den <= (i.x.den * r.x.num) * o.x.den,
        iabs(w.y.num) <= (iabs(i.y.num) * r.y.den) * o.y.den + iabs(o.y.num) * (i.y.den
            * r.y.num),
        0 < w.y.den <= (i.y.den * r.y.num) * o.y.den,
        iabs(w.z.num) <= iabs(i.z.num) * o.z.den + iabs(o.z.num) * i.z.den,
        0 < w.z.den <= i.z.den * o.z.den,
        w.x.num > i128::MIN && w.y.num > i128::MIN && w.z.num > i128::MIN,
    ensures
        iabs(w.x.num) <= 0x1_0000_0000 && w.x.den <= 0x1_0000,
        iabs(w.y.num) <= 0x1_0000_0000 && w.y.den <= 0x1_0000,
        iabs(w.z.num) <= 0x1_0000_0000 && w.z.den <= 0x1_0000,
{
}

fn vec_bool_get(v: &Vec<bool>, i: usize) -> (r: &bool)
    requires
        i < v@.len(),
    ensures
        *r == v@[i as int],
{
    &v[i]
}

} // verus!
