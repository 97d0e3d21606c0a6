//! The local map: one grid owned exclusively, one designated robot
//! position, and the positions of the other robots, all recorded at
//! construction.

use crate::cell_map::CellMap;
use crate::coords::{coords_sized, coords_wf, Coords, RatCoords, RealWorldLocation};
use crate::rat::{iabs, lemma_mul_abs_bound, rat_floor, rat_from_int, rat_le, rat_mul, rat_sub, Rat, Real};
use crate::{LocationError, MapState, PartitionError};
use vstd::prelude::*;

verus! {

broadcast use crate::coords::lemma_rwl_view;

/// A robot's position together with caller-chosen parameters.
#[derive(Debug)]
pub struct Robot<P> {
    location: RealWorldLocation,
    parameters: P,
}

impl<P> Robot<P> {
    /// The position, for use in specifications.
    pub closed spec fn spec_location(&self) -> RealWorldLocation {
        self.location
    }

    /// The parameters, for use in specifications.
    pub closed spec fn spec_parameters(&self) -> P {
        self.parameters
    }

    pub fn new(location: RealWorldLocation, parameters: P) -> (r: Robot<P>)
        ensures
            r.spec_location() == location,
            r.spec_parameters() == parameters,
    {
        Robot { location, parameters }
    }

    pub fn location(&self) -> (r: &RealWorldLocation)
        ensures
            *r == self.spec_location(),
    {
        &self.location
    }

    pub fn parameters(&self) -> (r: &P)
        ensures
            *r == self.spec_parameters(),
    {
        &self.parameters
    }
}

/// Stamp one label into a label array: overwrite the cell the point
/// falls into, or leave the array unchanged when the point is out of the
/// grid. `geom` supplies the grid geometry only.
pub open spec fn stamp_cells(
    geom: &CellMap,
    cells: Seq<MapState>,
    p: RatCoords,
    label: MapState,
) -> Seq<MapState> {
    if geom.spec_index_ok(p) {
        cells.update(geom.spec_row(p) * geom.spec_ncols() + geom.spec_col(p), label)
    } else {
        cells
    }
}

/// Stamp the first `k` robot positions, in order.
pub open spec fn stamp_positions(
    geom: &CellMap,
    cells: Seq<MapState>,
    positions: Seq<RatCoords>,
    k: int,
    label: MapState,
) -> Seq<MapState>
    decreases k,
{
    if k <= 0 {
        cells
    } else {
        stamp_cells(geom, stamp_positions(geom, cells, positions, k - 1, label), positions[k - 1], label)
    }
}

/// A grid plus the robot positions recorded on it.
#[derive(Debug)]
pub struct LocalMap<P> {
    map: CellMap,
    my_robot: Robot<P>,
    other_robots: Vec<Robot<P>>,
}

/// The two grids agree on everything but the cell labels.
pub open spec fn same_geometry(a: &CellMap, b: &CellMap) -> bool {
    a.spec_nrows() == b.spec_nrows() && a.spec_ncols() == b.spec_ncols() && a.spec_offset()
        == b.spec_offset() && a.spec_resolution() == b.spec_resolution()
}

impl<P> LocalMap<P> {
    /// The grid, for use in specifications.
    pub closed spec fn spec_map(&self) -> CellMap {
        self.map
    }

    /// The designated robot, for use in specifications.
    pub closed spec fn spec_my_robot(&self) -> Robot<P> {
        self.my_robot
    }

    /// The other robots, for use in specifications.
    pub closed spec fn spec_other_robots(&self) -> Seq<Robot<P>> {
        self.other_robots@
    }

    /// Positions of a robot sequence, as mathematical values.
    pub open spec fn positions_of(robots: Seq<Robot<P>>) -> Seq<RatCoords> {
        robots.map_values(|r: Robot<P>| r.spec_location()@)
    }

    /// Every robot's position satisfies the coordinate bounds.
    pub open spec fn robots_sized(robots: Seq<Robot<P>>) -> bool {
        forall|i: int|
            0 <= i < robots.len() ==> coords_wf(
                (#[trigger] robots[i]).spec_location().location(),
            ) && coords_sized(robots[i].spec_location().location())
    }

    /// Create a local map that rejects out-of-map robots.
    ///
    /// The designated robot is stamped `MyRobot`, then every other robot
    /// is stamped `OtherRobot`, in order. The first position that falls
    /// outside the grid aborts the construction and is reported with the
    /// error; positions listed before it have already been stamped into
    /// the (discarded) grid, and later ones are untouched.
    pub fn new_noexpand(map: CellMap, my_robot: Robot<P>, other_robots: Vec<Robot<P>>) -> (r:
        Result<LocalMap<P>, (LocationError, RealWorldLocation)>)
        requires
            map.wf(),
            coords_wf(my_robot.spec_location().location()),
            coords_sized(my_robot.spec_location().location()),
            Self::robots_sized(other_robots@),
        ensures
            match r {
                Ok(lm) => map.spec_index_ok(my_robot.spec_location()@) && (forall|i: int|
                    0 <= i < other_robots@.len() ==> map.spec_index_ok(
                        (#[trigger] other_robots@[i]).spec_location()@,
                    )) && lm.spec_map().wf() && same_geometry(&lm.spec_map(), &map)
                    && lm.spec_map().spec_cells() == stamp_positions(
                    &map,
                    stamp_cells(
                        &map,
                        map.spec_cells(),
                        my_robot.spec_location()@,
                        MapState::MyRobot,
                    ),
                    Self::positions_of(other_robots@),
                    other_robots@.len() as int,
                    MapState::OtherRobot,
                ) && lm.spec_my_robot() == my_robot && lm.spec_other_robots() == other_robots@,
                Err((e, pos)) => e == LocationError::OutOfMap && ((!map.spec_index_ok(
                    my_robot.spec_location()@,
                ) && pos == my_robot.spec_location()) || (map.spec_index_ok(
                    my_robot.spec_location()@,
                ) && exists|i: int|
                    0 <= i < other_robots@.len() && !map.spec_index_ok(
                        (#[trigger] other_robots@[i]).spec_location()@,
                    ) && (forall|j: int|
                        0 <= j < i ==> map.spec_index_ok(
                            (#[trigger] other_robots@[j]).spec_location()@,
                        )) && pos == other_robots@[i].spec_location())),
            },
    {
        let mut grid = map;
        let ghost m0 = map;
        match grid.set_location(my_robot.location(), MapState::MyRobot) {
            Ok(_) => {},
            Err(location_error) => {
                return Err((location_error, *my_robot.location()));
            },
        }
        let ghost base = stamp_cells(
            &m0,
            m0.spec_cells(),
            my_robot.spec_location()@,
            MapState::MyRobot,
        );
        let n: usize = other_robots.len();
        let mut i: usize = 0;
        while i < n
            invariant
                i <= n,
                n as int == other_robots@.len(),
                grid.wf(),
                same_geometry(&grid, &m0),
                m0.wf(),
                m0 == map,
                m0.spec_index_ok(my_robot.spec_location()@),
                coords_wf(my_robot.spec_location().location()),
                coords_sized(my_robot.spec_location().location()),
                Self::robots_sized(other_robots@),
                base == stamp_cells(
                    &m0,
                    m0.spec_cells(),
                    my_robot.spec_location()@,
                    MapState::MyRobot,
                ),
                grid.spec_cells() == stamp_positions(
                    &m0,
                    base,
                    Self::positions_of(other_robots@),
                    i as int,
                    MapState::OtherRobot,
                ),
                forall|j: int|
                    0 <= j < i as int ==> m0.spec_index_ok(
                        (#[trigger] other_robots@[j]).spec_location()@,
                    ),
            decreases n - i,
        {
            let robot = &other_robots[i];
            proof {
                lemma_same_geometry_index(&grid, &m0, robot.spec_location()@);
            }
            match grid.set_location(robot.location(), MapState::OtherRobot) {
                Ok(_) => {},
                Err(location_error) => {
                    proof {
                        let wi = i as int;
                        assert(0 <= wi < other_robots@.len() && !m0.spec_index_ok(
                            (other_robots@[wi]).spec_location()@,
                        ) && (forall|j: int|
                            0 <= j < wi ==> m0.spec_index_ok(
                                (#[trigger] other_robots@[j]).spec_location()@,
                            )));
                    }
                    return Err((location_error, *robot.location()));
                },
            }
            i = i + 1;
        }
        Ok(LocalMap { map: grid, my_robot, other_robots })
    }

    /// Create a local map that tolerates out-of-map robots.
    ///
    /// As `new_noexpand`, except that a position outside the grid is
    /// silently skipped: the robot is still recorded, but no cell is
    /// marked for it. Construction always succeeds.
    pub fn new_noexpand_nooutofmap(
        map: CellMap,
        my_robot: Robot<P>,
        other_robots: Vec<Robot<P>>,
    ) -> (r: Result<LocalMap<P>, (LocationError, RealWorldLocation)>)
        requires
            map.wf(),
            coords_wf(my_robot.spec_location().location()),
            coords_sized(my_robot.spec_location().location()),
            Self::robots_sized(other_robots@),
        ensures
            match r {
                Ok(lm) => lm.spec_map().wf() && same_geometry(&lm.spec_map(), &map)
                    && lm.spec_map().spec_cells() == stamp_positions(
                    &map,
                    stamp_cells(
                        &map,
                        map.spec_cells(),
                        my_robot.spec_location()@,
                        MapState::MyRobot,
                    ),
                    Self::positions_of(other_robots@),
                    other_robots@.len() as int,
                    MapState::OtherRobot,
                ) && lm.spec_my_robot() == my_robot && lm.spec_other_robots() == other_robots@,
                Err(_) => false,
            },
    {
        let mut grid = map;
        let ghost m0 = map;
        match grid.set_location(my_robot.location(), MapState::MyRobot) {
            Ok(_) => {},
            Err(_) => {},
        }
        let ghost base = stamp_cells(
            &m0,
            m0.spec_cells(),
            my_robot.spec_location()@,
            MapState::MyRobot,
        );
        let n: usize = other_robots.len();
        let mut i: usize = 0;
        while i < n
            invariant
                i <= n,
                n as int == other_robots@.len(),
                grid.wf(),
                same_geometry(&grid, &m0),
                m0.wf(),
                Self::robots_sized(other_robots@),
                grid.spec_cells() == stamp_positions(
                    &m0,
                    base,
                    Self::positions_of(other_robots@),
                    i as int,
                    MapState::OtherRobot,
                ),
            decreases n - i,
        {
            let robot = &other_robots[i];
            proof {
                lemma_same_geometry_index(&grid, &m0, robot.spec_location()@);
            }
            match grid.set_location(robot.location(), MapState::OtherRobot) {
                Ok(_) => {},
                Err(_) => {},
            }
            i = i + 1;
        }
        Ok(LocalMap { map: grid, my_robot, other_robots })
    }

    pub fn map(&self) -> (r: &CellMap)
        ensures
            *r == self.spec_map(),
    {
        &self.map
    }

    pub fn map_mut(&mut self) -> (r: &mut CellMap)
        ensures
            *r == old(self).spec_map(),
            final(self).spec_map() == *final(r),
            final(self).spec_my_robot() == old(self).spec_my_robot(),
            final(self).spec_other_robots() == old(self).spec_other_robots(),
    {
        &mut self.map
    }

    pub fn my_position(&self) -> (r: &RealWorldLocation)
        ensures
            *r == self.spec_my_robot().spec_location(),
    {
        self.my_robot.location()
    }

    /// The positions of the other robots, in the order they were given.
    pub fn other_positions(&self) -> (r: Vec<RealWorldLocation>)
        ensures
            r@.len() == self.spec_other_robots().len(),
            forall|i: int|
                0 <= i < r@.len() ==> r@[i] == (#[trigger] self.spec_other_robots()[i]).spec_location(),
    {
        let n: usize = self.other_robots.len();
        let mut result: Vec<RealWorldLocation> = Vec::new();
        let mut i: usize = 0;
        while i < n
            invariant
                i <= n,
                n as int == self.spec_other_robots().len(),
                result@.len() == i as int,
                forall|j: int|
                    0 <= j < i as int ==> result@[j] == (
                    #[trigger] self.spec_other_robots()[j]).spec_location(),
            decreases n - i,
        {
            result.push(*self.other_robots[i].location());
            i = i + 1;
        }
        result
    }

    pub fn my_robot(&self) -> (r: &Robot<P>)
        ensures
            *r == self.spec_my_robot(),
    {
        &self.my_robot
    }

    pub fn other_robots(&self) -> (r: &Vec<Robot<P>>)
        ensures
            r@ == self.spec_other_robots(),
    {
        &self.other_robots
    }

    /// Hand the map to an injected partitioning algorithm and return
    /// what it produces. The algorithm is called exactly once; the
    /// result is whatever it returns for this map.
    pub fn partition<A: FnOnce(LocalMap<P>) -> LocalMap<P>>(self, algorithm: A) -> (r: Result<
        LocalMap<P>,
        PartitionError,
    >)
        requires
            algorithm.requires((self,)),
        ensures
            match r {
                Ok(m) => algorithm.ensures((self,), m),
                Err(_) => false,
            },
    {
        Ok(algorithm(self))
    }
}

pub(crate) proof fn lemma_same_geometry_index(a: &CellMap, b: &CellMap, p: RatCoords)
    requires
        same_geometry(a, b),
    ensures
        a.spec_index_ok(p) == b.spec_index_ok(p),
        a.spec_row(p) == b.spec_row(p),
        a.spec_col(p) == b.spec_col(p),
{
}

/// The designated position followed by the other positions.
pub open spec fn all_positions(
    my: RealWorldLocation,
    others: Seq<RealWorldLocation>,
) -> Seq<RealWorldLocation> {
    seq![my].add(others)
}

/// Mathematical values of a position sequence.
pub open spec fn position_views(s: Seq<RealWorldLocation>) -> Seq<RatCoords> {
    s.map_values(|p: RealWorldLocation| p@)
}

/// Smallest x among `init` and the first `k` positions.
pub open spec fn emin_x(init: Rat, s: Seq<RealWorldLocation>, k: int) -> Rat
    decreases k,
{
    if k <= 0 {
        init
    } else {
        crate::polygon_map::rat_min(emin_x(init, s, k - 1), s[k - 1]@.x)
    }
}

pub open spec fn emin_y(init: Rat, s: Seq<RealWorldLocation>, k: int) -> Rat
    decreases k,
{
    if k <= 0 {
        init
    } else {
        crate::polygon_map::rat_min(emin_y(init, s, k - 1), s[k - 1]@.y)
    }
}

pub open spec fn emin_z(init: Rat, s: Seq<RealWorldLocation>, k: int) -> Rat
    decreases k,
{
    if k <= 0 {
        init
    } else {
        crate::polygon_map::rat_min(emin_z(init, s, k - 1), s[k - 1]@.z)
    }
}

/// Largest x among `init` and the first `k` positions.
pub open spec fn emax_x(init: Rat, s: Seq<RealWorldLocation>, k: int) -> Rat
    decreases k,
{
    if k <= 0 {
        init
    } else {
        crate::polygon_map::rat_max(emax_x(init, s, k - 1), s[k - 1]@.x)
    }
}

pub open spec fn emax_y(init: Rat, s: Seq<RealWorldLocation>, k: int) -> Rat
    decreases k,
{
    if k <= 0 {
        init
    } else {
        crate::polygon_map::rat_max(emax_y(init, s, k - 1), s[k - 1]@.y)
    }
}

/// Every position satisfies the coordinate bounds.
pub open spec fn positions_sized(s: Seq<RealWorldLocation>) -> bool {
    forall|i: int|
        0 <= i < s.len() ==> coords_wf((#[trigger] s[i]).location()) && coords_sized(
            s[i].location(),
        )
}

/// Expansion policy, x axis. The grid grows left by a whole number of
/// cells, enough to cover the smallest x among the offset and all robot
/// positions, and right so that the scaled span up to the largest x
/// among the far corner and all positions is covered (fractional cells
/// truncated, and never less than the shifted old grid).
pub open spec fn exp_mn_x(m: &CellMap, ps: Seq<RealWorldLocation>) -> Rat {
    emin_x(m.spec_offset()@.x, ps, ps.len() as int)
}

pub open spec fn exp_mn_y(m: &CellMap, ps: Seq<RealWorldLocation>) -> Rat {
    emin_y(m.spec_offset()@.y, ps, ps.len() as int)
}

pub open spec fn exp_off_z(m: &CellMap, ps: Seq<RealWorldLocation>) -> Rat {
    emin_z(m.spec_offset()@.z, ps, ps.len() as int)
}

pub open spec fn exp_corner_x(m: &CellMap) -> Rat {
    crate::cell_map::far_edge(m.spec_offset()@.x, m.spec_ncols(), m.spec_resolution()@.x)
}

pub open spec fn exp_corner_y(m: &CellMap) -> Rat {
    crate::cell_map::far_edge(m.spec_offset()@.y, m.spec_nrows(), m.spec_resolution()@.y)
}

pub open spec fn exp_mx_x(m: &CellMap, ps: Seq<RealWorldLocation>) -> Rat {
    emax_x(exp_corner_x(m), ps, ps.len() as int)
}

pub open spec fn exp_mx_y(m: &CellMap, ps: Seq<RealWorldLocation>) -> Rat {
    emax_y(exp_corner_y(m), ps, ps.len() as int)
}

/// Cells added on the left: the distance from the new minimum to the
/// old offset, scaled and rounded up to whole cells.
pub open spec fn exp_shift_x(m: &CellMap, ps: Seq<RealWorldLocation>) -> int {
    crate::rat::rat_ceil(
        rat_mul(rat_sub(m.spec_offset()@.x, exp_mn_x(m, ps)), m.spec_resolution()@.x),
    )
}

pub open spec fn exp_shift_y(m: &CellMap, ps: Seq<RealWorldLocation>) -> int {
    crate::rat::rat_ceil(
        rat_mul(rat_sub(m.spec_offset()@.y, exp_mn_y(m, ps)), m.spec_resolution()@.y),
    )
}

/// The expanded grid's offset: the old offset moved left and down by a
/// whole number of cells.
pub open spec fn exp_off_x(m: &CellMap, ps: Seq<RealWorldLocation>) -> Rat {
    rat_sub(
        m.spec_offset()@.x,
        crate::rat::rat_div(rat_from_int(exp_shift_x(m, ps)), m.spec_resolution()@.x),
    )
}

pub open spec fn exp_off_y(m: &CellMap, ps: Seq<RealWorldLocation>) -> Rat {
    rat_sub(
        m.spec_offset()@.y,
        crate::rat::rat_div(rat_from_int(exp_shift_y(m, ps)), m.spec_resolution()@.y),
    )
}

/// The expanded grid's column count: the scaled span from the new
/// offset to the new maximum, truncated, and at least the shifted old
/// width.
pub open spec fn exp_cols(m: &CellMap, ps: Seq<RealWorldLocation>) -> int {
    let span = rat_floor(
        rat_mul(rat_sub(exp_mx_x(m, ps), exp_off_x(m, ps)), m.spec_resolution()@.x),
    );
    let needed = exp_shift_x(m, ps) + m.spec_ncols();
    if span >= needed {
        span
    } else {
        needed
    }
}

pub open spec fn exp_rows(m: &CellMap, ps: Seq<RealWorldLocation>) -> int {
    let span = rat_floor(
        rat_mul(rat_sub(exp_mx_y(m, ps), exp_off_y(m, ps)), m.spec_resolution()@.y),
    );
    let needed = exp_shift_y(m, ps) + m.spec_nrows();
    if span >= needed {
        span
    } else {
        needed
    }
}

/// The expanded grid's labels before robots are stamped: the old labels
/// at their shifted places, `Unexplored` everywhere else.
pub open spec fn exp_copied(m: &CellMap, ps: Seq<RealWorldLocation>) -> Seq<MapState> {
    let cols = exp_cols(m, ps);
    let sr = exp_shift_y(m, ps);
    let sc = exp_shift_x(m, ps);
    Seq::new(
        (exp_rows(m, ps) * cols) as nat,
        |j: int|
            {
                let r2 = j / cols;
                let c2 = j % cols;
                if sr <= r2 < sr + m.spec_nrows() && sc <= c2 < sc + m.spec_ncols() {
                    m.spec_cells()[(r2 - sr) * m.spec_ncols() + (c2 - sc)]
                } else {
                    MapState::Unexplored
                }
            },
    )
}

proof fn lemma_fold_cmp_fits(a: Rat, b: Rat)
    by (nonlinear_arith)
    requires
        iabs(a.num) <= 0x200_0000_0000_0000,
        0 < a.den <= 0x1_0000_0000,
        iabs(b.num) <= 0x200_0000_0000_0000,
        0 < b.den <= 0x1_0000_0000,
    ensures
        iabs(a.num) * b.den <= i128::MAX,
        iabs(b.num) * a.den <= i128::MAX,
        iabs(a.num) * b.den + iabs(b.num) * a.den <= i128::MAX,
        a.den * b.den <= i128::MAX,
{
}

proof fn lemma_emin_x_props(init: Rat, s: Seq<RealWorldLocation>, k: int)
    requires
        0 <= k <= s.len(),
        positions_sized(s),
        iabs(init.num) <= 0x1_0000_0000,
        0 < init.den <= 0x1_0000,
        init.num > i128::MIN,
    ensures
        iabs(emin_x(init, s, k).num) <= 0x1_0000_0000,
        0 < emin_x(init, s, k).den <= 0x1_0000,
        emin_x(init, s, k).num > i128::MIN,
        rat_le(emin_x(init, s, k), init),
    decreases k,
{
    broadcast use crate::coords::lemma_rwl_view;

    if k > 0 {
        lemma_emin_x_props(init, s, k - 1);
        let prev = emin_x(init, s, k - 1);
        let cur = emin_x(init, s, k);
        if !crate::rat::rat_le(prev, s[k - 1]@.x) {
            crate::polygon_map::lemma_rat_le_trans(cur, prev, init);
        }
    }
}

proof fn lemma_emin_y_props(init: Rat, s: Seq<RealWorldLocation>, k: int)
    requires
        0 <= k <= s.len(),
        positions_sized(s),
        iabs(init.num) <= 0x1_0000_0000,
        0 < init.den <= 0x1_0000,
        init.num > i128::MIN,
    ensures
        iabs(emin_y(init, s, k).num) <= 0x1_0000_0000,
        0 < emin_y(init, s, k).den <= 0x1_0000,
        emin_y(init, s, k).num > i128::MIN,
        rat_le(emin_y(init, s, k), init),
    decreases k,
{
    broadcast use crate::coords::lemma_rwl_view;

    if k > 0 {
        lemma_emin_y_props(init, s, k - 1);
        let prev = emin_y(init, s, k - 1);
        let cur = emin_y(init, s, k);
        if !crate::rat::rat_le(prev, s[k - 1]@.y) {
            crate::polygon_map::lemma_rat_le_trans(cur, prev, init);
        }
    }
}

proof fn lemma_emin_z_props(init: Rat, s: Seq<RealWorldLocation>, k: int)
    requires
        0 <= k <= s.len(),
        positions_sized(s),
        iabs(init.num) <= 0x1_0000_0000,
        0 < init.den <= 0x1_0000,
        init.num > i128::MIN,
    ensures
        iabs(emin_z(init, s, k).num) <= 0x1_0000_0000,
        0 < emin_z(init, s, k).den <= 0x1_0000,
        emin_z(init, s, k).num > i128::MIN,
    decreases k,
{
    broadcast use crate::coords::lemma_rwl_view;

    if k > 0 {
        lemma_emin_z_props(init, s, k - 1);
    }
}

proof fn lemma_emax_x_props(init: Rat, s: Seq<RealWorldLocation>, k: int)
    requires
        0 <= k <= s.len(),
        positions_sized(s),
        iabs(init.num) <= 0x200_0000_0000_0000,
        0 < init.den <= 0x1_0000_0000,
        init.num > i128::MIN,
    ensures
        iabs(emax_x(init, s, k).num) <= 0x200_0000_0000_0000,
        0 < emax_x(init, s, k).den <= 0x1_0000_0000,
        emax_x(init, s, k).num > i128::MIN,
        rat_le(init, emax_x(init, s, k)),
    decreases k,
{
    broadcast use crate::coords::lemma_rwl_view;

    if k > 0 {
        lemma_emax_x_props(init, s, k - 1);
        let prev = emax_x(init, s, k - 1);
        let cur = emax_x(init, s, k);
        if !crate::rat::rat_le(s[k - 1]@.x, prev) {
            crate::polygon_map::lemma_rat_le_trans(init, prev, cur);
        }
    }
}

proof fn lemma_emax_y_props(init: Rat, s: Seq<RealWorldLocation>, k: int)
    requires
        0 <= k <= s.len(),
        positions_sized(s),
        iabs(init.num) <= 0x200_0000_0000_0000,
        0 < init.den <= 0x1_0000_0000,
        init.num > i128::MIN,
    ensures
        iabs(emax_y(init, s, k).num) <= 0x200_0000_0000_0000,
        0 < emax_y(init, s, k).den <= 0x1_0000_0000,
        emax_y(init, s, k).num > i128::MIN,
        rat_le(init, emax_y(init, s, k)),
    decreases k,
{
    broadcast use crate::coords::lemma_rwl_view;

    if k > 0 {
        lemma_emax_y_props(init, s, k - 1);
        let prev = emax_y(init, s, k - 1);
        let cur = emax_y(init, s, k);
        if !crate::rat::rat_le(s[k - 1]@.y, prev) {
            crate::polygon_map::lemma_rat_le_trans(init, prev, cur);
        }
    }
}

proof fn lemma_ceil_nonneg(a: Rat)
    requires
        a.num >= 0,
        a.den > 0,
    ensures
        crate::rat::rat_ceil(a) >= 0,
{
    vstd::arithmetic::div_mod::lemma_div_is_ordered(-a.num, 0, a.den);
    vstd::arithmetic::div_mod::lemma_div_of0(a.den);
}

proof fn lemma_shift_nonneg(off: Rat, mn: Rat, r: Rat)
    requires
        rat_le(mn, off),
        off.den > 0,
        mn.den > 0,
        r.den > 0,
        r.num > 0,
    ensures
        crate::rat::rat_ceil(rat_mul(rat_sub(off, mn), r)) >= 0,
{
    let m = rat_mul(rat_sub(off, mn), r);
    assert(m.num >= 0 && m.den > 0) by (nonlinear_arith)
        requires
            rat_le(mn, off),
            off.den > 0,
            mn.den > 0,
            r.den > 0,
            r.num > 0,
            m == rat_mul(rat_sub(off, mn), r),
    ;
    lemma_ceil_nonneg(m);
}

proof fn lemma_ceil_le_num(a: Rat)
    requires
        a.num >= 0,
        a.den > 0,
    ensures
        crate::rat::rat_ceil(a) <= a.num,
{
    vstd::arithmetic::div_mod::lemma_fundamental_div_mod(-a.num, a.den);
    vstd::arithmetic::div_mod::lemma_mod_division_less_than_divisor(-a.num, a.den);
    assert((-a.num) / a.den >= -a.num) by (nonlinear_arith)
        requires
            -a.num == a.den * ((-a.num) / a.den) + (-a.num) % a.den,
            0 <= (-a.num) % a.den < a.den,
            a.num >= 0,
            a.den > 0,
    ;
}

proof fn lemma_shift_upper(o: Rat, mn: Rat, r: Rat)
    requires
        rat_le(mn, o),
        iabs(o.num) <= 0x1_0000_0000,
        0 < o.den <= 0x1_0000,
        iabs(mn.num) <= 0x1_0000_0000,
        0 < mn.den <= 0x1_0000,
        iabs(r.num) <= 0x100,
        0 < r.den <= 0x100,
        r.num > 0,
    ensures
        crate::rat::rat_ceil(rat_mul(rat_sub(o, mn), r)) <= 0x400_0000_0000_0000,
{
    let m = rat_mul(rat_sub(o, mn), r);
    assert(0 <= m.num <= 0x400_0000_0000_0000 && m.den > 0) by (nonlinear_arith)
        requires
            rat_le(mn, o),
            iabs(o.num) <= 0x1_0000_0000,
            0 < o.den <= 0x1_0000,
            iabs(mn.num) <= 0x1_0000_0000,
            0 < mn.den <= 0x1_0000,
            iabs(r.num) <= 0x100,
            0 < r.den <= 0x100,
            r.num > 0,
            m == rat_mul(rat_sub(o, mn), r),
    ;
    lemma_ceil_le_num(m);
}

/// The far edge of the grid along one axis, stored with exactly the
/// components of its mathematical definition.
fn far_edge_exec(offset: &Real, count: i128, res: &Real) -> (r: Real)
    requires
        offset.sized(0x1_0000_0000, 0x1_0000),
        res.sized(0x100, 0x100),
        res@.num > 0,
        0 <= count <= 0x1_0000_0000,
    ensures
        r@ == crate::cell_map::far_edge(offset@, count as int, res@),
        r.sized(0x200_0000_0000_0000, 0x1_0000_0000),
        r.wf(),
{
    proof {
        lemma_mul_abs_bound(count as int, res@.den, 0x1_0000_0000, 0x100);
        lemma_mul_abs_bound(count as int * res@.den, offset@.den, 0x100_0000_0000, 0x1_0000);
        lemma_mul_abs_bound(offset@.num, res@.num, 0x1_0000_0000, 0x100);
        lemma_mul_abs_bound(res@.num, offset@.den, 0x100, 0x1_0000);
        crate::rat::lemma_mul_pos(res@.num, offset@.den);
    }
    let n: i128 = (count * res.den()) * offset.den() + offset.num() * (1 * res.num());
    let d: i128 = (1 * res.num()) * offset.den();
    Real::from_parts(n, d)
}

/// The expanded offset along one axis, stored with exactly the
/// components of its mathematical definition.
fn exp_off_exec(offset: &Real, shift: i128, res: &Real) -> (r: Real)
    requires
        offset.sized(0x1_0000_0000, 0x1_0000),
        res.sized(0x100, 0x100),
        res@.num > 0,
        0 <= shift <= 0x400_0000_0000_0000,
    ensures
        r@ == rat_sub(offset@, crate::rat::rat_div(rat_from_int(shift as int), res@)),
        r.wf(),
{
    proof {
        lemma_mul_abs_bound(offset@.num, res@.num, 0x1_0000_0000, 0x100);
        lemma_mul_abs_bound(shift as int, res@.den, 0x400_0000_0000_0000, 0x100);
        lemma_mul_abs_bound(
            shift as int * res@.den,
            offset@.den,
            0x4_0000_0000_0000_0000,
            0x1_0000,
        );
        lemma_mul_abs_bound(offset@.den, res@.num, 0x1_0000, 0x100);
        crate::rat::lemma_mul_pos(offset@.den, res@.num);
    }
    let n: i128 = offset.num() * (1 * res.num()) - (shift * res.den()) * offset.den();
    let d: i128 = offset.den() * (1 * res.num());
    Real::from_parts(n, d)
}

proof fn lemma_exp_dim_fits(mx: Rat, no: Rat, r: Rat)
    by (nonlinear_arith)
    requires
        iabs(mx.num) <= 0x200_0000_0000_0000,
        0 < mx.den <= 0x1_0000_0000,
        iabs(no.num) <= 0x1_0000_0000,
        0 < no.den <= 0x1_0000,
        iabs(r.num) <= 0x100,
        0 < r.den <= 0x100,
    ensures
        iabs(mx.num) * no.den + iabs(no.num) * mx.den <= i128::MAX,
        mx.den * no.den <= i128::MAX,
        (iabs(mx.num) * no.den + iabs(no.num) * mx.den) * 0x100 <= i128::MAX,
        (mx.den * no.den) * 0x100 <= i128::MAX,
{
}

proof fn lemma_shift_mul_fits(o: Rat, mn: Rat, w: Rat, r: Rat)
    by (nonlinear_arith)
    requires
        iabs(o.num) <= 0x1_0000_0000,
        0 < o.den <= 0x1_0000,
        iabs(mn.num) <= 0x1_0000_0000,
        0 < mn.den <= 0x1_0000,
        iabs(w.num) <= iabs(o.num) * mn.den + iabs(mn.num) * o.den,
        0 < w.den <= o.den * mn.den,
        iabs(r.num) <= 0x100,
        0 < r.den <= 0x100,
    ensures
        iabs(o.num) * mn.den + iabs(mn.num) * o.den <= i128::MAX,
        o.den * mn.den <= i128::MAX,
        iabs(w.num) * iabs(r.num) <= i128::MAX,
        w.den * r.den <= i128::MAX,
        iabs(w.num) * iabs(r.num) <= 0x200_0000_0000_0000,
{
}

impl LocalMap<()> {
    /// Create a local map whose grid is grown so that every robot
    /// position is representable.
    ///
    /// The policy: the grid's bounding box is extended to cover the old
    /// grid together with all robot positions. The offset moves left and
    /// down by a whole number of cells (so the old labels stay on the
    /// cell lattice), the new width and height are the scaled extents of
    /// the grown box with fractional cells truncated (never less than
    /// the shifted old grid), old labels are copied to their shifted
    /// places with everything else `Unexplored`, and then the robots are
    /// stamped as in `new_noexpand_nooutofmap`.
    pub fn new_expand(
        map: CellMap,
        my_position: RealWorldLocation,
        other_positions: Vec<RealWorldLocation>,
    ) -> (r: LocalMap<()>)
        requires
            map.wf(),
            coords_wf(my_position.location()),
            coords_sized(my_position.location()),
            positions_sized(other_positions@),
            iabs(exp_off_x(&map, all_positions(my_position, other_positions@)).num)
                <= 0x1_0000_0000,
            exp_off_x(&map, all_positions(my_position, other_positions@)).den <= 0x1_0000,
            iabs(exp_off_y(&map, all_positions(my_position, other_positions@)).num)
                <= 0x1_0000_0000,
            exp_off_y(&map, all_positions(my_position, other_positions@)).den <= 0x1_0000,
            exp_cols(&map, all_positions(my_position, other_positions@)) <= 0x1_0000_0000,
            exp_rows(&map, all_positions(my_position, other_positions@)) <= 0x1_0000_0000,
            exp_cols(&map, all_positions(my_position, other_positions@)) <= usize::MAX,
            exp_rows(&map, all_positions(my_position, other_positions@)) <= usize::MAX,
            exp_rows(&map, all_positions(my_position, other_positions@)) * exp_cols(
                &map,
                all_positions(my_position, other_positions@),
            ) <= usize::MAX,
        ensures
            ({
                let ps = all_positions(my_position, other_positions@);
                let g = r.spec_map();
                g.wf() && g.spec_ncols() == exp_cols(&map, ps) && g.spec_nrows() == exp_rows(
                    &map,
                    ps,
                ) && g.spec_offset()@.x == exp_off_x(&map, ps) && g.spec_offset()@.y == exp_off_y(
                    &map,
                    ps,
                ) && g.spec_offset()@.z == exp_off_z(&map, ps) && g.spec_resolution()
                    == map.spec_resolution() && g.spec_cells() == stamp_positions(
                    &g,
                    stamp_cells(&g, exp_copied(&map, ps), my_position@, MapState::MyRobot),
                    position_views(other_positions@),
                    other_positions@.len() as int,
                    MapState::OtherRobot,
                ) && r.spec_my_robot().spec_location() == my_position
                    && r.spec_other_robots().len() == other_positions@.len() && (forall|i: int|
                    0 <= i < other_positions@.len() ==> (
                    #[trigger] r.spec_other_robots()[i]).spec_location() == other_positions@[i])
            }),
    {
        broadcast use crate::coords::lemma_rwl_view;

        let ghost ps = all_positions(my_position, other_positions@);
        let mut allv: Vec<RealWorldLocation> = Vec::new();
        allv.push(my_position);
        let on: usize = other_positions.len();
        let mut i: usize = 0;
        while i < on
            invariant
                i <= on,
                on as int == other_positions@.len(),
                allv@.len() == i + 1,
                allv@ == seq![my_position].add(other_positions@.take(i as int)),
            decreases on - i,
        {
            allv.push(other_positions[i]);
            proof {
                assert(other_positions@.take(i + 1 as int) =~= other_positions@.take(i as int)
                    + seq![other_positions@[i as int]]);
                assert(allv@ =~= seq![my_position].add(other_positions@.take(i + 1 as int)));
            }
            i = i + 1;
        }
        proof {
            assert(other_positions@.take(on as int) =~= other_positions@);
            assert(allv@ =~= ps);
            assert(positions_sized(ps));
        }
        let o = *map.offset();
        let res = *map.resolution();
        let corner_x = far_edge_exec(&o.x, map.ncols() as i128, &res.x);
        let corner_y = far_edge_exec(&o.y, map.nrows() as i128, &res.y);
        let mut mnx = o.x;
        let mut mny = o.y;
        let mut mnz = o.z;
        let mut mxx = corner_x;
        let mut mxy = corner_y;
        let an: usize = allv.len();
        let mut j: usize = 0;
        while j < an
            invariant
                j <= an,
                an as int == ps.len(),
                allv@ == ps,
                positions_sized(ps),
                mnx@ == emin_x(o@.x, ps, j as int),
                mny@ == emin_y(o@.y, ps, j as int),
                mnz@ == emin_z(o@.z, ps, j as int),
                mxx@ == emax_x(crate::cell_map::far_edge(o@.x, map.spec_ncols(),
                    map.spec_resolution()@.x), ps, j as int),
                mxy@ == emax_y(crate::cell_map::far_edge(o@.y, map.spec_nrows(),
                    map.spec_resolution()@.y), ps, j as int),
                o == map.spec_offset(),
                res == map.spec_resolution(),
                map.wf(),
                mnx.sized(0x1_0000_0000, 0x1_0000),
                mny.sized(0x1_0000_0000, 0x1_0000),
                mnz.sized(0x1_0000_0000, 0x1_0000),
                mxx.sized(0x200_0000_0000_0000, 0x1_0000_0000),
                mxy.sized(0x200_0000_0000_0000, 0x1_0000_0000),
            decreases an - j,
        {
            let p = &allv[j];
            proof {
                lemma_fold_cmp_fits(mnx@, p@.x);
                lemma_fold_cmp_fits(mny@, p@.y);
                lemma_fold_cmp_fits(mnz@, p@.z);
                lemma_fold_cmp_fits(mxx@, p@.x);
                lemma_fold_cmp_fits(mxy@, p@.y);
            }
            mnx = mnx.min_val(&p.x());
            mny = mny.min_val(&p.y());
            mnz = mnz.min_val(&p.z());
            mxx = mxx.max_val(&p.x());
            mxy = mxy.max_val(&p.y());
            j = j + 1;
        }
        proof {
            lemma_emin_x_props(o@.x, ps, ps.len() as int);
            lemma_emin_y_props(o@.y, ps, ps.len() as int);
            lemma_emin_z_props(o@.z, ps, ps.len() as int);
            lemma_fold_cmp_fits(o@.x, mnx@);
            lemma_fold_cmp_fits(o@.y, mny@);
        }
        let wsx = o.x.sub(&mnx);
        let wsy = o.y.sub(&mny);
        proof {
            lemma_shift_mul_fits(o@.x, mnx@, wsx@, res@.x);
            lemma_shift_mul_fits(o@.y, mny@, wsy@, res@.y);
        }
        let msx = wsx.mul(&res.x);
        let msy = wsy.mul(&res.y);
        proof {
            crate::rat::lemma_mul_pos(o@.x.den, mnx@.den);
            crate::rat::lemma_mul_pos(o@.x.den * mnx@.den, res@.x.den);
            crate::rat::lemma_mul_pos(wsx@.den, res@.x.den);
            crate::cell_map::lemma_mul_compat_left_pub(wsx@, rat_sub(o@.x, mnx@), res@.x);
            crate::cell_map::lemma_rat_eq_trans_pub(
                msx@,
                rat_mul(wsx@, res@.x),
                rat_mul(rat_sub(o@.x, mnx@), res@.x),
            );
            crate::rat::lemma_rat_ceil_eq(msx@, rat_mul(rat_sub(o@.x, mnx@), res@.x));
            crate::rat::lemma_mul_pos(o@.y.den, mny@.den);
            crate::rat::lemma_mul_pos(o@.y.den * mny@.den, res@.y.den);
            crate::rat::lemma_mul_pos(wsy@.den, res@.y.den);
            crate::cell_map::lemma_mul_compat_left_pub(wsy@, rat_sub(o@.y, mny@), res@.y);
            crate::cell_map::lemma_rat_eq_trans_pub(
                msy@,
                rat_mul(wsy@, res@.y),
                rat_mul(rat_sub(o@.y, mny@), res@.y),
            );
            crate::rat::lemma_rat_ceil_eq(msy@, rat_mul(rat_sub(o@.y, mny@), res@.y));
            lemma_shift_nonneg(o@.x, mnx@, res@.x);
            lemma_shift_nonneg(o@.y, mny@, res@.y);
            lemma_shift_upper(o@.x, mnx@, res@.x);
            lemma_shift_upper(o@.y, mny@, res@.y);
        }
        let scx: i128 = msx.ceil_int();
        let scy: i128 = msy.ceil_int();
        let nox = exp_off_exec(&o.x, scx, &res.x);
        let noy = exp_off_exec(&o.y, scy, &res.y);
        proof {
            assert(nox@ == exp_off_x(&map, ps));
            assert(noy@ == exp_off_y(&map, ps));
            lemma_exp_dim_fits(mxx@, nox@, res@.x);
            lemma_exp_dim_fits(mxy@, noy@, res@.y);
        }
        let wcx = mxx.sub(&nox);
        let wcy = mxy.sub(&noy);
        proof {
            crate::rat::lemma_mul_pos(mxx@.den, nox@.den);
            crate::rat::lemma_mul_pos(mxx@.den * nox@.den, res@.x.den);
            crate::rat::lemma_mul_pos(wcx@.den, res@.x.den);
            lemma_mul_abs_bound(
                wcx@.num,
                res@.x.num,
                iabs(mxx@.num) * nox@.den + iabs(nox@.num) * mxx@.den,
                0x100,
            );
            lemma_mul_abs_bound(wcx@.den, res@.x.den, mxx@.den * nox@.den, 0x100);
            lemma_mul_abs_bound(
                wcy@.num,
                res@.y.num,
                iabs(mxy@.num) * noy@.den + iabs(noy@.num) * mxy@.den,
                0x100,
            );
            lemma_mul_abs_bound(wcy@.den, res@.y.den, mxy@.den * noy@.den, 0x100);
            crate::rat::lemma_mul_pos(mxy@.den, noy@.den);
            crate::rat::lemma_mul_pos(mxy@.den * noy@.den, res@.y.den);
            crate::rat::lemma_mul_pos(wcy@.den, res@.y.den);
        }
        let dmx = wcx.mul(&res.x);
        let dmy = wcy.mul(&res.y);
        proof {
            crate::cell_map::lemma_mul_compat_left_pub(wcx@, rat_sub(mxx@, nox@), res@.x);
            crate::cell_map::lemma_rat_eq_trans_pub(
                dmx@,
                rat_mul(wcx@, res@.x),
                rat_mul(rat_sub(mxx@, nox@), res@.x),
            );
            crate::rat::lemma_rat_floor_eq(dmx@, rat_mul(rat_sub(mxx@, nox@), res@.x));
            crate::cell_map::lemma_mul_compat_left_pub(wcy@, rat_sub(mxy@, noy@), res@.y);
            crate::cell_map::lemma_rat_eq_trans_pub(
                dmy@,
                rat_mul(wcy@, res@.y),
                rat_mul(rat_sub(mxy@, noy@), res@.y),
            );
            crate::rat::lemma_rat_floor_eq(dmy@, rat_mul(rat_sub(mxy@, noy@), res@.y));
        }
        let span_x: i128 = dmx.floor_int();
        let span_y: i128 = dmy.floor_int();
        let old_cols: usize = map.ncols();
        let old_rows: usize = map.nrows();
        let needed_x: i128 = scx + old_cols as i128;
        let needed_y: i128 = scy + old_rows as i128;
        let cols_i: i128 = if span_x >= needed_x {
            span_x
        } else {
            needed_x
        };
        let rows_i: i128 = if span_y >= needed_y {
            span_y
        } else {
            needed_y
        };
        proof {
            assert(cols_i as int == exp_cols(&map, ps));
            assert(rows_i as int == exp_rows(&map, ps));
        }
        let ncols: usize = cols_i as usize;
        let nrows: usize = rows_i as usize;
        let sc: usize = scx as usize;
        let sr: usize = scy as usize;
        let total: usize = nrows * ncols;
        let old_len: usize = map.cells().len();
        let mut cells: Vec<MapState> = Vec::new();
        let mut k: usize = 0;
        while k < total
            invariant
                k <= total,
                total as int == exp_rows(&map, ps) * exp_cols(&map, ps),
                ncols as int == exp_cols(&map, ps),
                nrows as int == exp_rows(&map, ps),
                sc as int == exp_shift_x(&map, ps),
                sr as int == exp_shift_y(&map, ps),
                old_cols as int == map.spec_ncols(),
                old_rows as int == map.spec_nrows(),
                old_len as int == map.spec_cells().len(),
                map.wf(),
                cells@.len() == k as int,
                forall|m: int| 0 <= m < k as int ==> cells@[m] == exp_copied(&map, ps)[m],
            decreases total - k,
        {
            proof {
                crate::cell_map::lemma_product_pos(nrows as int, ncols as int, k as int);
            }
            let c2: usize = k % ncols;
            let r2: usize = k / ncols;
            let label: MapState;
            if r2 >= sr && r2 < sr + old_rows && c2 >= sc && c2 < sc + old_cols {
                proof {
                    crate::cell_map::lemma_flat_index(
                        r2 as int - sr as int,
                        c2 as int - sc as int,
                        old_rows as int,
                        old_cols as int,
                    );
                }
                label = *vec_state_get(
                    map.cells(),
                    (r2 - sr) * old_cols + (c2 - sc),
                );
            } else {
                label = MapState::Unexplored;
            }
            cells.push(label);
            k = k + 1;
        }
        proof {
            assert(cells@ =~= exp_copied(&map, ps));
        }
        let offset = Coords { x: nox, y: noy, z: mnz };
        let mut grid = CellMap::from_raster(cells, nrows, ncols, res, offset);
        let ghost g0 = grid;
        match grid.set_location(&my_position, MapState::MyRobot) {
            Ok(_) => {},
            Err(_) => {},
        }
        let ghost base = stamp_cells(&g0, g0.spec_cells(), my_position@, MapState::MyRobot);
        let mut robots: Vec<Robot<()>> = Vec::new();
        let mut ri: usize = 0;
        while ri < on
            invariant
                ri <= on,
                on as int == other_positions@.len(),
                positions_sized(other_positions@),
                grid.wf(),
                same_geometry(&grid, &g0),
                g0.wf(),
                base == stamp_cells(&g0, g0.spec_cells(), my_position@, MapState::MyRobot),
                grid.spec_cells() == stamp_positions(
                    &g0,
                    base,
                    position_views(other_positions@),
                    ri as int,
                    MapState::OtherRobot,
                ),
                robots@.len() == ri as int,
                forall|m: int|
                    0 <= m < ri as int ==> (#[trigger] robots@[m]).spec_location()
                        == other_positions@[m],
            decreases on - ri,
        {
            let pos = other_positions[ri];
            proof {
                lemma_same_geometry_index(&grid, &g0, pos@);
            }
            match grid.set_location(&pos, MapState::OtherRobot) {
                Ok(_) => {},
                Err(_) => {},
            }
            robots.push(Robot::new(pos, ()));
            ri = ri + 1;
        }
        let my_robot = Robot::new(my_position, ());
        let r = LocalMap { map: grid, my_robot, other_robots: robots };
        proof {
            lemma_stamp_geom_local(&r.spec_map(), &g0, g0.spec_cells(), my_position@,
                MapState::MyRobot);
            lemma_stamp_positions_geom(
                &r.spec_map(),
                &g0,
                base,
                position_views(other_positions@),
                other_positions@.len() as int,
                MapState::OtherRobot,
            );
        }
        r
    }
}

fn vec_state_get(v: &Vec<MapState>, i: usize) -> (r: &MapState)
    requires
        i < v@.len(),
    ensures
        *r == v@[i as int],
{
    &v[i]
}

proof fn lemma_stamp_geom_local(
    a: &CellMap,
    b: &CellMap,
    cells: Seq<MapState>,
    p: RatCoords,
    label: MapState,
)
    requires
        same_geometry(a, b),
    ensures
        stamp_cells(a, cells, p, label) == stamp_cells(b, cells, p, label),
{
    lemma_same_geometry_index(a, b, p);
}

proof fn lemma_stamp_positions_geom(
    a: &CellMap,
    b: &CellMap,
    cells: Seq<MapState>,
    positions: Seq<RatCoords>,
    k: int,
    label: MapState,
)
    requires
        same_geometry(a, b),
    ensures
        stamp_positions(a, cells, positions, k, label) == stamp_positions(
            b,
            cells,
            positions,
            k,
            label,
        ),
    decreases k,
{
    if k > 0 {
        lemma_stamp_positions_geom(a, b, cells, positions, k - 1, label);
        lemma_stamp_geom_local(
            a,
            b,
            stamp_positions(b, cells, positions, k - 1, label),
            positions[k - 1],
            label,
        );
    }
}

} // verus!
