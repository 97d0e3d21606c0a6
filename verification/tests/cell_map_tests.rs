use local_robot_map::AxisResolution;
use local_robot_map::Cell;
use local_robot_map::CellMap;
use local_robot_map::Coords;
use local_robot_map::InternalLocation;
use local_robot_map::LocationError;
use local_robot_map::MapState;
use local_robot_map::Real;
use local_robot_map::RealWorldLocation;

fn r(n: i128, d: i128) -> Real {
    Real::new(n, d)
}

fn c(x: i128, y: i128, z: i128) -> Coords {
    Coords::new(r(x, 1), r(y, 1), r(z, 1))
}

fn make_map() -> (CellMap, Coords) {
    let oom = MapState::OutOfMap;
    let otr = MapState::OtherRobot;
    let myr = MapState::MyRobot;
    let exp = MapState::Explored;
    let une = MapState::Unexplored;
    let fnt = MapState::Frontier;
    let ass = MapState::Assigned;

    let offset = c(0, 0, 0);
    let cell = CellMap::from_raster(
        vec![
            oom, otr, myr, //
            fnt, une, exp, //
            ass, oom, otr, //
            myr, une, ass, //
            une, exp, fnt, //
        ],
        5,
        3,
        AxisResolution::uniform(r(1, 1)),
        offset,
    );

    (cell, offset)
}

#[test]
fn create_cell_map_one_by_one() {
    let map = CellMap::new(
        RealWorldLocation::from_xyz(r(0, 1), r(0, 1), r(0, 1)),
        RealWorldLocation::from_xyz(r(1, 1), r(1, 1), r(0, 1)),
        AxisResolution::uniform(r(1, 1)),
    );
    assert_eq!(map.resolution(), &AxisResolution::uniform(r(1, 1)));
    assert_eq!(map.width(), 1);
    assert_eq!(map.height(), 1);
    assert_eq!(map.offset(), &c(0, 0, 0));
}

#[test]
fn create_cell_map_one_by_one_negative() {
    let map = CellMap::new(
        RealWorldLocation::from_xyz(r(0, 1), r(0, 1), r(0, 1)),
        RealWorldLocation::from_xyz(r(-1, 1), r(-1, 1), r(0, 1)),
        AxisResolution::uniform(r(1, 1)),
    );
    assert_eq!(map.resolution(), &AxisResolution::uniform(r(1, 1)));
    assert_eq!(map.width(), 1);
    assert_eq!(map.height(), 1);
    assert_eq!(map.offset(), &c(-1, -1, 0));
}

#[test]
fn create_cell_map_offset() {
    let (x, y) = ((1426, 100), (9521, 100));
    let map = CellMap::new(
        RealWorldLocation::from_xyz(r(x.0, x.1), r(y.0, y.1), r(0, 1)),
        RealWorldLocation::from_xyz(r(x.0 + 100, x.1), r(y.0 + 100, y.1), r(0, 1)),
        AxisResolution::uniform(r(1, 1)),
    );
    assert_eq!(map.resolution(), &AxisResolution::uniform(r(1, 1)));
    assert_eq!(map.width(), 1);
    assert_eq!(map.height(), 1);
    assert_eq!(
        map.offset(),
        &Coords::new(r(x.0, x.1), r(y.0, y.1), r(0, 1))
    );
}

#[test]
fn create_cell_map_offset_negative() {
    let (x, y) = ((-12683, 100), (-71651137, 10000));
    let map = CellMap::new(
        RealWorldLocation::from_xyz(r(x.0, x.1), r(y.0, y.1), r(0, 1)),
        RealWorldLocation::from_xyz(r(x.0 + 100, x.1), r(y.0 + 10000, y.1), r(0, 1)),
        AxisResolution::uniform(r(1, 1)),
    );
    assert_eq!(map.resolution(), &AxisResolution::uniform(r(1, 1)));
    assert_eq!(map.width(), 1);
    assert_eq!(map.height(), 1);
    assert_eq!(
        map.offset(),
        &Coords::new(r(x.0, x.1), r(y.0, y.1), r(0, 1))
    );
}

#[test]
fn create_cell_map_resolution() {
    let map = CellMap::new(
        RealWorldLocation::from_xyz(r(0, 1), r(0, 1), r(0, 1)),
        RealWorldLocation::from_xyz(r(1, 1), r(1, 1), r(0, 1)),
        AxisResolution::uniform(r(7, 1)),
    );
    assert_eq!(map.resolution(), &AxisResolution::uniform(r(7, 1)));
    assert_eq!(map.width(), 7);
    assert_eq!(map.height(), 7);
    assert_eq!(map.offset(), &c(0, 0, 0));
}

#[test]
fn create_cell_map_resolution_negative() {
    let map = CellMap::new(
        RealWorldLocation::from_xyz(r(0, 1), r(0, 1), r(0, 1)),
        RealWorldLocation::from_xyz(r(-1, 1), r(-1, 1), r(0, 1)),
        AxisResolution::uniform(r(7, 1)),
    );
    assert_eq!(map.resolution(), &AxisResolution::uniform(r(7, 1)));
    assert_eq!(map.width(), 7);
    assert_eq!(map.height(), 7);
    assert_eq!(map.offset(), &c(-1, -1, 0));
}

#[test]
fn create_cell_map_dimension() {
    let map = CellMap::new(
        RealWorldLocation::from_xyz(r(1, 1), r(3, 1), r(0, 1)),
        RealWorldLocation::from_xyz(r(10, 1), r(4, 1), r(0, 1)),
        AxisResolution::uniform(r(1, 1)),
    );
    assert_eq!(map.resolution(), &AxisResolution::uniform(r(1, 1)));
    assert_eq!(map.width(), 9);
    assert_eq!(map.height(), 1);
    assert_eq!(map.offset(), &c(1, 3, 0));
}

#[test]
fn create_cell_map_dimension_negative() {
    let map = CellMap::new(
        RealWorldLocation::from_xyz(r(-10, 1), r(-4, 1), r(0, 1)),
        RealWorldLocation::from_xyz(r(1, 1), r(3, 1), r(0, 1)),
        AxisResolution::uniform(r(1, 1)),
    );
    assert_eq!(map.resolution(), &AxisResolution::uniform(r(1, 1)));
    assert_eq!(map.width(), 11);
    assert_eq!(map.height(), 7);
    assert_eq!(map.offset(), &c(-10, -4, 0));
}

/// A grid spanning 1.5 by 1 meters at resolution 1 keeps one column:
/// the fractional remainder is truncated.
#[test]
fn dimension_truncation() {
    let map = CellMap::new(
        RealWorldLocation::from_xyz(r(0, 1), r(0, 1), r(0, 1)),
        RealWorldLocation::from_xyz(r(15, 10), r(1, 1), r(0, 1)),
        AxisResolution::uniform(r(1, 1)),
    );
    assert_eq!(map.width(), 1);
    assert_eq!(map.height(), 1);
}

/// A grid over corners `(-1,-1,0)` and `(1,1,0)` at resolution 1 is
/// anchored at `(-1,-1,0)`, is 2 by 2, and resolves `(-1,-1,0)` to the
/// cell at row 0, column 0.
#[test]
fn negative_coordinate_anchor() {
    let map = CellMap::new(
        RealWorldLocation::from_xyz(r(-1, 1), r(-1, 1), r(0, 1)),
        RealWorldLocation::from_xyz(r(1, 1), r(1, 1), r(0, 1)),
        AxisResolution::uniform(r(1, 1)),
    );
    assert_eq!(map.offset(), &c(-1, -1, 0));
    assert_eq!(map.width(), 2);
    assert_eq!(map.height(), 2);
    let index = map
        .location_to_map_index(&RealWorldLocation::from_xyz(r(-1, 1), r(-1, 1), r(0, 1)))
        .unwrap();
    assert_eq!(index, [0, 0]);
    assert_eq!(
        map.get_location(&RealWorldLocation::from_xyz(r(-1, 1), r(-1, 1), r(0, 1))),
        Ok(MapState::Unexplored)
    );
}

#[test]
fn submap_get_map_region() {
    let (map, offset) = make_map();

    let cells = map.get_map_region(|e| e == MapState::OutOfMap);

    assert_eq!(cells.len(), 2);
    assert_eq!(
        cells,
        vec![
            Cell::new(
                InternalLocation::new(c(0, 0, 0), offset, *map.resolution()),
                MapState::OutOfMap
            ),
            Cell::new(
                InternalLocation::new(c(1, 2, 0), offset, *map.resolution()),
                MapState::OutOfMap
            ),
        ]
    );
}

#[test]
fn submap_get_map_region_high_resolution() {
    let oom = MapState::OutOfMap;
    let otr = MapState::OtherRobot;
    let offset = c(-1, -1, 0);
    let mut cells_vec = vec![oom; 100];
    cells_vec[0] = otr;
    cells_vec[3 * 10 + 8] = otr;
    cells_vec[5 * 10 + 5] = otr;
    let map = CellMap::from_raster(
        cells_vec,
        10,
        10,
        AxisResolution::uniform(r(5, 1)),
        offset,
    );

    let cells = map.get_map_region(|e| e == otr);

    assert_eq!(cells.len(), 3);
    assert_eq!(
        cells,
        vec![
            Cell::new(
                InternalLocation::new(c(0, 0, 0), offset, *map.resolution()),
                otr
            ),
            Cell::new(
                InternalLocation::new(c(8, 3, 0), offset, *map.resolution()),
                otr
            ),
            Cell::new(
                InternalLocation::new(c(5, 5, 0), offset, *map.resolution()),
                otr
            ),
        ]
    );
}

#[test]
fn submap_get_out_of_map() {
    let (map, offset) = make_map();

    let cells = map.get_map_state(MapState::OutOfMap);

    assert_eq!(cells.len(), 2);
    assert_eq!(
        cells,
        vec![
            Cell::new(
                InternalLocation::new(c(0, 0, 0), offset, *map.resolution()),
                MapState::OutOfMap
            ),
            Cell::new(
                InternalLocation::new(c(1, 2, 0), offset, *map.resolution()),
                MapState::OutOfMap
            ),
        ]
    );
}

#[test]
fn submap_get_explored() {
    let (map, offset) = make_map();

    let cells = map.get_map_state(MapState::Explored);

    assert_eq!(cells.len(), 2);
    assert_eq!(
        cells,
        vec![
            Cell::new(
                InternalLocation::new(c(2, 1, 0), offset, *map.resolution()),
                MapState::Explored
            ),
            Cell::new(
                InternalLocation::new(c(1, 4, 0), offset, *map.resolution()),
                MapState::Explored
            ),
        ]
    );
}

#[test]
fn submap_get_unexplored() {
    let (map, offset) = make_map();

    let cells = map.get_map_state(MapState::Unexplored);

    assert_eq!(cells.len(), 3);
    assert_eq!(
        cells,
        vec![
            Cell::new(
                InternalLocation::new(c(1, 1, 0), offset, *map.resolution()),
                MapState::Unexplored
            ),
            Cell::new(
                InternalLocation::new(c(1, 3, 0), offset, *map.resolution()),
                MapState::Unexplored
            ),
            Cell::new(
                InternalLocation::new(c(0, 4, 0), offset, *map.resolution()),
                MapState::Unexplored
            ),
        ]
    );
}

#[test]
fn submap_get_frontier() {
    let (map, offset) = make_map();

    let cells = map.get_map_state(MapState::Frontier);

    assert_eq!(cells.len(), 2);
    assert_eq!(
        cells,
        vec![
            Cell::new(
                InternalLocation::new(c(0, 1, 0), offset, *map.resolution()),
                MapState::Frontier
            ),
            Cell::new(
                InternalLocation::new(c(2, 4, 0), offset, *map.resolution()),
                MapState::Frontier
            ),
        ]
    );
}

#[test]
fn submap_get_assigned() {
    let (map, offset) = make_map();

    let cells = map.get_map_state(MapState::Assigned);

    assert_eq!(cells.len(), 2);
    assert_eq!(
        cells,
        vec![
            Cell::new(
                InternalLocation::new(c(0, 2, 0), offset, *map.resolution()),
                MapState::Assigned
            ),
            Cell::new(
                InternalLocation::new(c(2, 3, 0), offset, *map.resolution()),
                MapState::Assigned
            ),
        ]
    );
}

#[test]
fn location_index_origin() {
    let (map, _) = make_map();
    let index = map
        .location_to_map_index(&RealWorldLocation::from_xyz(r(0, 1), r(0, 1), r(0, 1)))
        .unwrap();
    assert_eq!(index, [0, 0]);
}

#[test]
fn location_index_inside() {
    let (map, _) = make_map();
    let index = map
        .location_to_map_index(&RealWorldLocation::from_xyz(r(24, 10), r(38, 10), r(0, 1)))
        .unwrap();
    assert_eq!(index, [3, 2]);
}

#[test]
fn location_index_inside_high_resolution() {
    let map = CellMap::new(
        RealWorldLocation::from_xyz(r(-1, 1), r(-1, 1), r(-1, 1)),
        RealWorldLocation::from_xyz(r(1, 1), r(1, 1), r(1, 1)),
        AxisResolution::uniform(r(3, 1)),
    );
    let index = map
        .location_to_map_index(&RealWorldLocation::from_xyz(r(1, 10), r(-3, 10), r(0, 1)))
        .unwrap();
    assert_eq!(index, [2, 3]);
}

#[test]
fn location_index_inside_uneven_high_resolution() {
    let map = CellMap::new(
        RealWorldLocation::from_xyz(r(-1, 1), r(-1, 1), r(-1, 1)),
        RealWorldLocation::from_xyz(r(1, 1), r(1, 1), r(1, 1)),
        AxisResolution::new(r(7, 1), r(3, 1), r(1, 1)),
    );
    let index = map
        .location_to_map_index(&RealWorldLocation::from_xyz(r(1, 10), r(-3, 10), r(0, 1)))
        .unwrap();
    assert_eq!(index, [2, 7]);
}

#[test]
fn location_index_far_corner() {
    let (map, _) = make_map();
    let index = map
        .location_to_map_index(&RealWorldLocation::from_xyz(
            r(map.width() as i128 * 10 - 3, 10),
            r(map.height() as i128 * 10 - 7, 10),
            r(0, 1),
        ))
        .unwrap();
    assert_eq!(index, [map.nrows() - 1, map.ncols() - 1]);
}

#[test]
fn location_index_too_far_right() {
    let (map, _) = make_map();
    let index = map.location_to_map_index(&RealWorldLocation::from_xyz(
        r(map.width() as i128 + 1, 1),
        r(0, 1),
        r(0, 1),
    ));
    assert_eq!(index, Err(LocationError::OutOfMap));
}

#[test]
fn location_index_too_far_left() {
    let (map, _) = make_map();
    let index = map.location_to_map_index(&RealWorldLocation::from_xyz(
        r(-1, 1),
        r(0, 1),
        r(0, 1),
    ));
    assert_eq!(index, Err(LocationError::OutOfMap));
}

#[test]
fn location_index_too_far_up() {
    let (map, _) = make_map();
    let index = map.location_to_map_index(&RealWorldLocation::from_xyz(
        r(0, 1),
        r(map.height() as i128 + 1, 1),
        r(0, 1),
    ));
    assert_eq!(index, Err(LocationError::OutOfMap));
}

#[test]
fn location_index_too_far_down() {
    let (map, _) = make_map();
    let index = map.location_to_map_index(&RealWorldLocation::from_xyz(
        r(0, 1),
        r(-1, 1),
        r(0, 1),
    ));
    assert_eq!(index, Err(LocationError::OutOfMap));
}

/// The exact boundary coordinates are out of the map too.
#[test]
fn location_index_boundary() {
    let (map, _) = make_map();
    let w = map.width() as i128;
    let h = map.height() as i128;
    assert_eq!(
        map.location_to_map_index(&RealWorldLocation::from_xyz(r(w, 1), r(0, 1), r(0, 1))),
        Err(LocationError::OutOfMap)
    );
    assert_eq!(
        map.location_to_map_index(&RealWorldLocation::from_xyz(r(0, 1), r(h, 1), r(0, 1))),
        Err(LocationError::OutOfMap)
    );
}

/// Writing a cell changes exactly that cell.
#[test]
fn set_location_changes_one_cell() {
    let (mut map, _) = make_map();
    let before = map.cells().clone();
    let loc = RealWorldLocation::from_xyz(r(1, 1), r(1, 1), r(0, 1));
    map.set_location(&loc, MapState::Assigned).unwrap();
    let after = map.cells();
    for k in 0..before.len() {
        if k == 1 * 3 + 1 {
            assert_eq!(after[k], MapState::Assigned);
        } else {
            assert_eq!(after[k], before[k]);
        }
    }
    assert_eq!(
        map.set_location(
            &RealWorldLocation::from_xyz(r(-1, 1), r(0, 1), r(0, 1)),
            MapState::Explored
        ),
        Err(LocationError::OutOfMap)
    );
}

/// The fixed label-to-color tables.
#[test]
fn label_colors() {
    assert_eq!(MapState::OutOfMap.to_luma(), 0);
    assert_eq!(MapState::OtherRobot.to_luma(), 40);
    assert_eq!(MapState::MyRobot.to_luma(), 50);
    assert_eq!(MapState::Explored.to_luma(), 180);
    assert_eq!(MapState::Unexplored.to_luma(), 120);
    assert_eq!(MapState::Frontier.to_luma(), 220);
    assert_eq!(MapState::Assigned.to_luma(), 255);
    assert_eq!(MapState::OutOfMap.to_rgb(), [0, 0, 0]);
    assert_eq!(MapState::OtherRobot.to_rgb(), [50, 255, 50]);
    assert_eq!(MapState::MyRobot.to_rgb(), [255, 50, 50]);
    assert_eq!(MapState::Explored.to_rgb(), [200, 200, 200]);
    assert_eq!(MapState::Unexplored.to_rgb(), [100, 100, 100]);
    assert_eq!(MapState::Frontier.to_rgb(), [255, 100, 255]);
    assert_eq!(MapState::Assigned.to_rgb(), [255, 255, 0]);
}
