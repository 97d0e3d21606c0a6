use local_robot_map::AxisResolution;
use local_robot_map::CellMap;
use local_robot_map::MapState;
use local_robot_map::PolygonMap;
use local_robot_map::PolygonMapError;
use local_robot_map::Real;
use local_robot_map::RealWorldLocation;

fn r(n: i128, d: i128) -> Real {
    Real::new(n, d)
}

fn p(x: i128, y: i128, z: i128) -> RealWorldLocation {
    RealWorldLocation::from_xyz(r(x, 1), r(y, 1), r(z, 1))
}

// The rasterized triangle patterns below follow the cell-membership
// rule: a cell is inside exactly when its center lies in the closed
// polygon.
#[test]
fn polygon_map_to_cell_map_positive() {
    let p1 = p(0, 0, 0);
    let p2 = p(4, 4, 0);
    let p3 = p(8, 0, 0);

    let oom = MapState::OutOfMap;
    let une = MapState::Unexplored;

    let resolution = AxisResolution::uniform(r(1, 1));
    let cellmap: CellMap = PolygonMap::new(vec![p1, p2, p3])
        .unwrap()
        .to_cell_map(resolution);

    assert_eq!(cellmap.width(), 8);
    assert_eq!(cellmap.height(), 4);

    assert_eq!(
        cellmap.cells(),
        &vec![
            une, une, une, une, une, une, une, une, //
            oom, une, une, une, une, une, une, oom, //
            oom, oom, une, une, une, une, oom, oom, //
            oom, oom, oom, une, une, oom, oom, oom, //
        ]
    )
}

#[test]
fn polygon_map_to_cell_map_negative() {
    let p1 = p(0, -2, 0);
    let p2 = p(-2, 0, 0);
    let p3 = p(-4, -2, 0);

    let oom = MapState::OutOfMap;
    let une = MapState::Unexplored;

    let resolution = AxisResolution::uniform(r(2, 1));
    let cellmap: CellMap = PolygonMap::new(vec![p1, p2, p3])
        .unwrap()
        .to_cell_map(resolution);

    assert_eq!(cellmap.width(), 8);
    assert_eq!(cellmap.height(), 4);

    assert_eq!(
        cellmap.cells(),
        &vec![
            une, une, une, une, une, une, une, une, //
            oom, une, une, une, une, une, une, oom, //
            oom, oom, une, une, une, une, oom, oom, //
            oom, oom, oom, une, une, oom, oom, oom, //
        ]
    )
}

#[test]
fn polygon_map_to_cell_map_partly_negative() {
    let p1 = p(-2, 0, 0);
    let p2 = p(0, 2, 0);
    let p3 = p(2, 0, 0);

    let oom = MapState::OutOfMap;
    let une = MapState::Unexplored;

    let resolution = AxisResolution::uniform(r(2, 1));
    let cellmap: CellMap = PolygonMap::new(vec![p1, p2, p3])
        .unwrap()
        .to_cell_map(resolution);

    assert_eq!(cellmap.width(), 8);
    assert_eq!(cellmap.height(), 4);

    assert_eq!(
        cellmap.cells(),
        &vec![
            une, une, une, une, une, une, une, une, //
            oom, une, une, une, une, une, une, oom, //
            oom, oom, une, une, une, une, oom, oom, //
            oom, oom, oom, une, une, oom, oom, oom, //
        ]
    )
}

#[test]
fn polygon_too_few_vertices() {
    assert_eq!(
        PolygonMap::new(vec![p(0, 0, 0), p(1, 1, 0)]).unwrap_err(),
        PolygonMapError::NotEnoughVertices
    );
    assert!(PolygonMap::new(vec![p(0, 0, 0), p(1, 1, 0), p(2, 0, 0)]).is_ok());
}

#[test]
fn polygon_explored_too_few_vertices() {
    let main = vec![p(0, 0, 0), p(4, 4, 0), p(8, 0, 0)];
    let explored = Some(vec![vec![p(1, 1, 0), p(2, 2, 0)]]);
    assert_eq!(
        PolygonMap::new_explored(main, explored).unwrap_err(),
        PolygonMapError::NotEnoughVertices
    );
}

/// An explored sub-polygon marks its cells `Explored` where they fall
/// inside the main grid, and is silently dropped where it does not.
#[test]
fn polygon_explored_overlay() {
    let main = vec![p(0, 0, 0), p(0, 4, 0), p(4, 4, 0), p(4, 0, 0)];
    // The explored square pokes out of the main square on the left:
    // only its right half lands on the main grid.
    let explored = vec![p(-2, 0, 0), p(-2, 2, 0), p(2, 2, 0), p(2, 0, 0)];
    let resolution = AxisResolution::uniform(r(1, 1));
    let cellmap = PolygonMap::new_explored(main, Some(vec![explored]))
        .unwrap()
        .to_cell_map(resolution);

    assert_eq!(cellmap.width(), 4);
    assert_eq!(cellmap.height(), 4);

    let exp = MapState::Explored;
    let une = MapState::Unexplored;
    assert_eq!(
        cellmap.cells(),
        &vec![
            exp, exp, une, une, //
            exp, exp, une, une, //
            une, une, une, une, //
            une, une, une, une, //
        ]
    );
}
