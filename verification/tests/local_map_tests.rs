use local_robot_map::AxisResolution;
use local_robot_map::CellMap;
use local_robot_map::LocalMap;
use local_robot_map::LocationError;
use local_robot_map::MapState;
use local_robot_map::Real;
use local_robot_map::RealWorldLocation;
use local_robot_map::Robot;

fn r(n: i128, d: i128) -> Real {
    Real::new(n, d)
}

fn xyz(x: (i128, i128), y: (i128, i128), z: (i128, i128)) -> RealWorldLocation {
    RealWorldLocation::from_xyz(r(x.0, x.1), r(y.0, y.1), r(z.0, z.1))
}

fn p(x: i128, y: i128, z: i128) -> RealWorldLocation {
    xyz((x, 1), (y, 1), (z, 1))
}

fn make_map_fixture() -> CellMap {
    let oom = MapState::OutOfMap;
    let otr = MapState::OtherRobot;
    let myr = MapState::MyRobot;
    let exp = MapState::Explored;
    let une = MapState::Unexplored;
    let fnt = MapState::Frontier;
    let ass = MapState::Assigned;
    CellMap::from_raster(
        vec![
            oom, otr, myr, //
            fnt, une, exp, //
            ass, oom, otr, //
            myr, une, ass, //
            une, exp, fnt, //
        ],
        5,
        3,
        AxisResolution::uniform(r(1, 1)),
        local_robot_map::Coords::new(r(0, 1), r(0, 1), r(0, 1)),
    )
}

fn make_random_local_map(
    my_position: RealWorldLocation,
    other_positions: Vec<RealWorldLocation>,
) -> LocalMap<()> {
    let map = make_map_fixture();

    LocalMap::new_noexpand(
        map,
        Robot::new(my_position, ()),
        other_positions
            .into_iter()
            .map(|loc| Robot::new(loc, ()))
            .collect(),
    )
    .unwrap()
}

fn make_local_map(
    my_position: RealWorldLocation,
    other_positions: Vec<RealWorldLocation>,
) -> LocalMap<()> {
    LocalMap::new_noexpand(
        CellMap::new(
            p(0, 0, 0),
            p(10, 10, 10),
            AxisResolution::uniform(r(1, 1)),
        ),
        Robot::new(my_position, ()),
        other_positions
            .into_iter()
            .map(|loc| Robot::new(loc, ()))
            .collect(),
    )
    .unwrap()
}

fn get_mapstate_pos_from_map(map: &CellMap, state: MapState) -> Vec<RealWorldLocation> {
    map.get_map_state(state)
        .iter()
        .map(|cell| *cell.location())
        .collect()
}

#[test]
fn new_noexpand_robots_in_map() {
    let lmap: LocalMap<()> = {
        let my_position = p(-4, -4, -4);
        let other_positions = vec![p(-3, -3, -3), p(-2, -2, -2), p(-1, -1, -1)];
        LocalMap::new_noexpand(
            CellMap::new(p(-5, -5, -5), p(5, 5, 5), AxisResolution::uniform(r(1, 1))),
            Robot::new(my_position, ()),
            other_positions
                .into_iter()
                .map(|loc| Robot::new(loc, ()))
                .collect(),
        )
    }
    .expect("No location error");

    assert_eq!((lmap.map().width(), lmap.map().height()), (10, 10))
}

#[test]
fn new_noexpand_myrobot_out_of_map() {
    let lmap = {
        let my_position = p(6, 6, 6);
        let other_positions = vec![p(-3, -3, -3), p(-2, -2, -2), p(-1, -1, -1)];
        LocalMap::new_noexpand(
            CellMap::new(p(-5, -5, -5), p(5, 5, 5), AxisResolution::uniform(r(1, 1))),
            Robot::new(my_position, ()),
            other_positions
                .into_iter()
                .map(|loc| Robot::new(loc, ()))
                .collect(),
        )
    };

    assert_eq!(lmap.unwrap_err(), (LocationError::OutOfMap, p(6, 6, 6)))
}

#[test]
fn new_noexpand_other_robot_out_of_map() {
    let lmap = {
        let my_position = p(-4, -4, -4);
        let other_positions = vec![p(-3, -3, -3), p(-6, -6, -6), p(-1, -1, -1)];
        LocalMap::new_noexpand(
            CellMap::new(p(-5, -5, -5), p(5, 5, 5), AxisResolution::uniform(r(1, 1))),
            Robot::new(my_position, ()),
            other_positions
                .into_iter()
                .map(|loc| Robot::new(loc, ()))
                .collect(),
        )
    };

    assert_eq!(lmap.unwrap_err(), (LocationError::OutOfMap, p(-6, -6, -6)))
}

#[test]
fn new_noexpand_multiple_other_robot_out_of_map() {
    let lmap = {
        let my_position = p(-4, -4, -4);
        let other_positions = vec![p(7, 7, 7), p(-2, -2, -2), p(-9, -9, -9)];
        LocalMap::new_noexpand(
            CellMap::new(p(-5, -5, -5), p(5, 5, 5), AxisResolution::uniform(r(1, 1))),
            Robot::new(my_position, ()),
            other_positions
                .into_iter()
                .map(|loc| Robot::new(loc, ()))
                .collect(),
        )
    };

    assert_eq!(lmap.unwrap_err(), (LocationError::OutOfMap, p(7, 7, 7)))
}

#[test]
fn new_expand_robots_in_map() {
    let map: LocalMap<()> = {
        let my_position = p(-4, -4, -4);
        let other_positions = vec![p(-3, -3, -3), p(-2, -2, -2), p(-1, -1, -1)];
        LocalMap::new_expand(
            CellMap::new(p(-5, -5, -5), p(5, 5, 5), AxisResolution::uniform(r(1, 1))),
            my_position,
            other_positions,
        )
    };

    assert_eq!((map.map().width(), map.map().height()), (10, 10))
}

#[test]
fn new_expand_robot_right() {
    let map: LocalMap<()> = {
        let my_position = xyz((1184, 100), (-4, 1), (-4, 1));
        let other_positions = vec![p(-3, -3, -3), p(-2, -2, -2), p(-1, -1, -1)];
        LocalMap::new_expand(
            CellMap::new(p(-5, -5, -5), p(5, 5, 5), AxisResolution::uniform(r(1, 1))),
            my_position,
            other_positions,
        )
    };

    assert_eq!((map.map().width(), map.map().height()), (16, 10))
}

#[test]
fn new_expand_robot_right_up() {
    let map: LocalMap<()> = {
        let my_position = p(-4, -4, -4);
        let other_positions = vec![
            p(-3, -3, -3),
            xyz((847, 100), (1208, 100), (-2, 1)),
            p(-1, -1, -1),
        ];
        LocalMap::new_expand(
            CellMap::new(p(-5, -5, -5), p(5, 5, 5), AxisResolution::uniform(r(1, 1))),
            my_position,
            other_positions,
        )
    };

    assert_eq!((map.map().width(), map.map().height()), (13, 17))
}

#[test]
fn new_expand_robot_up() {
    let map: LocalMap<()> = {
        let my_position = p(-4, -4, -4);
        let other_positions = vec![p(-3, -3, -3), p(-2, -2, -2), p(-1, 9, -1)];
        LocalMap::new_expand(
            CellMap::new(p(-5, -5, -5), p(5, 5, 5), AxisResolution::uniform(r(1, 1))),
            my_position,
            other_positions,
        )
    };

    assert_eq!((map.map().width(), map.map().height()), (10, 14))
}

#[test]
fn new_expand_robot_left_up() {
    let map: LocalMap<()> = {
        let my_position = p(-4, -4, -4);
        let other_positions = vec![
            xyz((-687, 100), (7, 1), (-3, 1)),
            p(-2, -2, -2),
            p(-1, -1, -1),
        ];
        LocalMap::new_expand(
            CellMap::new(p(-5, -5, -5), p(5, 5, 5), AxisResolution::uniform(r(1, 1))),
            my_position,
            other_positions,
        )
    };

    assert_eq!((map.map().width(), map.map().height()), (12, 12))
}

#[test]
fn new_expand_robot_left() {
    let map: LocalMap<()> = {
        let my_position = p(-9, -4, -4);
        let other_positions = vec![p(-3, -3, -3), p(-2, -2, -2), p(-1, -1, -1)];
        LocalMap::new_expand(
            CellMap::new(p(-5, -5, -5), p(5, 5, 5), AxisResolution::uniform(r(1, 1))),
            my_position,
            other_positions,
        )
    };

    assert_eq!((map.map().width(), map.map().height()), (14, 10))
}

#[test]
fn new_expand_robot_left_down() {
    let map: LocalMap<()> = {
        let my_position = p(-4, -4, -4);
        let other_positions = vec![
            p(-3, -3, -3),
            p(-2, -2, -2),
            xyz((-892, 100), (-635, 100), (-1, 1)),
        ];
        LocalMap::new_expand(
            CellMap::new(p(-5, -5, -5), p(5, 5, 5), AxisResolution::uniform(r(1, 1))),
            my_position,
            other_positions,
        )
    };

    assert_eq!((map.map().width(), map.map().height()), (14, 12))
}

#[test]
fn new_expand_robot_down() {
    let map: LocalMap<()> = {
        let my_position = p(-4, -8, -4);
        let other_positions = vec![p(-3, -3, -3), p(-2, -2, -2), p(-1, -1, -1)];
        LocalMap::new_expand(
            CellMap::new(p(-5, -5, -5), p(5, 5, 5), AxisResolution::uniform(r(1, 1))),
            my_position,
            other_positions,
        )
    };

    assert_eq!((map.map().width(), map.map().height()), (10, 13))
}

#[test]
fn new_expand_robot_right_down() {
    let map: LocalMap<()> = {
        let my_position = p(-4, -4, -4);
        let other_positions = vec![p(-3, -3, -3), p(8, -8, -2), p(-1, -1, -1)];
        LocalMap::new_expand(
            CellMap::new(p(-5, -5, -5), p(5, 5, 5), AxisResolution::uniform(r(1, 1))),
            my_position,
            other_positions,
        )
    };

    assert_eq!((map.map().width(), map.map().height()), (13, 13))
}

#[test]
fn get_my_position() {
    let my_position = p(0, 0, 0);
    let other_positions = vec![];

    let lmap = make_local_map(my_position, other_positions);
    let my_map_pos: Vec<RealWorldLocation> =
        get_mapstate_pos_from_map(lmap.map(), MapState::MyRobot);

    assert_eq!(
        my_map_pos.len(),
        1,
        "There should only be 1 position for my robot"
    );
    assert_eq!(lmap.my_position(), &my_map_pos[0]);
}

#[test]
fn create_local_map_other_positions_no_robots() {
    let my_position = p(0, 0, 0);
    let other_positions = vec![];

    let lmap = make_local_map(my_position, other_positions);
    let positions = get_mapstate_pos_from_map(lmap.map(), MapState::OtherRobot);

    assert_eq!(positions.len(), 0, "There should only be no other robots");
    assert_eq!(lmap.other_positions(), positions);
}

#[test]
fn create_local_map_other_positions_one_robots() {
    let my_position = p(0, 0, 0);
    let other_positions = vec![p(1, 1, 0)];

    let lmap = make_local_map(my_position, other_positions);
    let positions = get_mapstate_pos_from_map(lmap.map(), MapState::OtherRobot);

    assert_eq!(positions.len(), 1, "There should only be 1 other robots");
    assert_eq!(lmap.other_positions(), positions);
}

#[test]
fn create_local_map_other_positions_multiple_robots() {
    let my_position = p(0, 0, 0);
    let other_positions = vec![p(1, 1, 0), p(2, 2, 0), p(3, 3, 0)];

    let lmap = make_local_map(my_position, other_positions);
    let positions = get_mapstate_pos_from_map(lmap.map(), MapState::OtherRobot);

    assert_eq!(positions.len(), 3, "There should only be 3 other robots");
    assert_eq!(lmap.other_positions(), positions);
}

#[test]
fn partition_map_closure() {
    let lmap = make_random_local_map(p(0, 0, 0), vec![]);

    let _partitioned_map = lmap.partition(|map| map).expect("No error partitioning");
}

#[test]
fn partition_map_function() {
    let lmap = make_random_local_map(p(0, 0, 0), vec![]);

    fn algorithm(map: LocalMap<()>) -> LocalMap<()> {
        map
    }
    let _partitioned_map = lmap.partition(algorithm).expect("No error partitioning");
}

#[test]
fn partition_map_algorithm_is_transferred() {
    let lmap = make_random_local_map(p(0, 0, 0), vec![]);

    fn algorithm(map: LocalMap<()>) -> LocalMap<()> {
        map
    }

    let _partitioned_map = lmap.partition(algorithm).expect("No error partitioning");
    let map_algorithm = algorithm;
    assert_eq!(map_algorithm as usize, algorithm as usize);
}

#[test]
fn call_map_trait_function_mask_mapstate() {
    let lmap = make_random_local_map(p(0, 0, 0), vec![]);
    lmap.map().get_map_state(MapState::Unexplored);
}

/// A strict construction that fails leaves later robots unplaced: the
/// error names the first offending position.
#[test]
fn new_noexpand_reports_first_failure() {
    let map = CellMap::new(p(0, 0, 0), p(10, 10, 0), AxisResolution::uniform(r(1, 1)));
    let out = LocalMap::new_noexpand(
        map,
        Robot::new(p(11, 0, 0), ()),
        vec![Robot::new(p(1, 1, 0), ())],
    );
    assert_eq!(out.unwrap_err(), (LocationError::OutOfMap, p(11, 0, 0)));
}

/// The tolerant construction records robots whose positions cannot be
/// marked on the grid.
#[test]
fn new_noexpand_nooutofmap_skips() {
    let map = CellMap::new(p(0, 0, 0), p(10, 10, 0), AxisResolution::uniform(r(1, 1)));
    let lmap = LocalMap::new_noexpand_nooutofmap(
        map,
        Robot::new(p(11, 0, 0), ()),
        vec![Robot::new(p(1, 1, 0), ())],
    )
    .unwrap();
    assert_eq!(
        get_mapstate_pos_from_map(lmap.map(), MapState::MyRobot).len(),
        0
    );
    assert_eq!(
        get_mapstate_pos_from_map(lmap.map(), MapState::OtherRobot).len(),
        1
    );
    assert_eq!(lmap.my_position(), &p(11, 0, 0));
}
