use local_robot_map::AxisResolution;
use local_robot_map::Coords;
use local_robot_map::InternalLocation;
use local_robot_map::Real;
use local_robot_map::RealWorldLocation;

fn r(n: i128, d: i128) -> Real {
    Real::new(n, d)
}

fn c(x: i128, y: i128, z: i128) -> Coords {
    Coords::new(r(x, 1), r(y, 1), r(z, 1))
}

fn res1() -> AxisResolution {
    AxisResolution::uniform(r(1, 1))
}

/// A bounding box around the locations below has its origin at
/// `(-1, -1, -1)`; that is the offset into internal coordinates.
#[test]
fn external_to_internal_coords() {
    let external_locations = vec![
        RealWorldLocation::new(c(-1, -1, -1)),
        RealWorldLocation::new(c(0, 0, 0)),
        RealWorldLocation::new(c(1, 1, 1)),
    ];

    let internal_locations: Vec<InternalLocation> = external_locations
        .into_iter()
        .map(|loc| loc.into_internal(c(-1, -1, -1), res1()))
        .collect();

    assert_eq!(
        internal_locations
            .iter()
            .map(|iloc| iloc.location())
            .collect::<Vec<Coords>>(),
        vec![c(0, 0, 0), c(1, 1, 1), c(2, 2, 2)]
    )
}

/// Same example as before, but from the internal frame back to the
/// external one.
#[test]
fn internal_to_external_coords() {
    let offset = c(-1, -1, -1);
    let internal_locations: Vec<InternalLocation> = vec![
        InternalLocation::new(c(0, 0, 0), offset, res1()),
        InternalLocation::new(c(1, 1, 1), offset, res1()),
        InternalLocation::new(c(2, 2, 2), offset, res1()),
    ];

    let external_locations: Vec<RealWorldLocation> = internal_locations
        .into_iter()
        .map(|loc| loc.into_real_world())
        .collect();

    assert_eq!(
        external_locations
            .iter()
            .map(|loc| loc.location())
            .collect::<Vec<Coords>>(),
        vec![c(-1, -1, -1), c(0, 0, 0), c(1, 1, 1)]
    )
}

/// Re-anchoring to a new offset is transparent: one simply provides the
/// new offset in the real-world frame.
#[test]
fn internal_new_offset() {
    let internal_locations: Vec<InternalLocation> = vec![
        RealWorldLocation::new(c(-1, -1, -1)),
        RealWorldLocation::new(c(0, 0, 0)),
        RealWorldLocation::new(c(1, 1, 1)),
    ]
    .into_iter()
    .map(|loc| loc.into_internal(c(-1, -1, -1), res1()))
    .collect();

    let offset_internal_locations: Vec<InternalLocation> = internal_locations
        .into_iter()
        .map(|iloc| iloc.change_offset(c(-2, -2, -2)))
        .collect();

    assert_eq!(
        offset_internal_locations
            .iter()
            .map(|iloc| iloc.location())
            .collect::<Vec<Coords>>(),
        vec![c(1, 1, 1), c(2, 2, 2), c(3, 3, 3)]
    )
}

#[test]
fn internal_new_offset_matches_external() {
    let internal_locations: Vec<InternalLocation> = vec![
        RealWorldLocation::new(c(-1, -1, -1)),
        RealWorldLocation::new(c(0, 0, 0)),
        RealWorldLocation::new(c(1, 1, 1)),
    ]
    .into_iter()
    .map(|loc| loc.into_internal(c(-1, -1, -1), res1()))
    .collect();

    let offset_internal_locations: Vec<InternalLocation> = internal_locations
        .into_iter()
        .map(|iloc| iloc.change_offset(c(-2, -2, -2)))
        .collect();

    let external_locations: Vec<RealWorldLocation> = offset_internal_locations
        .into_iter()
        .map(|loc| loc.into_real_world())
        .collect();

    assert_eq!(
        external_locations
            .iter()
            .map(|loc| loc.location())
            .collect::<Vec<Coords>>(),
        vec![c(-1, -1, -1), c(0, 0, 0), c(1, 1, 1)]
    )
}

/// The round trip is exact for fractional values and resolutions too.
#[test]
fn round_trip_fractional() {
    let p = RealWorldLocation::from_xyz(r(-7165_1137, 10000), r(1426, 100), r(3, 7));
    let offset = Coords::new(r(-126_83, 100), r(1, 3), r(0, 1));
    let resolution = AxisResolution::new(r(7, 1), r(3, 1), r(1, 1));
    let back = p
        .into_internal(offset, resolution)
        .into_real_world();
    assert_eq!(back.location(), p.location());
}

/// Re-anchoring twice loses nothing either.
#[test]
fn re_anchor_fractional() {
    let p = RealWorldLocation::from_xyz(r(15, 10), r(-1, 7), r(2, 1));
    let o1 = Coords::new(r(-1, 2), r(3, 4), r(0, 1));
    let o2 = Coords::new(r(5, 3), r(-2, 9), r(1, 1));
    let resolution = AxisResolution::new(r(2, 1), r(5, 2), r(1, 1));
    let back = p
        .into_internal(o1, resolution)
        .change_offset(o2)
        .into_real_world();
    assert_eq!(back.location(), p.location());
}

/// Values are compared by their mathematical value, however written.
#[test]
fn scalar_reduction() {
    assert_eq!(r(15, 10), r(3, 2));
    assert_eq!(r(-14, -4), r(7, 2));
    assert_eq!(r(0, 5), r(0, 1));
}

/// Per-axis distances are exact.
#[test]
fn axis_distances() {
    let p1 = c(0, 0, 0);
    let p2 = Coords::new(r(1, 1), r(2, 1), r(3, 1));
    assert_eq!(p1.distance_x(&p2), r(1, 1));
    assert_eq!(p1.distance_y(&p2), r(2, 1));
    assert_eq!(p1.distance_z(&p2), r(3, 1));
    assert_eq!(p2.distance_x(&p1), r(1, 1));
}
