//! Local robot map: a single robot's grid view of a 2D coverage area.
//!
//! The map anchors a grid of labeled cells to the real world through an
//! offset and a per-axis resolution, translates between real-world and
//! grid-relative coordinates exactly, filters the grid by cell label, and
//! derives a grid from a polygonal region by rasterization.

mod cell_map;
mod coords;
mod local_map;
mod polygon_map;
mod rat;

pub use polygon_map::PolygonMap;
pub use polygon_map::base_cells;
pub use polygon_map::cell_in;
pub use polygon_map::overlay_all;
pub use polygon_map::point_in;
pub use polygon_map::poly_cols;
pub use polygon_map::poly_offset;
pub use polygon_map::poly_rows;

pub use local_map::LocalMap;
pub use local_map::Robot;
pub use local_map::same_geometry;
pub use local_map::stamp_cells;
pub use local_map::stamp_positions;

pub use cell_map::Cell;
pub use cell_map::CellMap;

pub use coords::AxisResolution;
pub use coords::Coords;
pub use coords::InternalLocation;
pub use coords::RatCoords;
pub use coords::RealWorldLocation;
pub use coords::coord_sized;
pub use coords::coords_sized;
pub use coords::coords_wf;
pub use coords::internal_of;
pub use coords::internal_sized;
pub use coords::lemma_re_anchor;
pub use coords::lemma_round_trip;
pub use coords::rat_coords_eq;
pub use coords::resolution_sized;
pub use coords::resolution_wf;
pub use coords::world_of;
pub use rat::Rat;
pub use rat::Real;
pub use rat::rat_abs;
pub use rat::rat_add;
pub use rat::rat_div;
pub use rat::rat_eq;
pub use rat::rat_floor;
pub use rat::rat_from_int;
pub use rat::rat_le;
pub use rat::rat_lt;
pub use rat::rat_mul;
pub use rat::rat_sub;

use vstd::prelude::*;

verus! {

/// Visualize a map. Implementors turn the map into an image value of
/// their choosing; rendering is outside the verified core.
pub trait Visualize {
    /// Type of the image.
    type ImageType;

    /// Convert the map to an image.
    fn as_image(&self) -> Self::ImageType;
}

/// Transparently translate between real-world coordinates and grid
/// indices. Only real-world coordinates cross this interface.
pub trait Location {
    /// Retrieve the value at the given location.
    fn get_location(&self, coord: &RealWorldLocation) -> Result<MapState, LocationError>;

    /// Update the given location in the map with a new value.
    fn set_location(&mut self, coord: &RealWorldLocation, value: MapState) -> Result<
        (),
        LocationError,
    >;
}

/// Retrieve a subarea of the map based on a condition.
pub trait Mask {
    /// All cells whose label satisfies the filter.
    fn get_map_region<F: Fn(MapState) -> bool>(&self, filter: F) -> Vec<Cell>;
}

/// Retrieve a subarea of the map based on a label.
pub trait MaskMapState {
    /// All cells bearing the given state.
    fn get_map_state(&self, state: MapState) -> Vec<Cell>;
}

/// Partition a map with an injected algorithm: a pure function from the
/// map to a new map of the same type, invoked at most once per request.
pub trait Partition<A>: Sized {
    /// Consume the map and return the partitioned version of it.
    fn partition(self, algorithm: A) -> Result<Self, PartitionError>;
}

/// Failure of a partitioning request.
#[derive(Debug, PartialEq, Eq, Structural, Clone, Copy)]
pub enum PartitionError {
    /// No algorithm was provided for partitioning.
    NoPartitioningAlgorithm,
    /// No (suitable) map was provided for partitioning.
    NoMap,
}

/// Failure to build a polygon map.
#[derive(Debug, PartialEq, Eq, Structural, Clone, Copy)]
pub enum PolygonMapError {
    /// At least 3 vertices are needed to form a proper polygon.
    NotEnoughVertices,
}

/// Failure of a location access.
#[derive(Debug, PartialEq, Eq, Structural, Clone, Copy)]
pub enum LocationError {
    /// The requested location is outside the map area and cannot be
    /// accessed.
    OutOfMap,
}

/// Describe states of locations in the map.
#[derive(PartialEq, Eq, Structural, Copy, Clone, Debug)]
pub enum MapState {
    /// The location is outside the map region.
    OutOfMap,
    /// The location is occupied by another robot.
    OtherRobot,
    /// The location is occupied by the current robot.
    MyRobot,
    /// The location has already been explored by some robot.
    Explored,
    /// The location has not been explored yet.
    Unexplored,
    /// The location is a frontier between explored and unexplored space.
    Frontier,
    /// The location is assigned to the current robot.
    Assigned,
}

impl MapState {
    /// Grayscale value used by external renderers for this state.
    pub fn to_luma(&self) -> (r: u8)
        ensures
            r == match *self {
                MapState::OutOfMap => 0u8,
                MapState::OtherRobot => 40u8,
                MapState::MyRobot => 50u8,
                MapState::Explored => 180u8,
                MapState::Unexplored => 120u8,
                MapState::Frontier => 220u8,
                MapState::Assigned => 255u8,
            },
    {
        match *self {
            MapState::OutOfMap => 0u8,
            MapState::OtherRobot => 40u8,
            MapState::MyRobot => 50u8,
            MapState::Explored => 180u8,
            MapState::Unexplored => 120u8,
            MapState::Frontier => 220u8,
            MapState::Assigned => 255u8,
        }
    }

    /// RGB color used by external renderers for this state.
    pub fn to_rgb(&self) -> (r: [u8; 3])
        ensures
            r@ == match *self {
                MapState::OutOfMap => seq![0u8, 0u8, 0u8],
                MapState::OtherRobot => seq![50u8, 255u8, 50u8],
                MapState::MyRobot => seq![255u8, 50u8, 50u8],
                MapState::Explored => seq![200u8, 200u8, 200u8],
                MapState::Unexplored => seq![100u8, 100u8, 100u8],
                MapState::Frontier => seq![255u8, 100u8, 255u8],
                MapState::Assigned => seq![255u8, 255u8, 0u8],
            },
    {
        let r: [u8; 3] = match *self {
            MapState::OutOfMap => [0u8, 0u8, 0u8],
            MapState::OtherRobot => [50u8, 255u8, 50u8],
            MapState::MyRobot => [255u8, 50u8, 50u8],
            MapState::Explored => [200u8, 200u8, 200u8],
            MapState::Unexplored => [100u8, 100u8, 100u8],
            MapState::Frontier => [255u8, 100u8, 255u8],
            MapState::Assigned => [255u8, 255u8, 0u8],
        };
        proof {
            assert(r@ =~= match *self {
                MapState::OutOfMap => seq![0u8, 0u8, 0u8],
                MapState::OtherRobot => seq![50u8, 255u8, 50u8],
                MapState::MyRobot => seq![255u8, 50u8, 50u8],
                MapState::Explored => seq![200u8, 200u8, 200u8],
                MapState::Unexplored => seq![100u8, 100u8, 100u8],
                MapState::Frontier => seq![255u8, 100u8, 255u8],
                MapState::Assigned => seq![255u8, 255u8, 0u8],
            });
        }
        r
    }
}

} // verus!
