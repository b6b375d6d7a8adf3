//! Beadwork projects: grid geometry, the project hierarchy, edit history and plate layout.

pub mod geometry;
pub mod ordered;
pub mod model;
pub mod project;
pub mod beads;
pub mod hierarchy;
pub mod siblings;
pub mod validate;
pub mod legacy;
pub mod convert;
pub mod analysis;
pub mod structure;
pub mod editor;
pub mod plate;
pub mod workspace;
pub mod ibcad;
pub mod invariants;
pub mod keeps_valid;
pub mod laws;
pub mod listing;
pub mod text;
pub mod view3d;

pub use editor::{Command, Editor};
pub use geometry::{
    GridAxis, GridPosition, GridRotation, GridSize, OrthogonalOrientation, Placement, Plane,
};
pub use model::{
    Assembly, Bead, BeadInventory, Color, DomainError, Group, ObjectId, ObjectRef, OutputReadiness,
    OutputSettings, PageSize, Piece, Shape, StructuralWarning, VoxelObjectRef,
};
pub use plate::{GridPoint2d, PlateLayout};
pub use project::Project;
