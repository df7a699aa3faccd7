//! Exact evaluation of proximity measures between a 3D sample point and an
//! implicit surface drawn from a closed catalog of CSG-style primitives.
//!
//! All geometry is carried out over bounded integer coordinates, so every
//! formula in the catalog is exact and fully verified: square roots are
//! floor square roots, and quotients are floor quotients.

pub mod arith;
pub mod surface;
pub mod laws;

pub use surface::CSGSurface;
pub use surface::Point;
pub use surface::Vector;
