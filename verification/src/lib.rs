//! A verified 2D incompressible-fluid solver ("stable fluids") on a square
//! grid. Field values are fixed-point numbers: an `i64` holds the value
//! times [`nums::SCALE`], and every cell write saturates at
//! [`nums::VMAX`]. The solver advances a velocity field and a density field
//! one tick at a time through diffusion, semi-Lagrangian advection,
//! pressure projection, boundary enforcement and density dissipation.

pub mod adv;
pub mod bnd;
pub mod disp;
pub mod laws;
pub mod lin;
pub mod nums;
pub mod proj;
pub mod sim;

pub use adv::advect;
pub use bnd::BoundaryKind;
pub use bnd::set_bnd;
pub use disp::disperse;
pub use lin::diffuse;
pub use nums::DISPERSION_DEFAULT;
pub use nums::NMAX;
pub use nums::PARAM_MAX;
pub use nums::SCALE;
pub use nums::VMAX;
pub use nums::ix;
pub use proj::project;
pub use sim::Simulation;
