//! Targeting and steering core of a 2D arena of faction-controlled ships.
//!
//! Positions, headings, angles and forces are fixed-point integers: the
//! simulation loop around the library converts its engine values into these
//! units and back (see `steering::Configuration` for the units).
pub mod control;
pub mod faction;
pub mod geometry;
pub mod steering;
pub mod targeting;
