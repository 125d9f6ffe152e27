//! Verified core of an overlay that lays open application windows out on a
//! canvas of screens: text helpers for the window system, the workspace that
//! tiles windows over a grid of screens, and the overlay's fade and click logic.

pub mod text;
pub mod tiling;
pub mod workspace;
pub mod overlay;
