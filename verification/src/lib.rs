//! Sine and cosine by CORDIC: a unit vector is turned toward the target angle
//! by a fixed sequence of ever smaller rotations, each made of two shifts and
//! two additions, and is then brought back to unit length by a gain
//! correction from a table.
//!
//! Every number is held in fixed point. The angle asked for, the
//! coordinates, the sines and the cosines are signed 64-bit multiples of
//! 10^-18, the unit. The angles of the table and the running angle of a
//! rotation are held in sixteenths of that unit, so that all 64 rotations
//! differ.
//!
//! - [`tables`] holds the rotation angles and the gain corrections, and what
//!   is proved of them.
//! - [`rotation`] defines what a rotation computes, step by step.
//! - [`engine`] is the executable rotation, with its two entry points.
//! - [`norm`] proves that the results lie on the unit circle, up to rounding.
//! - [`convergence`] proves that the rotations close in on the target angle.
//! - [`stats`] counts the rotations that given angles and random angles take.

pub mod convergence;
pub mod engine;
pub mod fixed;
pub mod norm;
pub mod rotation;
pub mod stats;
pub mod tables;

pub use engine::{sincos, sincos_faster, BudgetError};
pub use fixed::SCALE;
pub use tables::{precompute, Tables, ANGLE_PARTS, ANGLE_TABLE, GAIN_TABLE, MAX_N};
