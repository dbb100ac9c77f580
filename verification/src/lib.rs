//! Code generator for FTC-style teleop programs.
//!
//! A robot configuration is a drivetrain subsystem plus any number of
//! auxiliary subsystems, each holding typed hardware components (DC motors,
//! servos).  Every component contributes text fragments to five ordered
//! emission phases: import lines, global declarations, initialization,
//! one-time loop setup, and the per-iteration loop body.  The assembler
//! stitches those fragments, phase by phase and always drivetrain first,
//! into one complete program text, deduplicating the import lines.
//! A small layout utility normalizes leading indentation for display.

pub mod app;
pub mod components;
pub mod emit;
pub mod layout;
pub mod lines;
pub mod subsystem;
