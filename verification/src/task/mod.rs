//! Keyboard input intake.

pub mod keyboard;
