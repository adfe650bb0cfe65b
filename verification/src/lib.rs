//! The verified core of a tabbed, modal terminal emulator.
pub mod app;
pub mod clock;
pub mod config;
pub mod installer;
pub mod offsets;
pub mod session;
pub mod text;
