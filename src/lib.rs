//! Configuration store and session decisions for a small 3D-printing price
//! calculator: a flat `key = value` text format with one general section and
//! any number of filament sections, the choices of an interactive session,
//! and the receipt it writes.
pub mod config;
pub mod session;
pub mod store;
pub mod text;
