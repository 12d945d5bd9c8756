//! Elliptic-curve arithmetic over arbitrary-precision integers.
pub mod util;
pub mod curve_laws;
