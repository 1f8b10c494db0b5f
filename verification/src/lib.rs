//! Construction of the DEEP composition polynomial: the single low-degree
//! polynomial that binds execution-trace polynomials and constraint
//! composition polynomials together at an out-of-domain challenge point.
pub mod composer;
pub mod field;
pub mod laws;
pub mod parallel;
pub mod poly;
