//! Tile IR: the in-memory representation, its bytecode format and the host
//! side rules around compiling and running tile kernels.
pub mod bytecode;
pub mod device;
pub mod driver;
pub mod driver_laws;
pub mod error;
pub mod frontend;
pub mod ir;
pub mod text;
pub mod text_laws;
