//! Recovers a peripheral / register / bit-field model from C headers that
//! describe memory-mapped hardware, and assembles it into an ordered
//! descriptor of the device.

pub mod text;
pub mod model;
pub mod foreign;
pub mod registry;
pub mod scan;
pub mod extract;
pub mod assemble;
