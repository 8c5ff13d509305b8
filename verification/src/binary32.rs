//! Single-precision arithmetic on bit patterns.
//!
//! Every quantity of the simulation is an IEEE 754 binary32 number. The operations here work on the
//! bit pattern with integers only and round to nearest, ties to even, so that all machines get the
//! same bits for the same inputs.

pub mod arithmetic;
pub mod encoding;
pub mod error;
pub mod functions;
pub mod laws;
pub mod order;
pub mod precision;
pub mod quotient;
pub mod root;
pub mod rounding;
