//! A stand-in execution engine for quantum circuits.
//!
//! Gates are never applied. Measurements and readouts are answered with
//! random values that have the type and the dimensions of a real answer, so
//! that software built on top of a simulator can be exercised without one.
//!
//! Real numbers are carried as IEEE 754 binary64 bit patterns (see
//! [`values`]): this crate moves them between registers and never computes
//! with them. Real-valued samples are therefore supplied by the caller.

pub mod values;
pub mod register_map;
pub mod operation;
pub mod random;
pub mod matrix;
pub mod composite;
pub mod synthesis;
pub mod registers;
pub mod interface;
pub mod backend;

pub use backend::Backend;
pub use interface::{call_circuit, call_operation};
pub use operation::{BackendError, Operation};
pub use register_map::RegisterMap;
pub use registers::Registers;
pub use synthesis::{demand, Demand, Sample, Synthesized};
pub use values::{Complex, Real};
