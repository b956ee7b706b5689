//! BlackBox vault core: on-disk layout codecs, block allocation, key
//! schedule, object sealing and the pure parts of the hardware bindings,
//! each with a machine-checked contract.

pub mod config;
pub mod error;
pub mod space;
pub mod codec;
pub mod layout;
pub mod primitives;
pub mod memory;
pub mod types;
pub mod util;
pub mod hsp;
pub mod engine;
pub mod vault;
pub mod shell;
pub mod log;
pub mod text;
pub mod machine;
