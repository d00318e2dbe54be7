//! A chain of stateful stages that filter and validate timestamped sensor
//! readings, with the sources that produce them.
pub mod clock;
pub mod fixed;
pub mod process;
pub mod sensor;
