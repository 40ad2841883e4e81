//! Battery and charger.
pub mod probe;
pub mod telemetry;
