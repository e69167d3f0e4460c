//! Order-sensitive gating pipelines: a sequence of unlock conditions is applied
//! to a payload on the way in, and the same sequence, in the same order, must
//! each report itself satisfied before the payload is let out again.

pub mod clock;
pub mod layer;
pub mod laws;
pub mod layers;
pub mod pipeline;

pub use crate::clock::current_time;
pub use crate::layer::{CryptoLayer, LayerError};
pub use crate::layers::{BiometricLock, LocationLock, Lock, TimeLock};
pub use crate::pipeline::CryptoPipeline;
