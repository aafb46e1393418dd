//! Client-side timing for networked real-time simulations: a jitter buffer for locally captured
//! inputs, a ledger of predicted inputs pruned by server acknowledgements over wrapping sequence
//! numbers, and a throttle that paces the simulation clock against buffered server data.

pub mod input_queue;
pub mod prediction;
pub mod throttle;
pub mod time;

pub use input_queue::InputQueue;
pub use prediction::PredictionQueue;
pub use throttle::throttle;
pub use time::{Duration, Instant};
