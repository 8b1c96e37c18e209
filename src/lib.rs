pub mod counters;
pub mod history;
pub mod matrix;
pub mod metrics;
