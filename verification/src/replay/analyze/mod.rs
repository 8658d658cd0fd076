pub mod model;
pub mod data;
pub mod position;
pub mod metrics;
pub mod walk;
pub mod labels;
pub mod findings;
pub mod maps;
