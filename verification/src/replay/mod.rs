pub mod config;
pub mod analyze;
pub mod postgame;
pub mod extract;
pub mod parsed;
pub mod api;
pub mod manifest;
pub mod seed;
pub mod pipeline;
pub mod archive;
