pub mod config;
pub mod detectors;
pub mod numeric_host;
pub mod patterns;
pub mod request;
pub mod scan;
pub mod score;
pub mod sources;
