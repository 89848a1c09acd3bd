pub mod batch;
pub mod calendar;
pub mod cli;
pub mod configuration;
pub mod model;
pub mod store;
pub mod usage;
