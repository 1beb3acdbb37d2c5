//! Heat-pump thermal analysis: the verified core.
pub mod text;
pub mod topics;
pub mod error;
pub mod time;
pub mod flux;
pub mod periods;
pub mod diagnostics;
pub mod operational;
pub mod history;
pub mod series;
pub mod dhw;
pub mod snapshot;
pub mod heating;
pub mod config;
pub mod geometry;
pub mod order;
pub mod influx;
pub mod digest;
pub mod charges;
pub mod queries;
pub mod draws;
pub mod samples;
