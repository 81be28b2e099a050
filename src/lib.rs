//! A status-bar temperature source: the configuration resolver, the selection
//! of temperature-input readings out of a sensor forest, and the decisions of
//! the poll loop.

pub mod config;
pub mod readings;
pub mod poll;
