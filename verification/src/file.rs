//! How values are written in the configuration file.

pub mod dhms_duration;
pub mod dhms_duration_option;
