//! Core of an interactive terminal tool for curated Linux maintenance
//! actions: a build-time script transclusion pipeline, a system
//! identification probe with package-manager resolution, and the state
//! machine of the confirmation dialog that gates execution.

pub mod confirmation;
pub mod strutil;
pub mod systeminfo;
pub mod transclude;
