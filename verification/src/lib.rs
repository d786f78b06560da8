//! Verified core of the CrimeSim Bridge: recovery decisions, update and context
//! policies, bounded worker output, and the validation rules that gate promotion.
pub mod capture;
pub mod text;
pub mod journal;
pub mod recovery;
pub mod digest;
pub mod context;
pub mod project;
pub mod worker;
pub mod jobs;
pub mod validation;
pub mod update;
pub mod results;
pub mod package;
pub mod status;
pub mod runtime;
pub mod platform;
pub mod names;
