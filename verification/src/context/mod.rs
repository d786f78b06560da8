//! Task-scoped, read-only game handoffs: path policy, the game module registry and
//! the selection of what a context pack carries.
pub mod errors;
pub mod policy;
pub mod registry;
pub mod order;
pub mod plan;
pub mod select;
pub mod budget;
pub mod index;
pub mod handoff;
