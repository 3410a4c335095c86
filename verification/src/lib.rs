//! Discovery of the downloadable assets of an online course: the module tree,
//! the walk through a lesson's content, the download plan and its execution
//! rules, each with a machine-checked contract.

pub mod tree;
pub mod resolve;
pub mod normalize;
pub mod text;
pub mod sanitize;
pub mod embed;
pub mod content;
pub mod plan;
pub mod tasks;
pub mod executor;
pub mod supervisor;
