pub mod evaluators;
pub mod skills;
