pub mod args;
pub mod plan;
pub mod tokens;
