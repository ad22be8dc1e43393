pub mod binding_def;
pub mod binding_usage;
pub mod environment;
pub mod expression;
pub mod number;
pub mod operations;
pub mod utils;
pub mod value;
