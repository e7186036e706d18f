pub mod compile;
pub mod exec;
pub mod inst;
pub mod text;
