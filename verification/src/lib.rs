pub mod agg;
pub mod cli;
pub mod engine;
pub mod errors;
pub mod jsonv;
pub mod k8s;
pub mod num;
pub mod object;
pub mod output;
pub mod parser;
pub mod path;
pub mod planner;
pub mod sort;
pub mod text;
