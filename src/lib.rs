pub mod calculator;
pub mod decimal;
pub mod keyword;
pub mod laws;
pub mod merge;
pub mod models;
pub mod parser;
pub mod table;
