pub mod closed;
pub mod columns;
pub mod entropy;
pub mod error;
pub mod expressions;
pub mod folds;
pub mod ieee;
pub mod laws;
pub mod multi;
pub mod output;
pub mod policy;
pub mod prepare;
pub mod report;
pub mod schema;
pub mod tables;
pub mod views;
pub mod windows;
