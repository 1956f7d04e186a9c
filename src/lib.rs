pub mod database;
pub mod portfolio;
pub mod problem;
pub mod results;
pub mod laws;
