pub mod database;
pub mod def;
pub mod display;
pub mod training;
