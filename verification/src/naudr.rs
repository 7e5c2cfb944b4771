pub mod accumulate;
pub mod bloat;
pub mod closed_curves;
pub mod operate;
pub mod recurrent;
