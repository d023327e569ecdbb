pub mod binary64;
pub mod byr_client;
pub mod choice_law;
pub mod client_law;
pub mod clock;
pub mod config;
pub mod config_law;
pub mod decimal;
pub mod lines;
pub mod log_law;
pub mod models;
pub mod monitor;
pub mod natural;
pub mod number_law;
pub mod page_law;
pub mod planner;
pub mod planning;
pub mod qb_client;
pub mod rotation;
pub mod rotation_law;
pub mod run_law;
pub mod runner;
pub mod sorting;
pub mod startup;
pub mod text;
pub mod text_law;
