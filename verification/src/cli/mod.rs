pub mod command;
pub mod exit;
pub mod input;
pub mod kernel;
pub mod output;
