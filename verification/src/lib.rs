use vstd::prelude::*;

pub mod text;
pub mod clock;
pub mod cli;
pub mod errors;
pub mod collection;
pub mod env;
pub mod validator;
pub mod gem;
pub mod domain;
pub mod auth;
pub mod jwt;
pub mod encryption;
pub mod csrf;
pub mod cache;
pub mod redis;
pub mod paths;
pub mod fs;
pub mod filesystem;
pub mod db;
pub mod debug;
pub mod entity;
pub mod project;
pub mod scaffold;
pub mod arch;
pub mod commands;
pub mod application;
pub mod config;
pub mod events;
pub mod sorting;
pub mod query;

verus! {
}
