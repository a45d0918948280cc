//! A shared task board for agents: tasks with dependencies, claims, labels and
//! artifacts, the rules that move them, and the answers a caller gets.

pub mod api;
pub mod artifact;
pub mod board;
pub mod config;
pub mod dates;
pub mod graph;
pub mod history;
pub mod ids;
pub mod json;
pub mod laws;
pub mod model;
pub mod promises;
pub mod rows;
pub mod rules;
pub mod schema;
pub mod steps;
pub mod store;
pub mod tables;
pub mod text;
pub mod time;
pub mod validity;
