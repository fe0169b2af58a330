pub mod text;
pub mod theme;
pub mod github;
pub mod sort;
pub mod laws;
pub mod agent;
pub mod config;
pub mod download;
pub mod ui;
