//! Library side of a tool that files the games of a Heroic Games Launcher
//! library under categories taken from IGDB.
pub mod strmap;
pub mod catalog;
pub mod text;
pub mod paths;
pub mod json;
pub mod heroic_config;
pub mod models;
pub mod heroic;
pub mod games_store;
pub mod commands;
pub mod igdb;
