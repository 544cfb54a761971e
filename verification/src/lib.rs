//! Latin declension tables and the state logic of a small terminal game.
pub mod table;
pub mod latin;
mod outside;
pub mod world;
pub mod app;
pub mod deaths;
pub mod ai;
pub mod journal;
pub mod hud;
pub mod scatter;
