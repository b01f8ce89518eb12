pub mod engine;
pub mod game;
pub mod idmap;
pub mod player;
pub mod posmap;
pub mod schemas;
