//! Market, rumor and dealer simulation for a multiplayer trading game.
pub mod error;
pub mod catalog;
pub mod day;
pub mod dealer;
pub mod market;
pub mod random;
pub mod renderer;
pub mod settings;
pub mod text;
