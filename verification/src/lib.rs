pub mod basics;
pub mod game;
pub mod ownership;
pub mod parse;
