//! A read, parse, validate, act cycle for line-oriented prompts, with the
//! exercises built on it: the additive series, the bounded counting prompt and
//! the guessing game.

pub mod cycle;
pub mod laws;
pub mod message;
pub mod outcome;
pub mod series;
pub mod target;
pub mod text;
