//! A lottery-number sampler and the rules of a number-guessing game.
pub mod guess;
pub mod lotto;
pub mod text;
