//! Dice expressions such as `2d6+1d4+3`: splitting them into modifiers and die terms, parsing
//! die terms, rolling dice and adding up the total.

pub mod parse;
pub mod roll;
