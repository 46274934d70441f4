//! Halftone pictures made of text: a density mapper, a grid synthesizer that
//! dithers each pixel into a block of ink cells, a solver that fits the gamma
//! of the density curve to a character budget, and the text preparation that
//! goes with them (character count, white space, line breaks, line filters).

pub mod cli;
pub mod counting;
pub mod pixels;
pub mod density;
pub mod grid;
pub mod lines;
pub mod render;
pub mod gamma;
pub mod text;
