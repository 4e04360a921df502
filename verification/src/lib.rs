//! The logic of a desktop quote ticker: which quotes are shown where, how they
//! are typed out and glitch, and what each frame is made of. Opening windows,
//! running timers, reading files and painting is left to the program around it.

pub mod blur;
pub mod cache;
pub mod caret;
mod chance;
pub mod frame;
pub mod glitch;
pub mod halo;
pub mod layout;
pub mod monitors;
pub mod paths;
pub mod quotes;
pub mod scanlines;
pub mod squares;
pub mod startup;
pub mod text;
pub mod typewriter;
