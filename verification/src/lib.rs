//! The core of a monophonic synthesizer, in fixed-point arithmetic.
//!
//! A note is a frequency and a gate. An envelope shapes the note's amplitude
//! over time, from when it was pressed and when it was let go. A voice steps
//! a clock once per sample and says, for each sample, which tone is to sound
//! and how loud.

pub mod envelope;
pub mod register;
pub mod replay;
pub mod shape;
pub mod synth;
