//! The integer core of an adaptive grain mask: which kernel a frame is
//! processed with, the format of the mask clip, and how an integer plane is
//! mapped through a 256-entry lookup table indexed by the top eight bits of
//! each sample.

pub mod lut;
pub mod plan;
pub mod sample;
