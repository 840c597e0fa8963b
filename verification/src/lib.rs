//! Verified core of the InkFlow speech-to-text engine.
use vstd::prelude::*;

pub mod compare;
pub mod engine;
pub mod error;
pub mod ffi;
pub mod queue;
pub mod render;
pub mod runs;
pub mod second_pass;
pub mod settings;
pub mod sherpa;
pub mod strings;
pub mod text;
pub mod transcript;
pub mod whisper;
pub mod worker;

verus! {

} // verus!
