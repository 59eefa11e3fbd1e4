//! The logic of a chat wheel: a small window of buttons that play recorded
//! voice lines, optionally sent to the microphone through PulseAudio, and a
//! local web page to choose the lines.
use vstd::prelude::*;

pub mod consts;
pub mod text;
pub mod line;
pub mod chatwheel;
pub mod settings;
pub mod configure;
pub mod pulseaudio;
pub mod layout;
pub mod cli;

verus! {

} // verus!
