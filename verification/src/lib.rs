//! Verified core of the exhibition audio server: installations, OSC control parsing,
//! project bookkeeping and the state machines that drive the audio threads.

pub mod control;
pub mod detection;
pub mod fast_wave;
mod fx;
pub mod input;
pub mod installation;
pub mod interaction;
pub mod log;
pub mod mixer;
pub mod monitor;
pub mod osc;
pub mod osc_output;
pub mod path;
pub mod project;
pub mod requester;
pub mod sound;
pub mod source;
pub mod source_editor;
pub mod speaker;
pub mod text;
pub mod utils;
pub mod wav_reader;
