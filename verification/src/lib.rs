//! Autosampling library: note and velocity specifications, sample job
//! planning, file naming, MIDI message construction, the session and
//! capture state machines that drive a sampling run, and the buffer and
//! trimming logic applied to captured audio.

pub mod text;
pub mod types;
pub mod parse;
pub mod midi_note;
pub mod engine;
pub mod session;
pub mod midi;
pub mod ringbuf;
pub mod dsp;
pub mod state;
pub mod control;
pub mod takes;
pub mod audio;
