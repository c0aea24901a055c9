//! Verified core of an FM sound-module player: Standard MIDI File reading
//! and writing, the serial protocol spoken with the sequencer, the state
//! kept by the terminal monitor, and its two screens.

pub mod codec_laws;
pub mod commands;
pub mod file_ctrl;
pub mod format0;
pub mod key_command;
pub mod keyset;
pub mod midi;
pub mod monitor;
pub mod paths;
pub mod port;
pub mod sequence_msg;
pub mod serial_com;
pub mod structs;
pub mod suggest;
pub mod text;
pub mod ui;
pub mod utils;
pub mod view;
pub mod vlq;
