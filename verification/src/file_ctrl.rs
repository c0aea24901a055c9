//! Checking a file chosen to be sent, and the messages for what can go wrong.
use vstd::prelude::*;

use crate::midi::{MidiError, MidiInfo, spec_parse_midi, InfoView};
use crate::text::{hex, push_hex, push_str};
use crate::utils::{CheckOutcome, ValidationConf, channel_msg, format2_msg, validation_midi_file, validation_outcome};

verus! {

/// How a `MidiError` is shown.
pub open spec fn midi_error_text(e: MidiError) -> Seq<char> {
    match e {
        MidiError::InvalidFileFormat(s) => "Invalid File Format: "@ + (if s == 0 {
            "Header"@
        } else if s == 1 {
            "Track"@
        } else {
            "unknown"@
        }) + " is broken"@,
        MidiError::InvalidHeader => "Invalid Header"@,
        MidiError::UnknownFormat => "Unknown Format"@,
        MidiError::LengthError => "Length Error"@,
        MidiError::UnknownEventFormat(b) => "Unknown Event Format: 0x"@ + hex(b as nat),
        MidiError::UnknownEvent(b) => "Unknown Event: 0x"@ + hex(b as nat),
        MidiError::Custom(m) => m@,
    }
}

impl MidiError {
    /// How the error is shown.
    pub fn to_text(&self) -> (r: String)
        ensures
            r@ == midi_error_text(*self),
    {
        let mut s = String::new();
        match self {
            MidiError::InvalidFileFormat(k) => {
                push_str(&mut s, "Invalid File Format: ");
                if *k == 0 {
                    push_str(&mut s, "Header");
                } else if *k == 1 {
                    push_str(&mut s, "Track");
                } else {
                    push_str(&mut s, "unknown");
                }
                push_str(&mut s, " is broken");
            },
            MidiError::InvalidHeader => push_str(&mut s, "Invalid Header"),
            MidiError::UnknownFormat => push_str(&mut s, "Unknown Format"),
            MidiError::LengthError => push_str(&mut s, "Length Error"),
            MidiError::UnknownEventFormat(b) => {
                push_str(&mut s, "Unknown Event Format: 0x");
                push_hex(&mut s, *b as u64);
            },
            MidiError::UnknownEvent(b) => {
                push_str(&mut s, "Unknown Event: 0x");
                push_hex(&mut s, *b as u64);
            },
            MidiError::Custom(m) => push_str(&mut s, m),
        }
        assert(s@ =~= midi_error_text(*self));
        s
    }
}

/// What can go wrong with a file chosen to be sent.
#[derive(Debug)]
pub enum Error {
    FileOpen(String),
    Format(String),
    FileNotExist(String),
    MidiError(MidiError),
}

/// The message shown for an error.
pub open spec fn error_text(e: &Error) -> Seq<char> {
    match e {
        Error::FileOpen(path) => "Failed to open file "@ + path@ + "."@,
        Error::Format(path) => "File format Error: "@ + path@ + " is not MIDI Format 0."@,
        Error::FileNotExist(path) => "File Not Exist: "@ + path@,
        Error::MidiError(e) => midi_error_text(*e),
    }
}

impl Error {
    /// The message shown for this error.
    pub fn to_msg(&self) -> (r: String)
        ensures
            r@ == error_text(self),
    {
        match self {
            Error::FileOpen(path) => {
                let mut s = String::new();
                push_str(&mut s, "Failed to open file ");
                push_str(&mut s, path.as_str());
                push_str(&mut s, ".");
                s
            },
            Error::Format(path) => {
                let mut s = String::new();
                push_str(&mut s, "File format Error: ");
                push_str(&mut s, path.as_str());
                push_str(&mut s, " is not MIDI Format 0.");
                s
            },
            Error::FileNotExist(path) => {
                let mut s = String::new();
                push_str(&mut s, "File Not Exist: ");
                push_str(&mut s, path.as_str());
                s
            },
            Error::MidiError(e) => e.to_text(),
        }
    }
}

/// Checks the bytes read from a chosen file: the file as read, or the
/// reason it cannot be sent.
pub fn check_file_contents(data: &[u8], conf: &ValidationConf) -> (r: Result<MidiInfo, Error>)
    requires
        spec_parse_midi(data@) is Some,
    ensures
        match validation_outcome(data@, conf.ym2608) {
            CheckOutcome::Valid(v) => r matches Ok(info) && info@ == v,
            CheckOutcome::Invalid(e) => r matches Err(Error::MidiError(e2)) && e2 == e,
            CheckOutcome::Format2 => r matches Err(Error::MidiError(MidiError::Custom(m))) && m@
                == format2_msg(),
            CheckOutcome::ChannelOutOfRange(c) => r matches Err(Error::MidiError(MidiError::Custom(m)))
                && m@ == channel_msg(c),
            CheckOutcome::Truncated => false,
        },
{
    match validation_midi_file(data, conf) {
        Ok(info) => Ok(info),
        Err(e) => Err(Error::MidiError(e)),
    }
}

} // verus!
