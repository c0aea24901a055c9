//! The protocol spoken with the sequencer over the serial line: announcing
//! and confirming a file transfer, and the frames of its reports.
use vstd::prelude::*;

use crate::sequence_msg::{SequenceMsg, msg_of, msg_readable, MsgView};

verus! {

/// The header byte that announces the size of a file.
pub const FILE_SIZE_HEADER: u8 = 0x2F;

/// The four bytes that announce a file of `len` bytes: the header byte, then
/// the low three bytes of the length, least significant first.
pub open spec fn file_size_bytes(len: nat) -> Seq<u8> {
    seq![0x2Fu8, (len % 256) as u8, ((len / 256) % 256) as u8, ((len / 65536) % 256) as u8]
}

/// The four bytes that announce a file of `len` bytes.
pub fn file_size_header(len: usize) -> (r: [u8; 4])
    ensures
        r@ == file_size_bytes(len as nat),
{
    let b0 = (len & 0xff) as u8;
    let b1 = ((len >> 8) & 0xff) as u8;
    let b2 = ((len >> 16) & 0xff) as u8;
    assert(b0 == (len % 256) as u8 && b1 == ((len / 256) % 256) as u8 && b2 == ((len / 65536) % 256) as u8)
        by (bit_vector)
        requires
            b0 == (len & 0xff) as u8,
            b1 == ((len >> 8) & 0xff) as u8,
            b2 == ((len >> 16) & 0xff) as u8,
    ;
    let r = [FILE_SIZE_HEADER, b0, b1, b2];
    assert(r@ =~= file_size_bytes(len as nat));
    r
}

/// The reply (low nibble) by which the sequencer accepts a file.
pub const REPLY_ACCEPT: u8 = 0xe;

/// The reply (low nibble) by which the sequencer reports a failed transfer.
pub const REPLY_FAILED: u8 = 0xc;

/// The reply (low nibble) by which the sequencer reports a done transfer.
pub const REPLY_DONE: u8 = 0xd;

/// Whether the sequencer's reply to a file announcement accepts the file;
/// else the message why the transfer stops.
pub fn accept_reply(reply: u8) -> (r: Result<(), String>)
    ensures
        reply & 0xf == REPLY_ACCEPT ==> r is Ok,
        reply & 0xf != REPLY_ACCEPT ==> (r matches Err(m) && m@ == "Communication partner is not accepting."@),
{
    if reply & 0xf == REPLY_ACCEPT {
        Ok(())
    } else {
        Err(String::from_str("Communication partner is not accepting."))
    }
}

/// The outcome of a transfer by the sequencer's closing reply, which is one
/// of done and failed (any other reply stops the sender).
pub fn completion_reply(reply: u8) -> (r: Result<(), String>)
    requires
        reply & 0xf == REPLY_FAILED || reply & 0xf == REPLY_DONE,
    ensures
        reply & 0xf == REPLY_DONE ==> r is Ok,
        reply & 0xf == REPLY_FAILED ==> (r matches Err(m) && m@ == "failed to send  midi file"@),
{
    if reply & 0xf == REPLY_FAILED {
        Err(String::from_str("failed to send  midi file"))
    } else {
        Ok(())
    }
}

/// How the first byte of a report frame goes on.
#[derive(Debug, Clone, Copy, PartialEq, Eq, Structural)]
pub enum FrameStart {
    /// The end of play: no bytes follow.
    End,
    /// A text frame: two bytes of length (low, high) follow, then the text.
    LongLength,
    /// The given number of payload bytes follow.
    Payload(usize),
}

/// How a frame goes on after its first byte: the low nibble is the kind,
/// the high nibble the payload length.
pub open spec fn frame_start_of(b: u8) -> FrameStart {
    let flag = b & 0xf;
    let len = (b >> 4) as usize;
    if len == 0 && flag == 1 {
        FrameStart::End
    } else if flag == 7 {
        FrameStart::LongLength
    } else {
        FrameStart::Payload(len)
    }
}

/// How a frame goes on after its first byte `b`.
pub fn frame_start(b: u8) -> (r: FrameStart)
    ensures
        r == frame_start_of(b),
{
    let flag = b & 0xf;
    let len = (b >> 4) as usize;
    if len == 0 && flag == 1 {
        FrameStart::End
    } else if flag == 7 {
        FrameStart::LongLength
    } else {
        FrameStart::Payload(len)
    }
}

/// The length of a text frame from its two length bytes.
pub fn long_length(low: u8, high: u8) -> (r: usize)
    ensures
        r == low + high * 256,
{
    let r = ((high as usize) << 8) | (low as usize);
    assert(r == low + high * 256) by (bit_vector)
        requires
            r == ((high as usize) << 8) | (low as usize),
    ;
    r
}

/// The message that ends the play.
pub fn end_message() -> (r: SequenceMsg)
    ensures
        r@ == (MsgView {
            channel: 0,
            sq_event: crate::sequence_msg::SequenceEventFlag::End,
            param_change: None,
            data: None,
        }),
{
    SequenceMsg::new(0, crate::sequence_msg::SequenceEventFlag::End, None)
}

/// What a frame holds, by its kind.
pub enum Frame {
    /// A report of the sequencer (kind 1).
    Message(SequenceMsg),
    /// Text the sequencer prints (kind 7).
    Printf,
    /// Any other kind, which is shown and dropped.
    Unhandled(u8),
}

/// What the frame with first byte `b` and payload `payload` holds.
pub fn decode_frame(b: u8, payload: &[u8]) -> (r: Frame)
    requires
        b & 0xf == 1 ==> msg_readable(payload@),
    ensures
        b & 0xf == 7 ==> r is Printf,
        b & 0xf != 7 && b & 0xf != 1 ==> r == Frame::Unhandled(b & 0xf),
        b & 0xf == 1 ==> (r matches Frame::Message(m) && m@ == msg_of(payload@)),
{
    let flag = b & 0xf;
    if flag == 7 {
        Frame::Printf
    } else if flag != 1 {
        Frame::Unhandled(flag)
    } else {
        Frame::Message(SequenceMsg::from(payload))
    }
}

} // verus!
