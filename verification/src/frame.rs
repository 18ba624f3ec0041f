//! Frames: a length of four bytes, the lowest first, and that many bytes of JSON text. The
//! bound on the length guards against a peer that misbehaves.

use crate::chunk::{le_bytes, le_number, le_round_trip, le_value, push_all, push_le, ByteCursor};
use crate::text::{decimal, push_decimal};
use vstd::prelude::*;

verus! {

/// The largest frame.
pub const MAX_FRAME: u32 = 8_388_608;

/// What is wrong with a frame.
#[derive(Debug, PartialEq, Eq)]
pub enum FrameError {
    /// The bytes end before the frame does.
    Io,
    TooLarge(u32),
    /// The bytes are not JSON text.
    Json(String),
}

/// The text of an error of a frame.
pub open spec fn frame_error_text(e: FrameError) -> Seq<char> {
    match e {
        FrameError::Io => "frame io: failed to fill whole buffer"@,
        FrameError::TooLarge(n) => "frame too large: "@ + decimal(n as nat),
        FrameError::Json(t) => "frame json: "@ + t@,
    }
}

impl FrameError {
    /// The text of the error.
    pub fn message(&self) -> (s: String)
        ensures
            s@ == frame_error_text(*self),
    {
        match self {
            FrameError::Io => "frame io: failed to fill whole buffer".to_owned(),
            FrameError::TooLarge(n) => {
                let mut s: String = "frame too large: ".to_owned();
                push_decimal(&mut s, *n as u64);
                s
            },
            FrameError::Json(t) => {
                let mut s: String = "frame json: ".to_owned();
                s.append(t.as_str());
                s
            },
        }
    }
}

/// A frame on the wire.
pub open spec fn frame_bytes(text: Seq<u8>) -> Seq<u8> {
    le_bytes(text.len()) + text
}

/// Writes a frame around JSON text.
pub fn write_frame(w: &mut Vec<u8>, text: &[u8]) -> (r: Result<(), FrameError>)
    ensures
        match r {
            Ok(_) => text@.len() <= MAX_FRAME && final(w)@ == old(w)@ + frame_bytes(text@),
            Err(e) => {
                &&& text@.len() > MAX_FRAME
                &&& e == FrameError::TooLarge(text@.len() as u32)
                &&& final(w)@ == old(w)@
            },
        },
{
    if text.len() > MAX_FRAME as usize {
        return Err(FrameError::TooLarge(#[verifier::truncate] (text.len() as u32)));
    }
    push_le(w, text.len() as u32);
    push_all(w, text);
    assert(w@ =~= old(w)@ + frame_bytes(text@));
    Ok(())
}

/// What stands next: the text of a frame and what follows it, or a fault.
pub open spec fn next_frame(s: Seq<u8>) -> Result<(Seq<u8>, Seq<u8>), FrameError> {
    if s.len() < 4 {
        Err(FrameError::Io)
    } else {
        let n = le_value(s.take(4));
        if n > MAX_FRAME {
            Err(FrameError::TooLarge(n as u32))
        } else if s.len() - 4 < n {
            Err(FrameError::Io)
        } else {
            Ok((s.skip(4).take(n as int), s.skip(4).skip(n as int)))
        }
    }
}

/// The length that the head of a frame announces, where it is legal.
pub fn frame_header(head: &Vec<u8>) -> (r: Result<u32, FrameError>)
    requires
        head@.len() == 4,
    ensures
        match r {
            Ok(n) => n == le_value(head@) && n <= MAX_FRAME,
            Err(e) => le_value(head@) > MAX_FRAME && e == FrameError::TooLarge(
                le_value(head@) as u32,
            ),
        },
{
    let len: u32 = le_number(head);
    if len > MAX_FRAME {
        Err(FrameError::TooLarge(len))
    } else {
        Ok(len)
    }
}

/// Reads the text of the next frame. The length is checked before anything else is read.
pub fn read_frame(r: &mut ByteCursor) -> (t: Result<Vec<u8>, FrameError>)
    ensures
        match t {
            Ok(v) => next_frame(old(r).rest()) == Ok::<(Seq<u8>, Seq<u8>), FrameError>(
                (v@, final(r).rest()),
            ),
            Err(e) => {
                &&& next_frame(old(r).rest()) == Err::<(Seq<u8>, Seq<u8>), FrameError>(e)
                &&& final(r).rest() == match e {
                    FrameError::TooLarge(_) => old(r).rest().skip(4),
                    _ => Seq::empty(),
                }
            },
        },
{
    let head: Vec<u8> = match r.read_exact(4) {
        None => {
            return Err(FrameError::Io);
        },
        Some(h) => h,
    };
    match frame_header(&head) {
        Err(e) => Err(e),
        Ok(n) => match r.read_exact(n as usize) {
            None => Err(FrameError::Io),
            Some(v) => Ok(v),
        },
    }
}

/// What is written as a frame is read back as it was.
pub proof fn frame_round_trip(text: Seq<u8>, after: Seq<u8>)
    requires
        text.len() <= MAX_FRAME,
    ensures
        next_frame(frame_bytes(text) + after) == Ok::<(Seq<u8>, Seq<u8>), FrameError>(
            (text, after),
        ),
{
    let s = frame_bytes(text) + after;
    le_round_trip(text.len());
    assert(s.take(4) =~= le_bytes(text.len()));
    assert(s.skip(4) =~= text + after);
    assert(s.skip(4).take(text.len() as int) =~= text);
    assert(s.skip(4).skip(text.len() as int) =~= after);
}

} // verus!
