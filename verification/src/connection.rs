//! Framing a byte stream: what is written for a frame, and what is made of
//! the bytes that one read brought in.
//!
//! The functions here work on buffers. Whoever owns the socket writes the
//! buffer out and flushes after every frame, so that each frame is a unit
//! of its own, and hands in what a read returned.

use crate::frame::{views, Frame};
use crate::grammar::{
    crlf, decimal, parse_at, wire, wire_all, ARRAY, CR, ERROR, LF, NULL, TAG, VALUE,
};
use crate::parse::{parse_frame, Cursor};
use vstd::prelude::*;

verus! {

/// Appends a number in decimal digits.
fn write_decimal(out: &mut Vec<u8>, n: usize)
    ensures
        final(out)@ == old(out)@ + decimal(n as nat),
    decreases n,
{
    if n >= 10 {
        write_decimal(out, n / 10);
    }
    out.push(48 + (n % 10) as u8);
}

/// Appends a run of bytes.
fn write_all(out: &mut Vec<u8>, src: &[u8])
    ensures
        final(out)@ == old(out)@ + src@,
{
    let mut i: usize = 0;
    while i < src.len()
        invariant
            i <= src@.len(),
            out@ == old(out)@ + src@.take(i as int),
        decreases src@.len() - i,
    {
        out.push(src[i]);
        i = i + 1;
    }
}

/// Appends the length line of a frame: the number it declares, then CRLF.
fn writeln_len(out: &mut Vec<u8>, frame: &Frame)
    ensures
        final(out)@ == old(out)@ + decimal(frame@.len()) + crlf(),
{
    write_decimal(out, frame.len());
    out.push(CR);
    out.push(LF);
}

/// Appends a frame that is no array: its tag byte, and for all but the
/// null frame the length line and the payload, then CRLF.
fn writeln_val(out: &mut Vec<u8>, frame: &Frame)
    requires
        !(frame is Array),
    ensures
        final(out)@ == old(out)@ + wire(frame@),
{
    match frame {
        Frame::Cmd(val) => {
            out.push(TAG);
            writeln_len(out, frame);
            write_all(out, val);
        },
        Frame::Arg(val) => {
            out.push(VALUE);
            writeln_len(out, frame);
            write_all(out, val);
        },
        Frame::Error(e) => {
            out.push(ERROR);
            writeln_len(out, frame);
            write_all(out, e);
        },
        _ => {
            out.push(NULL);
        },
    }
    out.push(CR);
    out.push(LF);
}

/// Appends the bytes of a frame to `out`: an array as its count line and
/// then each element in full, any other frame by itself.
pub fn write_frame(out: &mut Vec<u8>, frame: &Frame)
    ensures
        final(out)@ == old(out)@ + wire(frame@),
    decreases frame,
{
    match frame {
        Frame::Array(arr) => {
            out.push(ARRAY);
            writeln_len(out, frame);
            let mut i: usize = 0;
            while i < arr.len()
                invariant
                    i <= arr@.len(),
                    frame == Frame::Array(*arr),
                    out@ == old(out)@ + seq![ARRAY] + decimal(arr@.len()) + crlf() + wire_all(
                        views(arr@).take(i as int),
                    ),
                decreases arr@.len() - i,
            {
                proof {
                    let items = views(arr@);
                    assert(items.take(i + 1).drop_last() =~= items.take(i as int));
                    assert(decreases_to!(frame => frame->Array_0));
                }
                write_frame(out, &arr[i]);
                i = i + 1;
            }
            proof {
                assert(views(arr@).take(arr@.len() as int) =~= views(arr@));
            }
        },
        _ => writeln_val(out, frame),
    }
}

/// Makes a frame of the bytes that one read returned. No bytes means that
/// the peer has closed. Otherwise the bytes must start with one whole
/// frame; what follows it is ignored.
///
/// Each read stands for itself: a frame that arrives in pieces is not put
/// together, so a closed connection, a malformed frame and a frame cut
/// short by the read all give `None`.
pub fn read_frame(received: &[u8]) -> (r: Option<Frame>)
    ensures
        match parse_at(received@, 0) {
            Some((frame, _)) => r matches Some(f) && f@ == frame,
            None => r is None,
        },
{
    if received.len() == 0 {
        return None;
    }
    let mut cur = Cursor::new(received);
    parse_frame(&mut cur)
}

} // verus!
