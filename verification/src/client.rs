//! What a client makes of the response to its request.

use crate::error::KvsError;
use crate::frame::{frame_view, Frame, FrameView};
use vstd::prelude::*;
use vstd::utf8::{decode_utf8, valid_utf8};

verus! {

/// The result that a response stands for: the text of a value frame, the
/// empty text for the null frame. A frame of any other kind, a value that
/// is not UTF-8, and a read that brought no frame (`None`) are errors.
pub open spec fn result_of(response: Option<FrameView>) -> Result<Seq<char>, KvsError> {
    match response {
        Some(FrameView::Arg(p)) => if valid_utf8(p) {
            Ok(decode_utf8(p))
        } else {
            Err(KvsError::Protocol)
        },
        Some(FrameView::Null) => Ok(Seq::empty()),
        _ => Err(KvsError::Protocol),
    }
}

/// Reads the result out of the response to a request.
pub fn execute(response: Option<Frame>) -> (r: Result<String, KvsError>)
    ensures
        match result_of(frame_view(response)) {
            Ok(t) => r matches Ok(s) && s@ == t,
            Err(e) => r matches Err(x) && x == e,
        },
{
    match response {
        Some(Frame::Arg(arg)) => match core::str::from_utf8(&arg) {
            Ok(s) => {
                proof {
                    vstd::utf8::encode_utf8_decode_utf8(s@);
                }
                Ok(s.to_owned())
            },
            Err(_) => Err(KvsError::Protocol),
        },
        Some(Frame::Null) => Ok(String::new()),
        _ => Err(KvsError::Protocol),
    }
}

} // verus!
