//! What a server answers to one request.

use crate::command::{arg, Command};
use crate::error::KvsError;
use crate::frame::{frame_view, Frame, FrameView};
use crate::store::DbControl;
use vstd::prelude::*;

verus! {

/// The frame that answers a command: a value frame with the text, or the
/// null frame where there is no text.
pub open spec fn answer_frame(answer: Option<Seq<char>>) -> FrameView {
    match answer {
        Some(s) => arg(s),
        None => FrameView::Null,
    }
}

/// What a server does with one request on a table: the frame it sends
/// back, or the error that ends the connection without a response, and
/// the table it leaves. `None` stands for a read that brought no frame. On
/// an error the table stays as it is.
pub open spec fn served(request: Option<FrameView>, table: Map<Seq<char>, Seq<char>>) -> (
    Result<FrameView, KvsError>,
    Map<Seq<char>, Seq<char>>,
) {
    match request {
        None => (Err(KvsError::Protocol), table),
        Some(frame) => match frame.command() {
            Err(e) => (Err(e), table),
            Ok(command) => match command.applied(table) {
                Err(e) => (Err(e), table),
                Ok((answer, next)) => (Ok(answer_frame(answer)), next),
            },
        },
    }
}

/// Serves one request: decodes the frame into a command, applies it to
/// the table, and encodes the answer.
pub fn execute(request: Option<Frame>, db: &mut DbControl) -> (r: Result<Frame, KvsError>)
    ensures
        final(db)@ == served(frame_view(request), old(db)@).1,
        match served(frame_view(request), old(db)@).0 {
            Ok(frame) => r matches Ok(f) && f@ == frame,
            Err(e) => r matches Err(x) && x == e,
        },
{
    let req_frame = match request {
        Some(frame) => frame,
        None => {
            return Err(KvsError::Protocol);
        },
    };
    let res = Command::from_frame(&req_frame)?.apply(db)?;
    let resp_frame = match res {
        Some(s) => Frame::new_arg(s),
        None => Frame::Null,
    };
    Ok(resp_frame)
}

/// A request that fails touches nothing: whenever the server has an error
/// in place of a response, the table is the one it was.
pub proof fn lemma_error_changes_nothing(
    request: Option<FrameView>,
    table: Map<Seq<char>, Seq<char>>,
)
    ensures
        served(request, table).0 is Err ==> served(request, table).1 == table,
{
}

} // verus!
