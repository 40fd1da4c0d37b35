//! Frames: the only thing that is ever put on the wire.

use crate::command::CommandType;
use crate::payload::bytes_seq;
use bytes::Bytes;
use vstd::prelude::*;
use vstd::utf8::encode_utf8;

verus! {

/// One unit of the wire protocol.
#[derive(Debug, PartialEq)]
pub enum Frame {
    /// A tag: a short identifier such as a command's name. On the wire: `+`.
    Cmd(Bytes),
    /// A value: an opaque payload such as a key or a stored value. On the
    /// wire: `-`.
    Arg(Bytes),
    /// An error payload. On the wire: `?`.
    Error(Bytes),
    /// A sequence of frames. On the wire: `*`.
    Array(Vec<Frame>),
    /// The absence of a value. On the wire: `!`.
    Null,
}

/// What a frame holds, as mathematics: payloads are sequences of bytes.
pub enum FrameView {
    /// A tag with its name.
    Cmd(Seq<u8>),
    /// A value with its payload.
    Arg(Seq<u8>),
    /// An error with its payload.
    Error(Seq<u8>),
    /// An array with its elements.
    Array(Seq<FrameView>),
    /// The null frame.
    Null,
}

impl FrameView {
    /// The number of payload bytes of a tag, value or error frame, of
    /// elements of an array, and zero for the null frame.
    pub open spec fn len(self) -> nat {
        match self {
            FrameView::Cmd(p) => p.len(),
            FrameView::Arg(p) => p.len(),
            FrameView::Error(p) => p.len(),
            FrameView::Array(items) => items.len(),
            FrameView::Null => 0,
        }
    }
}

impl View for Frame {
    type V = FrameView;

    open spec fn view(&self) -> FrameView
        decreases self,
    {
        match self {
            Frame::Cmd(b) => FrameView::Cmd(bytes_seq(*b)),
            Frame::Arg(b) => FrameView::Arg(bytes_seq(*b)),
            Frame::Error(b) => FrameView::Error(bytes_seq(*b)),
            Frame::Array(items) => FrameView::Array(views(items@)),
            Frame::Null => FrameView::Null,
        }
    }
}

/// The views of several frames, in order.
pub open spec fn views(items: Seq<Frame>) -> Seq<FrameView>
    decreases items,
{
    Seq::new(
        items.len(),
        |i: int|
            if 0 <= i < items.len() {
                items[i]@
            } else {
                arbitrary()
            },
    )
}

/// The view of a frame that may be absent.
pub open spec fn frame_view(frame: Option<Frame>) -> Option<FrameView> {
    match frame {
        Some(f) => Some(f@),
        None => None,
    }
}

/// The name of a command as it stands in a tag frame: `set`, `get`, `del`
/// or `ping` in ASCII.
pub open spec fn tag_name(cmd: CommandType) -> Seq<u8> {
    match cmd {
        CommandType::Put => seq![115u8, 101u8, 116u8],
        CommandType::Get => seq![103u8, 101u8, 116u8],
        CommandType::Del => seq![100u8, 101u8, 108u8],
        CommandType::Ping => seq![112u8, 105u8, 110u8, 103u8],
    }
}

/// The name of a command as bytes.
pub(crate) fn tag_slice(cmd: &CommandType) -> (name: &'static [u8])
    ensures
        name@ == tag_name(*cmd),
{
    proof {
        reveal_strlit("set");
        reveal_strlit("get");
        reveal_strlit("del");
        reveal_strlit("ping");
        vstd::utf8::is_ascii_chars_encode_utf8("set"@);
        vstd::utf8::is_ascii_chars_encode_utf8("get"@);
        vstd::utf8::is_ascii_chars_encode_utf8("del"@);
        vstd::utf8::is_ascii_chars_encode_utf8("ping"@);
    }
    let name = match cmd {
        CommandType::Put => "set".as_bytes(),
        CommandType::Get => "get".as_bytes(),
        CommandType::Del => "del".as_bytes(),
        CommandType::Ping => "ping".as_bytes(),
    };
    name
}

impl Frame {
    /// The frame that a command of kind `cmd` starts from: for `Ping` the
    /// bare tag, for the others an array that holds the tag and waits for
    /// its arguments.
    pub fn new(cmd: &CommandType) -> (frame: Frame)
        ensures
            frame@ == (match *cmd {
                CommandType::Ping => FrameView::Cmd(tag_name(CommandType::Ping)),
                _ => FrameView::Array(seq![FrameView::Cmd(tag_name(*cmd))]),
            }),
    {
        if let CommandType::Ping = cmd {
            return Frame::Cmd(Bytes::from_static(tag_slice(cmd)));
        }
        Frame::new_arr(cmd)
    }

    /// A value frame that holds the text `arg` in UTF-8.
    pub fn new_arg(arg: String) -> (frame: Frame)
        ensures
            frame@ == FrameView::Arg(encode_utf8(arg@)),
    {
        Frame::Arg(Bytes::from(arg))
    }

    /// An error frame that holds the text `err` in UTF-8.
    pub fn new_err(err: String) -> (frame: Frame)
        ensures
            frame@ == FrameView::Error(encode_utf8(err@)),
    {
        Frame::Error(Bytes::from(err))
    }

    /// Appends a value frame that holds `arg` to an array; leaves any other
    /// frame as it is.
    pub fn push_arg(&mut self, arg: String)
        ensures
            final(self)@ == (match old(self)@ {
                FrameView::Array(items) => FrameView::Array(
                    items.push(FrameView::Arg(encode_utf8(arg@))),
                ),
                other => other,
            }),
    {
        if let Frame::Array(arr) = self {
            let ghost before = arr@;
            let item = Frame::Arg(Bytes::from(arg));
            arr.push(item);
            assert(views(before.push(item)) =~= views(before).push(item@));
        }
    }

    /// An array that holds the tag of `cmd` and nothing else.
    fn new_arr(cmd: &CommandType) -> (frame: Frame)
        ensures
            frame@ == FrameView::Array(seq![FrameView::Cmd(tag_name(*cmd))]),
    {
        let mut arr = Vec::with_capacity(3);
        let tag = Frame::Cmd(Bytes::from_static(tag_slice(cmd)));
        arr.push(tag);
        assert(views(arr@) =~= seq![tag@]);
        Frame::Array(arr)
    }

    /// The number that the frame declares on the wire: payload bytes for a
    /// tag, value or error frame, elements for an array, zero for null.
    pub fn len(&self) -> (n: usize)
        ensures
            n == self@.len(),
    {
        match self {
            Frame::Cmd(val) => val.len(),
            Frame::Arg(val) => val.len(),
            Frame::Error(val) => val.len(),
            Frame::Array(arr) => {
                assert(views(arr@).len() == arr@.len());
                arr.len()
            },
            Frame::Null => 0,
        }
    }
}

impl Clone for Frame {
    /// A frame that holds the same as this one.
    fn clone(&self) -> (copy: Frame)
        ensures
            copy@ == self@,
        decreases self,
    {
        match self {
            Frame::Cmd(val) => Frame::Cmd(val.clone()),
            Frame::Arg(val) => Frame::Arg(val.clone()),
            Frame::Error(val) => Frame::Error(val.clone()),
            Frame::Array(arr) => {
                let mut copies: Vec<Frame> = Vec::with_capacity(arr.len());
                let mut i: usize = 0;
                while i < arr.len()
                    invariant
                        i <= arr@.len(),
                        copies@.len() == i,
                        self == Frame::Array(*arr),
                        views(copies@) == views(arr@).take(i as int),
                    decreases arr@.len() - i,
                {
                    proof {
                        assert(decreases_to!(self => self->Array_0));
                    }
                    copies.push(arr[i].clone());
                    i = i + 1;
                }
                proof {
                    assert(views(copies@) =~= views(arr@));
                }
                Frame::Array(copies)
            },
            Frame::Null => Frame::Null,
        }
    }
}

} // verus!
