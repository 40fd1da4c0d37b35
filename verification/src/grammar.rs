//! The wire grammar, as mathematics.
//!
//! ```text
//! Frame  ::= Tag | Value | Error | Array | Null
//! Tag    ::= '+' LEN CRLF BYTES CRLF
//! Value  ::= '-' LEN CRLF BYTES CRLF
//! Error  ::= '?' LEN CRLF BYTES CRLF
//! Array  ::= '*' COUNT CRLF Frame{COUNT}
//! Null   ::= '!' CRLF
//! ```
//!
//! `LEN` and `COUNT` are written in decimal digits. `BYTES` runs up to the
//! next CRLF, and must be exactly `LEN` bytes long.
//!
//! [`wire`] says which bytes a frame is written as; [`parse_at`] says which
//! frame, if any, a buffer holds at a position. The contracts of the
//! executable encoder and decoder are stated over these two functions.

use crate::frame::FrameView;
use vstd::prelude::*;

verus! {

/// `+`, the first byte of a tag frame.
pub const TAG: u8 = 43;

/// `-`, the first byte of a value frame.
pub const VALUE: u8 = 45;

/// `?`, the first byte of an error frame.
pub const ERROR: u8 = 63;

/// `*`, the first byte of an array frame.
pub const ARRAY: u8 = 42;

/// `!`, the first byte of the null frame.
pub const NULL: u8 = 33;

/// Carriage return.
pub const CR: u8 = 13;

/// Line feed.
pub const LF: u8 = 10;

/// The two bytes that end a line.
pub open spec fn crlf() -> Seq<u8> {
    seq![CR, LF]
}

/// Whether a line ends at `i`: a CR at `i` with an LF behind it.
pub open spec fn crlf_at(s: Seq<u8>, i: int) -> bool {
    0 <= i && i + 1 < s.len() && s[i] == CR && s[i + 1] == LF
}

/// The position of the first CRLF at or after `from`, if there is one.
pub open spec fn find_crlf(s: Seq<u8>, from: int) -> Option<int>
    decreases s.len() - from,
{
    if from < 0 || from + 1 >= s.len() {
        None
    } else if s[from] == CR && s[from + 1] == LF {
        Some(from)
    } else {
        find_crlf(s, from + 1)
    }
}

/// Where `find_crlf` finds a line end, it is the first one from `from` on;
/// where it finds none, there is none.
pub proof fn lemma_find_crlf(s: Seq<u8>, from: int)
    requires
        0 <= from,
    ensures
        match find_crlf(s, from) {
            Some(e) => from <= e && crlf_at(s, e) && forall|i: int| from <= i < e ==> !crlf_at(s, i),
            None => forall|i: int| from <= i ==> !crlf_at(s, i),
        },
    decreases s.len() - from,
{
    if from + 1 >= s.len() {
    } else if s[from] == CR && s[from + 1] == LF {
    } else {
        lemma_find_crlf(s, from + 1);
    }
}

/// Whether a byte is one of the ASCII digits `0` (48) to `9` (57).
pub open spec fn is_digit(b: u8) -> bool {
    48 <= b <= 57
}

/// Whether `s` is a decimal number: one digit or more, and nothing else.
pub open spec fn is_digits(s: Seq<u8>) -> bool {
    s.len() > 0 && forall|i: int| 0 <= i < s.len() ==> is_digit(#[trigger] s[i])
}

/// The number that a run of digits stands for.
pub open spec fn digits_value(s: Seq<u8>) -> nat
    decreases s.len(),
{
    if s.len() == 0 {
        0
    } else {
        digits_value(s.drop_last()) * 10 + (s.last() - 48) as nat
    }
}

/// The count that a length field stands for: it must be a decimal number
/// that fits the machine's `usize`.
pub open spec fn number(s: Seq<u8>) -> Option<nat> {
    if is_digits(s) && digits_value(s) <= usize::MAX {
        Some(digits_value(s))
    } else {
        None
    }
}

/// A number in decimal digits, without leading zeros.
pub open spec fn decimal(n: nat) -> Seq<u8>
    decreases n,
{
    if n < 10 {
        seq![(48 + n) as u8]
    } else {
        decimal(n / 10).push((48 + n % 10) as u8)
    }
}

/// The bytes of a frame that carries a payload: its tag byte, the
/// payload's length, a CRLF, the payload, a CRLF.
pub open spec fn scalar_wire(tag: u8, payload: Seq<u8>) -> Seq<u8> {
    seq![tag] + decimal(payload.len()) + crlf() + payload + crlf()
}

/// The bytes that a frame is written as.
pub open spec fn wire(f: FrameView) -> Seq<u8>
    decreases f,
{
    match f {
        FrameView::Cmd(p) => scalar_wire(TAG, p),
        FrameView::Arg(p) => scalar_wire(VALUE, p),
        FrameView::Error(p) => scalar_wire(ERROR, p),
        FrameView::Array(items) => seq![ARRAY] + decimal(items.len()) + crlf() + wire_all(items),
        FrameView::Null => seq![NULL] + crlf(),
    }
}

/// The bytes of several frames, one after the other.
pub open spec fn wire_all(items: Seq<FrameView>) -> Seq<u8>
    decreases items,
{
    if items.len() == 0 {
        Seq::empty()
    } else {
        wire_all(items.drop_last()) + wire(items.last())
    }
}

/// The payload that stands at `p`, behind a tag byte, and the position
/// behind it: a length line, then a line of just that length.
pub open spec fn payload_at(s: Seq<u8>, p: int) -> Option<(Seq<u8>, int)> {
    match find_crlf(s, p) {
        None => None,
        Some(e) => match number(s.subrange(p, e)) {
            None => None,
            Some(n) => match find_crlf(s, e + 2) {
                None => None,
                Some(d) => if d - (e + 2) == n {
                    Some((s.subrange(e + 2, d), d + 2))
                } else {
                    None
                },
            },
        },
    }
}

/// How many bytes of `s` lie at or behind `p`.
pub open spec fn bytes_left(s: Seq<u8>, p: int) -> nat {
    if p <= s.len() {
        (s.len() - p) as nat
    } else {
        0
    }
}

/// The frame that stands at `p` in `s`, and the position behind it; `None`
/// where the bytes from `p` on do not start with a well-formed frame.
pub open spec fn parse_at(s: Seq<u8>, p: int) -> Option<(FrameView, int)>
    decreases bytes_left(s, p), 0nat,
{
    if p < 0 || p >= s.len() {
        None
    } else if s[p] == TAG {
        match payload_at(s, p + 1) {
            Some((b, q)) => Some((FrameView::Cmd(b), q)),
            None => None,
        }
    } else if s[p] == VALUE {
        match payload_at(s, p + 1) {
            Some((b, q)) => Some((FrameView::Arg(b), q)),
            None => None,
        }
    } else if s[p] == ERROR {
        match payload_at(s, p + 1) {
            Some((b, q)) => Some((FrameView::Error(b), q)),
            None => None,
        }
    } else if s[p] == ARRAY {
        match find_crlf(s, p + 1) {
            None => None,
            Some(e) => match number(s.subrange(p + 1, e)) {
                None => None,
                Some(n) => {
                    proof {
                        lemma_find_crlf(s, p + 1);
                    }
                    match parse_all_at(s, e + 2, n) {
                        Some((items, q)) => Some((FrameView::Array(items), q)),
                        None => None,
                    }
                },
            },
        }
    } else if s[p] == NULL {
        if crlf_at(s, p + 1) {
            Some((FrameView::Null, p + 3))
        } else {
            None
        }
    } else {
        None
    }
}

/// The `n` frames that stand one after the other from `p` on, and the
/// position behind the last: the first `n - 1` of them, and one more
/// behind those. No frame ends before the place where the row starts.
pub open spec fn parse_all_at(s: Seq<u8>, p: int, n: nat) -> Option<(Seq<FrameView>, int)>
    decreases bytes_left(s, p), n + 1,
{
    if n == 0 {
        Some((Seq::empty(), p))
    } else {
        match parse_all_at(s, p, (n - 1) as nat) {
            None => None,
            Some((items, q)) => if q < p {
                None
            } else {
                match parse_at(s, q) {
                    None => None,
                    Some((f, r)) => Some((items.push(f), r)),
                }
            },
        }
    }
}

} // verus!
