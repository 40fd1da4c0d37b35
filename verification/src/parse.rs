//! The decoder: reads frames off a buffer of bytes.
//!
//! Every function here either reads what it was asked for and moves the
//! cursor behind it, or fails and leaves the cursor where it was. None of
//! them can panic, whatever the buffer holds.

use crate::frame::{views, Frame, FrameView};
use crate::grammar::{
    bytes_left, digits_value, find_crlf, is_digit, is_digits, lemma_find_crlf, number,
    parse_all_at, parse_at, payload_at, ARRAY, CR, ERROR, LF, NULL, TAG, VALUE,
};
use crate::payload::bytes_seq;
use bytes::Bytes;
use vstd::prelude::*;

verus! {

/// A position in a buffer of bytes.
pub struct Cursor<'a> {
    data: &'a [u8],
    pos: usize,
}

impl<'a> Cursor<'a> {
    #[verifier::type_invariant]
    spec fn in_bounds(self) -> bool {
        self.pos <= self.data@.len()
    }

    /// The whole buffer, read or not.
    pub closed spec fn bytes(self) -> Seq<u8> {
        self.data@
    }

    /// How many bytes of the buffer lie before the cursor.
    pub closed spec fn offset(self) -> int {
        self.pos as int
    }

    /// A cursor at the start of `data`.
    pub fn new(data: &'a [u8]) -> (cur: Self)
        ensures
            cur.bytes() == data@,
            cur.offset() == 0,
    {
        Cursor { data, pos: 0 }
    }

    /// The number of bytes before the cursor; never more than the buffer
    /// holds.
    pub fn position(&self) -> (p: usize)
        ensures
            p == self.offset(),
            p <= self.bytes().len(),
    {
        proof {
            use_type_invariant(self);
        }
        self.pos
    }

    /// The buffer that the cursor walks.
    pub fn get_ref(&self) -> (data: &'a [u8])
        ensures
            data@ == self.bytes(),
    {
        self.data
    }

    /// Whether any byte is left to read.
    pub fn has_remaining(&self) -> (b: bool)
        ensures
            b == (self.offset() < self.bytes().len()),
    {
        self.pos < self.data.len()
    }
}

/// Reads one byte, if one is left.
pub fn get_u8(cur: &mut Cursor) -> (r: Option<u8>)
    ensures
        final(cur).bytes() == old(cur).bytes(),
        if old(cur).offset() < old(cur).bytes().len() {
            &&& r == Some(old(cur).bytes()[old(cur).offset()])
            &&& final(cur).offset() == old(cur).offset() + 1
        } else {
            &&& r is None
            &&& final(cur).offset() == old(cur).offset()
        },
{
    if !cur.has_remaining() {
        return None;
    }
    let b = cur.data[cur.pos];
    cur.pos = cur.pos + 1;
    Some(b)
}

/// Reads up to the next CRLF and returns the bytes before it; the cursor
/// then stands behind the CRLF. Fails where no CRLF follows.
pub fn parse_line<'a>(cur: &mut Cursor<'a>) -> (r: Option<&'a [u8]>)
    ensures
        final(cur).bytes() == old(cur).bytes(),
        match find_crlf(old(cur).bytes(), old(cur).offset()) {
            Some(e) => {
                &&& r matches Some(line) && line@ == old(cur).bytes().subrange(old(cur).offset(), e)
                &&& final(cur).offset() == e + 2
            },
            None => r is None && final(cur).offset() == old(cur).offset(),
        },
{
    proof {
        use_type_invariant(&*cur);
    }
    let data = cur.data;
    let start = cur.pos;
    let len = data.len();
    let mut i = start;
    while i < len
        invariant
            start <= i <= len,
            len == data@.len(),
            cur.data == data,
            cur.pos == start,
            *cur == *old(cur),
            find_crlf(data@, start as int) == find_crlf(data@, i as int),
        decreases len - i,
    {
        if data[i] == CR && i + 1 < len && data[i + 1] == LF {
            cur.pos = i + 2;
            return Some(vstd::slice::slice_subrange(data, start, i));
        }
        i = i + 1;
    }
    None
}

/// A longer run of digits never stands for a smaller number than one of its
/// prefixes.
proof fn lemma_digits_value_grows(s: Seq<u8>, k: int)
    requires
        is_digits(s),
        0 <= k <= s.len(),
    ensures
        digits_value(s.take(k)) <= digits_value(s),
    decreases s.len(),
{
    if k == s.len() {
        assert(s.take(k) =~= s);
    } else {
        let t = s.drop_last();
        assert(t.take(k) =~= s.take(k));
        if t.len() > 0 {
            lemma_digits_value_grows(t, k);
        }
    }
}

/// Reads a length field: decimal digits and nothing else, standing for a
/// number that fits `usize`.
pub fn parse_num(src: &[u8]) -> (r: Option<usize>)
    ensures
        match number(src@) {
            Some(n) => r == Some(n as usize),
            None => r is None,
        },
{
    let len = src.len();
    if len == 0 {
        return None;
    }
    let mut n: usize = 0;
    let mut i: usize = 0;
    while i < len
        invariant
            0 <= i <= len,
            len == src@.len(),
            forall|j: int| 0 <= j < i ==> is_digit(#[trigger] src@[j]),
            n == digits_value(src@.take(i as int)),
        decreases len - i,
    {
        let b = src[i];
        if b < 48 || b > 57 {
            return None;
        }
        let d = (b - 48) as usize;
        proof {
            assert(src@.take(i + 1).drop_last() =~= src@.take(i as int));
            if is_digits(src@) {
                lemma_digits_value_grows(src@, i + 1);
            }
        }
        let tens = match n.checked_mul(10) {
            Some(t) => t,
            None => {
                return None;
            },
        };
        n = match tens.checked_add(d) {
            Some(t) => t,
            None => {
                return None;
            },
        };
        i = i + 1;
    }
    proof {
        assert(src@.take(len as int) =~= src@);
    }
    Some(n)
}

/// Reads a payload behind a tag byte: a length line, then a line that must
/// be exactly that long.
pub fn check_val(cur: &mut Cursor) -> (r: Option<Bytes>)
    ensures
        final(cur).bytes() == old(cur).bytes(),
        match payload_at(old(cur).bytes(), old(cur).offset()) {
            Some((payload, next)) => {
                &&& r matches Some(b) && bytes_seq(b) == payload
                &&& final(cur).offset() == next
            },
            None => r is None && final(cur).offset() == old(cur).offset(),
        },
{
    proof {
        use_type_invariant(&*cur);
    }
    let start = cur.pos;
    let len = match parse_line(cur) {
        Some(line) => match parse_num(line) {
            Some(len) => len,
            None => {
                cur.pos = start;
                return None;
            },
        },
        None => {
            return None;
        },
    };
    proof {
        lemma_find_crlf(cur.bytes(), cur.offset());
    }
    let data = match parse_line(cur) {
        Some(data) => data,
        None => {
            cur.pos = start;
            return None;
        },
    };
    if data.len() != len {
        cur.pos = start;
        return None;
    }
    Some(Bytes::copy_from_slice(data))
}

/// Wherever a frame stands, it ends behind its start and inside the buffer.
pub proof fn lemma_parse_at_bounds(s: Seq<u8>, p: int)
    ensures
        parse_at(s, p) matches Some((_, q)) ==> 0 <= p < q <= s.len(),
    decreases bytes_left(s, p), 0nat,
{
    if 0 <= p < s.len() {
        lemma_find_crlf(s, p + 1);
        if s[p] == ARRAY {
            match find_crlf(s, p + 1) {
                Some(e) => match number(s.subrange(p + 1, e)) {
                    Some(n) => {
                        lemma_parse_all_at_bounds(s, e + 2, n);
                    },
                    None => {},
                },
                None => {},
            }
        } else if s[p] == TAG || s[p] == VALUE || s[p] == ERROR {
            match find_crlf(s, p + 1) {
                Some(e) => {
                    lemma_find_crlf(s, e + 2);
                },
                None => {},
            }
        }
    }
}

/// Wherever `n` frames stand in a row, there are `n` of them, and they end
/// inside the buffer, not before their start.
pub proof fn lemma_parse_all_at_bounds(s: Seq<u8>, p: int, n: nat)
    requires
        0 <= p <= s.len(),
    ensures
        parse_all_at(s, p, n) matches Some((items, q)) ==> p <= q <= s.len() && items.len() == n,
    decreases bytes_left(s, p), n + 1,
{
    if n > 0 {
        lemma_parse_all_at_bounds(s, p, (n - 1) as nat);
        match parse_all_at(s, p, (n - 1) as nat) {
            Some((_, q)) => {
                lemma_parse_at_bounds(s, q);
            },
            None => {},
        }
    }
}

/// Where a row of frames cannot be read, no longer row can.
pub proof fn lemma_parse_all_at_fails(s: Seq<u8>, p: int, k: nat, n: nat)
    requires
        k <= n,
        parse_all_at(s, p, k) is None,
    ensures
        parse_all_at(s, p, n) is None,
    decreases n,
{
    if k < n {
        lemma_parse_all_at_fails(s, p, k, (n - 1) as nat);
    }
}

/// Reads one frame: a tag byte, then what the grammar asks for behind it.
/// An array's elements are read by the same rule, so arrays may nest.
pub fn parse_frame(cur: &mut Cursor) -> (r: Option<Frame>)
    ensures
        final(cur).bytes() == old(cur).bytes(),
        match parse_at(old(cur).bytes(), old(cur).offset()) {
            Some((frame, next)) => {
                &&& r matches Some(f) && f@ == frame
                &&& final(cur).offset() == next
            },
            None => r is None && final(cur).offset() == old(cur).offset(),
        },
    decreases old(cur).bytes().len() - old(cur).offset(),
{
    proof {
        use_type_invariant(&*cur);
    }
    let ghost s = cur.bytes();
    let start = cur.pos;
    let tag = match get_u8(cur) {
        Some(tag) => tag,
        None => {
            return None;
        },
    };
    if tag == TAG {
        match check_val(cur) {
            Some(b) => Some(Frame::Cmd(b)),
            None => {
                cur.pos = start;
                None
            },
        }
    } else if tag == VALUE {
        match check_val(cur) {
            Some(b) => Some(Frame::Arg(b)),
            None => {
                cur.pos = start;
                None
            },
        }
    } else if tag == ERROR {
        match check_val(cur) {
            Some(b) => Some(Frame::Error(b)),
            None => {
                cur.pos = start;
                None
            },
        }
    } else if tag == ARRAY {
        let num = match parse_line(cur) {
            Some(line) => match parse_num(line) {
                Some(num) => num,
                None => {
                    cur.pos = start;
                    return None;
                },
            },
            None => {
                cur.pos = start;
                return None;
            },
        };
        proof {
            lemma_find_crlf(s, start + 1);
        }
        let ghost first = cur.offset();
        let mut arr: Vec<Frame> = Vec::with_capacity(3);
        let mut i: usize = 0;
        while i < num
            invariant
                cur.bytes() == s,
                s == old(cur).bytes(),
                start == old(cur).offset(),
                start < first <= cur.offset() <= s.len(),
                i <= num,
                parse_at(s, start as int) == (match parse_all_at(s, first, num as nat) {
                    Some((items, q)) => Some((FrameView::Array(items), q)),
                    None => None,
                }),
                parse_all_at(s, first, i as nat) == Some((views(arr@), cur.offset())),
            decreases num - i,
        {
            proof {
                lemma_parse_at_bounds(s, cur.offset());
            }
            match parse_frame(cur) {
                Some(f) => {
                    arr.push(f);
                },
                None => {
                    proof {
                        lemma_parse_all_at_fails(s, first, (i + 1) as nat, num as nat);
                    }
                    cur.pos = start;
                    return None;
                },
            }
            i = i + 1;
        }
        Some(Frame::Array(arr))
    } else if tag == NULL {
        let data = cur.data;
        let at = cur.pos;
        if at < data.len() && data[at] == CR && at + 1 < data.len() && data[at + 1] == LF {
            cur.pos = at + 2;
            Some(Frame::Null)
        } else {
            cur.pos = start;
            None
        }
    } else {
        cur.pos = start;
        None
    }
}

} // verus!
