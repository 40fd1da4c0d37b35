//! What holds between the encoder and the decoder.
//!
//! The encoder writes [`wire`]; the decoder reads [`parse_at`]. The
//! statements here are about those two functions, and so about every
//! buffer that the executable code writes or reads.

use crate::frame::FrameView;
use crate::grammar::{
    crlf, crlf_at, decimal, digits_value, find_crlf, is_digits, lemma_find_crlf, number,
    parse_all_at, parse_at, wire, wire_all, ARRAY, CR, ERROR, NULL, TAG, VALUE,
};
use vstd::prelude::*;

verus! {

/// Whether the bytes `w` stand in `s` from position `p` on.
pub open spec fn stands_at(s: Seq<u8>, p: int, w: Seq<u8>) -> bool {
    0 <= p && p + w.len() <= s.len() && s.subrange(p, p + w.len()) == w
}

/// Whether `s` breaks off at its end inside the bytes `w` that start at
/// `p`: what stands from `p` on is the beginning of `w`, and not all of it.
pub open spec fn cut_at(s: Seq<u8>, p: int, w: Seq<u8>) -> bool {
    0 <= p <= s.len() && s.len() - p < w.len() && s.subrange(p, s.len() as int) == w.take(
        s.len() - p,
    )
}

/// Whether no CRLF stands inside `line`: such bytes can be one line.
pub open spec fn crlf_free(line: Seq<u8>) -> bool {
    forall|i: int| !crlf_at(line, i)
}

/// Whether a frame can cross the wire: no payload holds a CRLF, which
/// would end its line early, and every length fits `usize`. Every number
/// of bytes or elements that a machine holds fits.
pub open spec fn readable(f: FrameView) -> bool
    decreases f,
{
    match f {
        FrameView::Cmd(p) => crlf_free(p) && p.len() <= usize::MAX,
        FrameView::Arg(p) => crlf_free(p) && p.len() <= usize::MAX,
        FrameView::Error(p) => crlf_free(p) && p.len() <= usize::MAX,
        FrameView::Array(items) => items.len() <= usize::MAX && forall|i: int|
            0 <= i < items.len() ==> readable(#[trigger] items[i]),
        FrameView::Null => true,
    }
}

/// The first bytes of a frame that declares a number: the tag byte, the
/// number in decimal, a CRLF.
pub open spec fn header(tag: u8, n: nat) -> Seq<u8> {
    seq![tag] + decimal(n) + crlf()
}

/// The tag byte and the payload of a frame that has a payload.
pub open spec fn tag_and_payload(f: FrameView) -> (u8, Seq<u8>) {
    match f {
        FrameView::Cmd(p) => (TAG, p),
        FrameView::Arg(p) => (VALUE, p),
        FrameView::Error(p) => (ERROR, p),
        _ => (NULL, Seq::empty()),
    }
}

/// Where `a` and then `b` stand, each of them stands.
proof fn lemma_stands_split(s: Seq<u8>, p: int, a: Seq<u8>, b: Seq<u8>)
    requires
        stands_at(s, p, a + b),
    ensures
        stands_at(s, p, a),
        stands_at(s, p + a.len(), b),
{
    let w = a + b;
    assert(s.subrange(p, p + a.len()) =~= w.subrange(0, a.len() as int));
    assert(w.subrange(0, a.len() as int) =~= a);
    assert(s.subrange(p + a.len(), p + a.len() + b.len()) =~= w.subrange(
        a.len() as int,
        w.len() as int,
    ));
    assert(w.subrange(a.len() as int, w.len() as int) =~= b);
}

/// Where `s` breaks off inside `a` and then `b`, it breaks off inside `a`,
/// or `a` stands whole and `s` breaks off inside `b`.
proof fn lemma_cut_split(s: Seq<u8>, p: int, a: Seq<u8>, b: Seq<u8>)
    requires
        cut_at(s, p, a + b),
    ensures
        s.len() - p < a.len() ==> cut_at(s, p, a),
        s.len() - p >= a.len() ==> stands_at(s, p, a) && cut_at(s, p + a.len(), b),
{
    let w = a + b;
    let m = s.len() - p;
    let got = s.subrange(p, s.len() as int);
    assert forall|i: int| 0 <= i < m implies s[p + i] == w[i] by {
        assert(got[i] == s[p + i]);
        assert(w.take(m)[i] == w[i]);
    }
    if m < a.len() {
        assert(got =~= a.take(m));
    } else {
        assert(s.subrange(p, p + a.len()) =~= a);
        let rest = s.subrange(p + a.len(), s.len() as int);
        assert forall|j: int| 0 <= j < rest.len() implies rest[j] == b.take(m - a.len())[j] by {
            assert(rest[j] == s[p + (a.len() + j)]);
            assert(w[a.len() + j] == b[j]);
        }
        assert(rest =~= b.take(m - a.len()));
    }
}

/// The decimal digits of a number are digits, and stand for that number.
pub proof fn lemma_decimal(n: nat)
    ensures
        is_digits(decimal(n)),
        digits_value(decimal(n)) == n,
    decreases n,
{
    let d = decimal(n);
    if n < 10 {
        assert(digits_value(d.drop_last()) == 0);
    } else {
        lemma_decimal(n / 10);
        assert(d.drop_last() =~= decimal(n / 10));
    }
}

/// A line end with none before it is the first.
proof fn lemma_find_crlf_first(s: Seq<u8>, from: int, e: int)
    requires
        0 <= from <= e,
        crlf_at(s, e),
        forall|i: int| from <= i < e ==> !crlf_at(s, i),
    ensures
        find_crlf(s, from) == Some(e),
    decreases e - from,
{
    if from < e {
        assert(!crlf_at(s, from));
        lemma_find_crlf_first(s, from + 1, e);
    }
}

/// Where a line without CRLF inside stands with its CRLF, the line ends
/// at that CRLF.
proof fn lemma_line(s: Seq<u8>, p: int, line: Seq<u8>)
    requires
        stands_at(s, p, line + crlf()),
        crlf_free(line),
    ensures
        find_crlf(s, p) == Some(p + line.len()),
        s.subrange(p, p + line.len()) == line,
{
    let w = line + crlf();
    let e = p + line.len();
    lemma_stands_split(s, p, line, crlf());
    assert forall|i: int| p <= i < e + 2 implies s[i] == w[i - p] by {
        assert(s.subrange(p, p + w.len())[i - p] == s[i]);
    }
    assert forall|i: int| p <= i < e implies !crlf_at(s, i) by {
        if i + 1 < e {
            assert(!crlf_at(line, i - p));
            assert(w[i - p] == line[i - p] && w[i - p + 1] == line[i - p + 1]);
        } else {
            assert(s[i + 1] == CR);
        }
    }
    lemma_find_crlf_first(s, p, e);
}

/// A line that breaks off before its CRLF is complete has no end.
proof fn lemma_cut_line(s: Seq<u8>, p: int, line: Seq<u8>)
    requires
        crlf_free(line),
        cut_at(s, p, line + crlf()),
    ensures
        find_crlf(s, p) is None,
{
    let w = line + crlf();
    let m = s.len() - p;
    lemma_find_crlf(s, p);
    assert forall|i: int| p <= i implies !crlf_at(s, i) by {
        if i + 1 < s.len() {
            assert(s.subrange(p, s.len() as int)[i - p] == s[i]);
            assert(s.subrange(p, s.len() as int)[i + 1 - p] == s[i + 1]);
            assert(w.take(m)[i - p] == w[i - p]);
            assert(w.take(m)[i + 1 - p] == w[i + 1 - p]);
            if i + 1 - p < line.len() {
                assert(!crlf_at(line, i - p));
            }
        }
    }
}

/// Where a header stands, the decoder finds its tag byte, reads its line,
/// and takes the number from it, provided the number fits `usize`.
proof fn lemma_header(s: Seq<u8>, p: int, tag: u8, n: nat)
    requires
        stands_at(s, p, header(tag, n)),
    ensures
        s[p] == tag,
        find_crlf(s, p + 1) == Some(p + 1 + decimal(n).len()),
        number(s.subrange(p + 1, p + 1 + decimal(n).len())) == (if n <= usize::MAX {
            Some(n)
        } else {
            None
        }),
{
    let d = decimal(n);
    lemma_decimal(n);
    assert(header(tag, n) =~= seq![tag] + (d + crlf()));
    lemma_stands_split(s, p, seq![tag], d + crlf());
    assert(s.subrange(p, p + 1)[0] == s[p]);
    lemma_line(s, p + 1, d);
}

/// Where a buffer breaks off inside a header, but not before its tag byte,
/// the decoder finds the tag byte and no end of the line behind it.
proof fn lemma_cut_header(s: Seq<u8>, p: int, tag: u8, n: nat)
    requires
        cut_at(s, p, header(tag, n)),
        p < s.len(),
    ensures
        s[p] == tag,
        find_crlf(s, p + 1) is None,
{
    let d = decimal(n);
    lemma_decimal(n);
    assert(header(tag, n) =~= seq![tag] + (d + crlf()));
    lemma_cut_split(s, p, seq![tag], d + crlf());
    assert(s.subrange(p, p + 1)[0] == s[p]);
    lemma_cut_line(s, p + 1, d);
}

/// Where the bytes that the encoder writes for a frame stand in a buffer,
/// the decoder reads that very frame there, and stops just behind it.
pub proof fn lemma_read_back(s: Seq<u8>, p: int, f: FrameView)
    requires
        readable(f),
        stands_at(s, p, wire(f)),
    ensures
        parse_at(s, p) == Some((f, p + wire(f).len())),
    decreases f,
{
    match f {
        FrameView::Array(items) => {
            let head = header(ARRAY, items.len());
            assert(wire(f) =~= head + wire_all(items));
            lemma_stands_split(s, p, head, wire_all(items));
            lemma_header(s, p, ARRAY, items.len());
            lemma_read_back_all(s, p + head.len(), items);
        },
        FrameView::Null => {
            assert(s.subrange(p, p + 3)[0] == s[p]);
            assert(s.subrange(p, p + 3)[1] == s[p + 1]);
            assert(s.subrange(p, p + 3)[2] == s[p + 2]);
        },
        _ => {
            let (tag, payload) = tag_and_payload(f);
            let head = header(tag, payload.len());
            assert(wire(f) =~= head + (payload + crlf()));
            lemma_stands_split(s, p, head, payload + crlf());
            lemma_header(s, p, tag, payload.len());
            lemma_line(s, p + head.len(), payload);
        },
    }
}

/// Where the bytes of several frames stand one after the other, the
/// decoder reads those frames in a row.
pub proof fn lemma_read_back_all(s: Seq<u8>, p: int, items: Seq<FrameView>)
    requires
        forall|i: int| 0 <= i < items.len() ==> readable(#[trigger] items[i]),
        stands_at(s, p, wire_all(items)),
    ensures
        parse_all_at(s, p, items.len()) == Some((items, p + wire_all(items).len())),
    decreases items,
{
    if items.len() > 0 {
        let front = items.drop_last();
        lemma_stands_split(s, p, wire_all(front), wire(items.last()));
        lemma_read_back_all(s, p, front);
        lemma_read_back(s, p + wire_all(front).len(), items.last());
        assert(front.push(items.last()) =~= items);
    } else {
        assert(items =~= Seq::<FrameView>::empty());
    }
}

/// What the encoder writes for a frame, the decoder reads back as that
/// frame, whatever follows it in the buffer.
pub proof fn lemma_wire_round_trip(f: FrameView, rest: Seq<u8>)
    requires
        readable(f),
    ensures
        parse_at(wire(f) + rest, 0) == Some((f, wire(f).len() as int)),
{
    let s = wire(f) + rest;
    assert(s.subrange(0, wire(f).len() as int) =~= wire(f));
    lemma_read_back(s, 0, f);
}

/// A frame with a payload whose length field does not say how long the
/// payload is cannot be decoded: neither where the field is a number other
/// than the payload's length, nor where it is no number at all.
pub proof fn lemma_length_mismatch(
    s: Seq<u8>,
    p: int,
    tag: u8,
    declared: Seq<u8>,
    payload: Seq<u8>,
)
    requires
        tag == TAG || tag == VALUE || tag == ERROR,
        crlf_free(declared),
        crlf_free(payload),
        stands_at(s, p, seq![tag] + declared + crlf() + payload + crlf()),
        number(declared) != Some(payload.len()),
    ensures
        parse_at(s, p) is None,
{
    let w = seq![tag] + declared + crlf() + payload + crlf();
    assert(w =~= seq![tag] + ((declared + crlf()) + (payload + crlf())));
    lemma_stands_split(s, p, seq![tag], (declared + crlf()) + (payload + crlf()));
    lemma_stands_split(s, p + 1, declared + crlf(), payload + crlf());
    assert(s.subrange(p, p + 1)[0] == s[p]);
    lemma_line(s, p + 1, declared);
    lemma_line(s, p + 1 + declared.len() + 2, payload);
}

/// Where the bytes of a frame stand whole, the decoder reads that frame
/// and stops behind it, or reads nothing: it never reads another frame.
pub proof fn lemma_exact_or_none(s: Seq<u8>, p: int, f: FrameView)
    requires
        stands_at(s, p, wire(f)),
    ensures
        parse_at(s, p) is None || parse_at(s, p) == Some((f, p + wire(f).len())),
    decreases f,
{
    match f {
        FrameView::Array(items) => {
            let head = header(ARRAY, items.len());
            assert(wire(f) =~= head + wire_all(items));
            lemma_stands_split(s, p, head, wire_all(items));
            lemma_header(s, p, ARRAY, items.len());
            lemma_exact_or_none_all(s, p + head.len(), items);
        },
        FrameView::Null => {
            assert(s.subrange(p, p + 3)[0] == s[p]);
            assert(s.subrange(p, p + 3)[1] == s[p + 1]);
            assert(s.subrange(p, p + 3)[2] == s[p + 2]);
        },
        _ => {
            let (tag, payload) = tag_and_payload(f);
            let head = header(tag, payload.len());
            assert(wire(f) =~= head + (payload + crlf()));
            lemma_stands_split(s, p, head, payload + crlf());
            lemma_stands_split(s, p + head.len(), payload, crlf());
            lemma_header(s, p, tag, payload.len());
        },
    }
}

/// Where the bytes of several frames stand whole, the decoder reads those
/// frames in a row, or nothing.
pub proof fn lemma_exact_or_none_all(s: Seq<u8>, p: int, items: Seq<FrameView>)
    requires
        stands_at(s, p, wire_all(items)),
    ensures
        parse_all_at(s, p, items.len()) is None || parse_all_at(s, p, items.len()) == Some(
            (items, p + wire_all(items).len()),
        ),
    decreases items,
{
    if items.len() > 0 {
        let front = items.drop_last();
        lemma_stands_split(s, p, wire_all(front), wire(items.last()));
        lemma_exact_or_none_all(s, p, front);
        lemma_exact_or_none(s, p + wire_all(front).len(), items.last());
        assert(front.push(items.last()) =~= items);
    } else {
        assert(items =~= Seq::<FrameView>::empty());
    }
}

/// A buffer that breaks off inside the bytes of a frame does not decode:
/// the decoder reads nothing where a frame was cut short.
pub proof fn lemma_cut_short(s: Seq<u8>, p: int, f: FrameView)
    requires
        cut_at(s, p, wire(f)),
    ensures
        parse_at(s, p) is None,
    decreases f,
{
    if p < s.len() {
        match f {
            FrameView::Array(items) => {
                let head = header(ARRAY, items.len());
                assert(wire(f) =~= head + wire_all(items));
                lemma_cut_split(s, p, head, wire_all(items));
                if s.len() - p < head.len() {
                    lemma_cut_header(s, p, ARRAY, items.len());
                } else {
                    lemma_header(s, p, ARRAY, items.len());
                    lemma_cut_short_all(s, p + head.len(), items);
                }
            },
            FrameView::Null => {
                assert(s.subrange(p, s.len() as int)[0] == s[p]);
            },
            _ => {
                let (tag, payload) = tag_and_payload(f);
                let head = header(tag, payload.len());
                assert(wire(f) =~= head + (payload + crlf()));
                lemma_cut_split(s, p, head, payload + crlf());
                if s.len() - p < head.len() {
                    lemma_cut_header(s, p, tag, payload.len());
                } else {
                    lemma_header(s, p, tag, payload.len());
                    lemma_find_crlf(s, p + head.len());
                }
            },
        }
    }
}

/// A buffer that breaks off inside the bytes of several frames does not
/// decode as that many frames.
pub proof fn lemma_cut_short_all(s: Seq<u8>, p: int, items: Seq<FrameView>)
    requires
        cut_at(s, p, wire_all(items)),
    ensures
        parse_all_at(s, p, items.len()) is None,
    decreases items,
{
    if items.len() > 0 {
        let front = items.drop_last();
        lemma_cut_split(s, p, wire_all(front), wire(items.last()));
        if s.len() - p < wire_all(front).len() {
            lemma_cut_short_all(s, p, front);
        } else {
            lemma_exact_or_none_all(s, p, front);
            lemma_cut_short(s, p + wire_all(front).len(), items.last());
        }
    }
}

/// No beginning of what the encoder writes for a frame decodes, short of
/// the whole: a buffer that was cut off fails, whatever frame it held.
pub proof fn lemma_truncated(f: FrameView, k: int)
    requires
        0 <= k < wire(f).len(),
    ensures
        parse_at(wire(f).take(k), 0) is None,
{
    let s = wire(f).take(k);
    assert(s.subrange(0, s.len() as int) =~= wire(f).take(s.len() - 0));
    lemma_cut_short(s, 0, f);
}

} // verus!
