//! What the library assumes of `bytes::Bytes`, the buffer that frames keep
//! their payloads in, and of the UTF-8 check of the standard library.
//!
//! Nothing in this file is proved: each item states what the named function
//! of the `bytes` crate, or of `core`, does.

use bytes::Bytes;
use vstd::prelude::*;

verus! {

/// `bytes::Bytes`: an immutable, cheaply cloneable run of bytes.
#[verifier::external_type_specification]
#[verifier::external_body]
pub struct ExBytes(bytes::Bytes);

/// `core::str::Utf8Error`: why a run of bytes is no UTF-8 text.
#[verifier::external_type_specification]
#[verifier::external_body]
pub struct ExUtf8Error(core::str::Utf8Error);

/// The bytes that a `Bytes` holds, first to last.
pub uninterp spec fn bytes_seq(b: Bytes) -> Seq<u8>;

/// `Bytes::from_static` holds exactly the bytes of the slice it is given.
pub assume_specification[ Bytes::from_static ](bytes: &'static [u8]) -> (b: Bytes)
    ensures
        bytes_seq(b) == bytes@,
;

/// `Bytes::copy_from_slice` holds a copy of the slice: the same bytes in the
/// same order.
pub assume_specification[ Bytes::copy_from_slice ](data: &[u8]) -> (b: Bytes)
    ensures
        bytes_seq(b) == data@,
;

/// `Bytes::len` is the number of bytes held.
pub assume_specification[ Bytes::len ](b: &Bytes) -> (n: usize)
    ensures
        n == bytes_seq(*b).len(),
;

/// `Bytes::from(String)` takes over the string's buffer: it holds the
/// UTF-8 encoding of the text.
pub assume_specification[ <Bytes as core::convert::From<String>>::from ](s: String) -> (b: Bytes)
    ensures
        bytes_seq(b) == vstd::utf8::encode_utf8(s@),
;

/// A clone of a `Bytes` is a second handle on the same memory: it holds the
/// same bytes.
pub assume_specification[ <Bytes as core::clone::Clone>::clone ](b: &Bytes) -> (c: Bytes)
    ensures
        bytes_seq(c) == bytes_seq(*b),
;

/// Dereferencing a `Bytes` gives the bytes it holds as a slice.
pub assume_specification[ <Bytes as core::ops::Deref>::deref ](b: &Bytes) -> (s: &[u8])
    ensures
        s@ == bytes_seq(*b),
;

/// `core::str::from_utf8` succeeds exactly on valid UTF-8, and the text it
/// returns is encoded by the very bytes it was given.
pub assume_specification[ core::str::from_utf8 ](v: &[u8]) -> (r: Result<&str, core::str::Utf8Error>)
    ensures
        r is Ok <==> vstd::utf8::valid_utf8(v@),
        r matches Ok(s) ==> vstd::utf8::encode_utf8(s@) == v@,
;

} // verus!
