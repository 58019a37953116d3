//! The outer container: an archive of the common `ar` format.
//!
//! A package is stored in the common format, in which a member's name
//! stands in its header. The reader of the `ar` crate also follows the
//! extensions that store long names elsewhere, and a header that refers to
//! a table of names that is not there makes it panic. So the reader is only
//! asked for a member whose header is known not to use these extensions.
//! This module finds the headers where the reader finds them: it reads a
//! member's size with the functions that the reader reads it with.

use crate::codec::ascii;
use crate::text::{decimal_of, trimmed_end};
use vstd::prelude::*;
use vstd::slice::slice_subrange;
use vstd::string::StringSliceAdditionalSpecFns;
use vstd::utf8::{decode_utf8, valid_utf8};

verus! {

/// The length of the container's magic.
pub const MAGIC_LEN: usize = 8;

/// The length of a member's header.
pub const HEADER_LEN: usize = 60;

/// Where the size stands in a member's header, and where it ends.
pub const SIZE_START: usize = 48;

pub const SIZE_END: usize = 58;

/// The magic that a container begins with.
pub open spec fn magic() -> Seq<u8> {
    ascii("!<arch>\n"@)
}

/// Whether `bytes` begins with the container's magic.
pub open spec fn has_magic(bytes: Seq<u8>) -> bool {
    bytes.len() >= MAGIC_LEN && bytes.subrange(0, MAGIC_LEN as int) == magic()
}

/// The size that the field `field` of a header holds: the field is text,
/// and without the white space at its end it spells a number in decimal.
/// `None` for a field of any other form.
pub open spec fn size_read(field: Seq<u8>) -> Option<u64> {
    if valid_utf8(field) {
        decimal_of(trimmed_end(decode_utf8(field)))
    } else {
        None
    }
}

/// Whether the header `header` names its member in the header itself: the
/// name does not begin with `/` (a reference into a table of names) nor
/// with `#1/` (a name that follows the header).
pub open spec fn plain_name(header: Seq<u8>) -> bool {
    &&& header[0] != 0x2F
    &&& !(header[0] == 0x23 && header[1] == 0x31 && header[2] == 0x2F)
}

/// Whether a reader can be asked for the member that `rest` begins with:
/// where `rest` holds a whole header, the header has a plain name.
pub open spec fn safe_header(rest: Seq<u8>) -> bool {
    rest.len() >= HEADER_LEN ==> plain_name(rest)
}

/// What follows the member that `rest` begins with: after the header come
/// as many bytes as its size says, and one more where the size is odd.
/// Nothing follows a member whose size cannot be read, or that the end of
/// the bytes cuts short.
pub open spec fn after_member(rest: Seq<u8>) -> Seq<u8> {
    match size_read(rest.subrange(SIZE_START as int, SIZE_END as int)) {
        Some(size) => {
            let step = HEADER_LEN + size + size % 2;
            if step <= rest.len() {
                rest.skip(step)
            } else {
                Seq::empty()
            }
        },
        None => Seq::empty(),
    }
}

/// Whether every whole header in `rest` has a plain name, the headers
/// taken one after the other as `after_member` finds them.
pub open spec fn plain_rest(rest: Seq<u8>) -> bool
    decreases rest.len(),
{
    if rest.len() < HEADER_LEN {
        true
    } else if !plain_name(rest) {
        false
    } else {
        plain_rest(after_member(rest))
    }
}

/// Whether `bytes` is a container of the common format: the magic, then
/// members with plain names.
pub open spec fn common_layout(bytes: Seq<u8>) -> bool {
    has_magic(bytes) && plain_rest(bytes.skip(MAGIC_LEN as int))
}

/// Reads the size of the member whose header stands at `at`.
pub fn read_size(bytes: &[u8], at: usize) -> (size: Option<u64>)
    requires
        at + HEADER_LEN <= bytes.len(),
    ensures
        size == size_read(bytes@.skip(at as int).subrange(SIZE_START as int, SIZE_END as int)),
{
    let field = slice_subrange(bytes, at + SIZE_START, at + SIZE_END);
    assert(field@ =~= bytes@.skip(at as int).subrange(SIZE_START as int, SIZE_END as int));
    match std::str::from_utf8(field) {
        Ok(text) => {
            proof {
                vstd::utf8::encode_utf8_decode_utf8(text@);
            }
            match u64::from_str_radix(text.trim_end(), 10) {
                Ok(size) => Some(size),
                Err(_) => None,
            }
        },
        Err(_) => None,
    }
}

/// Whether the header at `at` has a plain name.
pub fn name_is_plain(bytes: &[u8], at: usize) -> (plain: bool)
    requires
        at + HEADER_LEN <= bytes.len(),
    ensures
        plain == plain_name(bytes@.skip(at as int)),
{
    bytes[at] != 0x2F && !(bytes[at] == 0x23 && bytes[at + 1] == 0x31 && bytes[at + 2] == 0x2F)
}

/// Whether a reader can be asked for the member at `at`.
pub fn header_is_safe(bytes: &[u8], at: usize) -> (safe: bool)
    requires
        at <= bytes.len(),
    ensures
        safe == safe_header(bytes@.skip(at as int)),
{
    bytes.len() - at < HEADER_LEN || name_is_plain(bytes, at)
}

/// Where the member after the one at `at` begins; the length of `bytes`
/// where nothing follows.
pub fn step_over(bytes: &[u8], at: usize) -> (next: usize)
    requires
        at + HEADER_LEN <= bytes.len(),
    ensures
        at + HEADER_LEN <= next <= bytes.len(),
        bytes@.skip(next as int) == after_member(bytes@.skip(at as int)),
{
    let left = bytes.len() - at - HEADER_LEN;
    let ghost rest = bytes@.skip(at as int);
    let next = match read_size(bytes, at) {
        None => bytes.len(),
        Some(size) => {
            if size > left as u64 {
                bytes.len()
            } else {
                let step = size + size % 2;
                if step > left as u64 {
                    bytes.len()
                } else {
                    at + HEADER_LEN + step as usize
                }
            }
        },
    };
    assert(bytes@.skip(next as int) =~= after_member(rest));
    next
}

/// Whether `data` begins with the container's magic.
pub fn starts_with_magic(data: &[u8]) -> (yes: bool)
    ensures
        yes == has_magic(data@),
{
    if data.len() < MAGIC_LEN {
        return false;
    }
    proof {
        reveal_strlit("!<arch>\n");
    }
    let head = slice_subrange(data, 0, MAGIC_LEN);
    crate::codec::spells(head, "!<arch>\n")
}

/// Whether `data` is a container of the common format.
pub fn has_common_layout(data: &[u8]) -> (ok: bool)
    ensures
        ok == common_layout(data@),
{
    if !starts_with_magic(data) {
        return false;
    }
    let mut at: usize = MAGIC_LEN;
    while data.len() - at >= HEADER_LEN
        invariant
            MAGIC_LEN <= at <= data.len(),
            has_magic(data@),
            plain_rest(data@.skip(MAGIC_LEN as int)) == plain_rest(data@.skip(at as int)),
        decreases data.len() - at,
    {
        if !name_is_plain(data, at) {
            return false;
        }
        at = step_over(data, at);
    }
    true
}

/// A reader of the `ar` crate over the bytes of a container. Its type is
/// generic over what it reads from, which keeps it opaque here.
#[verifier::external_body]
pub struct ArReader<'a> {
    inner: ar::Archive<std::io::Cursor<&'a [u8]>>,
}

/// The error of the readers and decoders.
#[verifier::external_type_specification]
#[verifier::external_body]
pub struct ExIoError(std::io::Error);

/// What a reader over `bytes` yields, member by member: the member's
/// identifier, or `None` where the reader reports an error.
pub uninterp spec fn ar_listing(bytes: Seq<u8>) -> Seq<Option<Seq<u8>>>;

/// What `reader` has yet to yield.
pub uninterp spec fn ar_pending(reader: ArReader) -> Seq<Option<Seq<u8>>>;

/// The bytes from where `reader` looks for the header of its next member.
pub uninterp spec fn ar_rest(reader: ArReader) -> Seq<u8>;

/// The content of the member at `ordinal` among the members of `bytes`, as
/// a reader that jumps there finds it, or the kind of the error that it
/// reports.
pub uninterp spec fn ar_content(bytes: Seq<u8>, ordinal: usize) -> Result<
    Seq<u8>,
    std::io::ErrorKind,
>;

/// Trusted: `ar::Archive::new` over bytes that begin with the magic gives a
/// reader that will yield what `ar_listing` names, and that looks for its
/// first header after the magic. It yields no more items than there are
/// bytes: each member takes a header of sixty bytes, and after an error the
/// reader yields nothing more.
#[verifier::external_body]
pub(crate) fn ar_open<'a>(bytes: &'a [u8]) -> (reader: ArReader<'a>)
    requires
        has_magic(bytes@),
    ensures
        ar_pending(reader) == ar_listing(bytes@),
        ar_pending(reader).len() <= bytes@.len(),
        ar_rest(reader) == bytes@.skip(MAGIC_LEN as int),
{
    ArReader { inner: ar::Archive::new(std::io::Cursor::new(bytes)) }
}

/// Trusted: `ar::Archive::next_entry`, asked for a member whose header has
/// a plain name, returns. It yields the first of the pending items and
/// leaves the rest pending: a member's identifier, or the reader's error.
/// A member that it yields had a whole header with a size that could be
/// read, and the reader then looks for the next header after that member.
/// After an error it yields nothing more. It yields `None` when nothing is
/// pending.
#[verifier::external_body]
pub(crate) fn ar_next(reader: &mut ArReader) -> (item: Option<Result<Vec<u8>, std::io::Error>>)
    requires
        safe_header(ar_rest(*old(reader))),
    ensures
        match item {
            Some(found) => ar_pending(*old(reader)).len() > 0 && ar_pending(*final(reader))
                == ar_pending(*old(reader)).drop_first() && match found {
                Ok(identifier) => ar_pending(*old(reader))[0] == Some(identifier@) && ar_rest(
                    *old(reader),
                ).len() >= HEADER_LEN && ar_rest(*final(reader)) == after_member(
                    ar_rest(*old(reader)),
                ),
                Err(_) => ar_pending(*old(reader))[0] == None::<Seq<u8>> && ar_pending(
                    *final(reader),
                ).len() == 0,
            },
            None => ar_pending(*old(reader)).len() == 0,
        },
{
    match reader.inner.next_entry()? {
        Ok(entry) => Some(Ok(entry.header().identifier().to_vec())),
        Err(error) => Some(Err(error)),
    }
}

/// Trusted: on a container of the common format, a fresh reader's
/// `ar::Archive::jump_to_entry` returns, and read to its end it gives the
/// content that `ar_content` names, or the kind of the reader's error.
#[verifier::external_body]
pub(crate) fn ar_read(bytes: &[u8], ordinal: usize) -> (content: Result<
    Vec<u8>,
    std::io::ErrorKind,
>)
    requires
        common_layout(bytes@),
    ensures
        crate::error::view_of(content) == ar_content(bytes@, ordinal),
{
    let mut archive = ar::Archive::new(std::io::Cursor::new(bytes));
    let mut entry = match archive.jump_to_entry(ordinal) {
        Ok(entry) => entry,
        Err(error) => return Err(error.kind()),
    };
    let mut content = Vec::new();
    match std::io::Read::read_to_end(&mut entry, &mut content) {
        Ok(_) => Ok(content),
        Err(error) => Err(error.kind()),
    }
}

} // verus!
