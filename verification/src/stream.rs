//! The stream of a member: its content in the container, decoded.
//!
//! A decoder gives the stream out as it is asked for. A walk over the
//! entries asks for it piece by piece; for unpacking the stream is read to
//! its end.

use crate::codec::Codec;
use crate::container::{ar_content, ar_read, common_layout, has_common_layout};
use crate::error::{view_of, Failure};
use crate::index::MemberRef;
use crate::walk::{read_all, stream_reading, EntryView, Reading, Stream};
use vstd::prelude::*;

verus! {

/// What the gzip decoder of `libflate` makes of `data`: what can be had
/// from the stream that it gives out, or the kind of the error with which
/// it refuses the data at once.
pub uninterp spec fn gzip_opened(data: Seq<u8>) -> Result<Reading, std::io::ErrorKind>;

/// What the decoder of `xz2` makes of `data`: what can be had from the
/// stream that it gives out.
pub uninterp spec fn xz_opened(data: Seq<u8>) -> Reading;

/// What the decoder of `zstd` makes of `data`: what can be had from the
/// stream that it gives out, or the kind of the error with which it
/// refuses at once.
pub uninterp spec fn zstd_opened(data: Seq<u8>) -> Result<Reading, std::io::ErrorKind>;

/// What opening has come to, as plain values.
pub open spec fn reading_of(stream: Result<Stream, std::io::ErrorKind>) -> Result<
    Reading,
    std::io::ErrorKind,
> {
    match stream {
        Ok(stream) => Ok(stream_reading(stream)),
        Err(kind) => Err(kind),
    }
}

/// Trusted: `libflate::gzip::Decoder::new` over `data` gives the stream
/// that `gzip_opened` names, or the kind of its error. It reads the header
/// of the data and no more.
#[verifier::external_body]
pub(crate) fn gzip_stream<'a>(data: &'a [u8]) -> (stream: Result<Stream<'a>, std::io::ErrorKind>)
    ensures
        reading_of(stream) == gzip_opened(data@),
{
    match libflate::gzip::Decoder::new(data) {
        Ok(decoder) => Ok(Stream { inner: Box::new(decoder) }),
        Err(error) => Err(error.kind()),
    }
}

/// Trusted: `xz2::read::XzDecoder::new` over `data` gives the stream that
/// `xz_opened` names. It reads nothing yet.
#[verifier::external_body]
pub(crate) fn xz_stream<'a>(data: &'a [u8]) -> (stream: Stream<'a>)
    ensures
        stream_reading(stream) == xz_opened(data@),
{
    Stream { inner: Box::new(xz2::read::XzDecoder::new(data)) }
}

/// Trusted: `zstd::Decoder::new` over `data` gives the stream that
/// `zstd_opened` names, or the kind of its error. It reads nothing yet.
#[verifier::external_body]
pub(crate) fn zstd_stream<'a>(data: &'a [u8]) -> (stream: Result<Stream<'a>, std::io::ErrorKind>)
    ensures
        reading_of(stream) == zstd_opened(data@),
{
    match zstd::Decoder::new(data) {
        Ok(decoder) => Ok(Stream { inner: Box::new(decoder) }),
        Err(error) => Err(error.kind()),
    }
}

/// What the decoder of `codec` makes of `data`: what can be had from its
/// stream, or the failure of a decoder that refuses the data at once.
pub open spec fn opened(codec: Codec, data: Seq<u8>) -> Result<Reading, Failure> {
    match codec {
        Codec::Gz => match gzip_opened(data) {
            Ok(reading) => Ok(reading),
            Err(kind) => Err(Failure::Stream(kind)),
        },
        Codec::Xz => Ok(xz_opened(data)),
        Codec::Zstd => match zstd_opened(data) {
            Ok(reading) => Ok(reading),
            Err(kind) => Err(Failure::Stream(kind)),
        },
    }
}

/// The stream that `data` holds under `codec`, whole, or the failure of
/// its decoder, at once or while the stream is read.
pub open spec fn decoded(codec: Codec, data: Seq<u8>) -> Result<Seq<u8>, Failure> {
    match opened(codec, data) {
        Ok(reading) => match reading.bytes {
            Ok(stream) => Ok(stream),
            Err(kind) => Err(Failure::Stream(kind)),
        },
        Err(failure) => Err(failure),
    }
}

/// The content of the member at `ordinal` of the container `bytes`. Bytes
/// that are no container of the common format yield no member.
pub open spec fn member_content(bytes: Seq<u8>, ordinal: usize) -> Result<Seq<u8>, Failure> {
    if !common_layout(bytes) {
        Err(Failure::Layout)
    } else {
        match ar_content(bytes, ordinal) {
            Err(kind) => Err(Failure::Container(kind)),
            Ok(content) => Ok(content),
        }
    }
}

/// The stream of the member `member` of the container `bytes`, whole: the
/// member's content is taken from the container, then decoded.
pub open spec fn member_stream(bytes: Seq<u8>, member: MemberRef) -> Result<Seq<u8>, Failure> {
    match member_content(bytes, member.ordinal) {
        Err(failure) => Err(failure),
        Ok(content) => decoded(member.codec, content),
    }
}

/// What a walk over the member `member` of the container `bytes` yields,
/// the member decoded as the walk goes: an error of the decoder in the
/// midst of the stream is an item of the walk, after the entries that
/// stand before it.
pub open spec fn member_walk(bytes: Seq<u8>, member: MemberRef) -> Result<
    Seq<Result<EntryView, std::io::ErrorKind>>,
    Failure,
> {
    match member_content(bytes, member.ordinal) {
        Err(failure) => Err(failure),
        Ok(content) => match opened(member.codec, content) {
            Err(failure) => Err(failure),
            Ok(reading) => Ok(reading.walk),
        },
    }
}

/// Opens the decoder of `codec` over `data`. Nothing is decoded yet but
/// what the decoder needs to see that the data is for it.
pub(crate) fn open_stream<'a>(codec: Codec, data: &'a [u8]) -> (stream: Result<Stream<'a>, Failure>)
    ensures
        match stream {
            Ok(stream) => opened(codec, data@) == Ok::<Reading, Failure>(stream_reading(stream)),
            Err(failure) => opened(codec, data@) == Err::<Reading, Failure>(failure),
        },
{
    match codec {
        Codec::Gz => match gzip_stream(data) {
            Ok(stream) => Ok(stream),
            Err(kind) => Err(Failure::Stream(kind)),
        },
        Codec::Xz => Ok(xz_stream(data)),
        Codec::Zstd => match zstd_stream(data) {
            Ok(stream) => Ok(stream),
            Err(kind) => Err(Failure::Stream(kind)),
        },
    }
}

/// Decodes `data` with the decoder of `codec`, to the end of the stream.
pub fn decode(codec: Codec, data: &[u8]) -> (stream: Result<Vec<u8>, Failure>)
    ensures
        view_of(stream) == decoded(codec, data@),
{
    match open_stream(codec, data) {
        Err(failure) => Err(failure),
        Ok(stream) => match read_all(stream) {
            Ok(bytes) => Ok(bytes),
            Err(kind) => Err(Failure::Stream(kind)),
        },
    }
}

/// Takes the content of the member at `ordinal` from the container.
pub fn read_content(bytes: &[u8], ordinal: usize) -> (content: Result<Vec<u8>, Failure>)
    ensures
        view_of(content) == member_content(bytes@, ordinal),
{
    if !has_common_layout(bytes) {
        return Err(Failure::Layout);
    }
    match ar_read(bytes, ordinal) {
        Err(kind) => Err(Failure::Container(kind)),
        Ok(content) => Ok(content),
    }
}

/// Opens the stream of a member and reads it to its end: finds the member
/// in the container by its ordinal and decodes its content.
pub fn open_member(bytes: &[u8], member: MemberRef) -> (stream: Result<Vec<u8>, Failure>)
    ensures
        view_of(stream) == member_stream(bytes@, member),
{
    match read_content(bytes, member.ordinal) {
        Err(failure) => Err(failure),
        Ok(content) => decode(member.codec, content.as_slice()),
    }
}

} // verus!
