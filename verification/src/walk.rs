//! The entries of a tar stream, one at a time.

use crate::codec::Member;
use crate::error::{view_of, Error, Failure, VisitError};
use vstd::prelude::*;

verus! {

/// An entry of a tar stream: its path as the stream stores it, whether it
/// is a directory, and its content.
#[derive(Clone, Debug, PartialEq, Eq)]
pub struct Entry {
    pub path: Vec<u8>,
    pub is_dir: bool,
    pub data: Vec<u8>,
}

/// An entry as a plain value.
pub struct EntryView {
    pub path: Seq<u8>,
    pub is_dir: bool,
    pub data: Seq<u8>,
}

impl View for Entry {
    type V = EntryView;

    open spec fn view(&self) -> EntryView {
        EntryView { path: self.path@, is_dir: self.is_dir, data: self.data@ }
    }
}

/// A stream of bytes that is read as it is asked for: a member as its
/// decoder gives it out, or bytes that are there already.
#[verifier::external_body]
pub struct Stream<'a> {
    pub(crate) inner: Box<dyn std::io::Read + 'a>,
}

/// What can be had from a stream from which nothing was read yet.
pub struct Reading {
    /// What reading the stream to its end gives: all its bytes, or the kind
    /// of the error that ends the reading.
    pub bytes: Result<Seq<u8>, std::io::ErrorKind>,
    /// What a walk over the stream yields, entry by entry: the entry, or
    /// the kind of the error that the reader reports.
    pub walk: Seq<Result<EntryView, std::io::ErrorKind>>,
}

/// A reader of the `tar` crate over a stream. Its type is generic over
/// what it reads from, which keeps it opaque here.
#[verifier::external_body]
pub struct TarReader<'a> {
    inner: tar::Archive<Box<dyn std::io::Read + 'a>>,
}

/// The entries that a reader of the `tar` crate has yet to yield.
#[verifier::external_body]
pub struct TarEntries<'r, 'a> {
    inner: tar::Entries<'r, Box<dyn std::io::Read + 'a>>,
}

/// What a walk over the bytes `stream` yields, entry by entry: the entry,
/// or the kind of the error that the reader reports.
pub uninterp spec fn tar_listing(stream: Seq<u8>) -> Seq<Result<EntryView, std::io::ErrorKind>>;

/// What can be had from `stream`.
pub uninterp spec fn stream_reading(stream: Stream) -> Reading;

/// What a walk over `stream` yields.
pub open spec fn stream_walk(stream: Stream) -> Seq<Result<EntryView, std::io::ErrorKind>> {
    stream_reading(stream).walk
}

/// What a walk of `reader` yields, where none has begun; `None` for any
/// other reader.
pub uninterp spec fn tar_walk(reader: TarReader) -> Option<
    Seq<Result<EntryView, std::io::ErrorKind>>,
>;

/// What `entries` has yet to yield.
pub uninterp spec fn tar_pending(entries: TarEntries) -> Seq<Result<EntryView, std::io::ErrorKind>>;

/// Trusted: bytes behind `std::io::Read` are a stream from which nothing
/// was read yet: read to its end it gives the bytes, and a walk over it
/// yields what `tar_listing` names.
#[verifier::external_body]
pub(crate) fn plain_stream<'a>(bytes: &'a [u8]) -> (stream: Stream<'a>)
    ensures
        stream_reading(stream) == (Reading { bytes: Ok(bytes@), walk: tar_listing(bytes@) }),
{
    Stream { inner: Box::new(bytes) }
}

/// Trusted: `std::io::Read::read_to_end` gives all the bytes of the stream,
/// or the kind of the error that ends the reading.
#[verifier::external_body]
pub(crate) fn read_all(stream: Stream) -> (bytes: Result<Vec<u8>, std::io::ErrorKind>)
    ensures
        view_of(bytes) == stream_reading(stream).bytes,
{
    let mut stream = stream;
    let mut bytes = Vec::new();
    match std::io::Read::read_to_end(&mut stream.inner, &mut bytes) {
        Ok(_) => Ok(bytes),
        Err(error) => Err(error.kind()),
    }
}

/// Trusted: `tar::Archive::new` gives a reader from which no walk has
/// begun. It reads nothing from the stream.
#[verifier::external_body]
pub(crate) fn tar_open<'a>(stream: Stream<'a>) -> (reader: TarReader<'a>)
    ensures
        tar_walk(reader) == Some(stream_walk(stream)),
{
    TarReader { inner: tar::Archive::new(stream.inner) }
}

/// Trusted: `tar::Archive::entries` of a reader from which no walk has
/// begun succeeds (it refuses only a reader that has left the start of its
/// stream), and what it gives will yield what `tar_walk` names.
#[verifier::external_body]
pub(crate) fn tar_entries<'r, 'a>(reader: &'r mut TarReader<'a>) -> (entries: Result<
    TarEntries<'r, 'a>,
    std::io::ErrorKind,
>)
    requires
        tar_walk(*old(reader)) is Some,
    ensures
        entries is Ok,
        entries matches Ok(entries) ==> tar_pending(entries) == tar_walk(*old(reader))->0,
{
    match reader.inner.entries() {
        Ok(inner) => Ok(TarEntries { inner }),
        Err(error) => Err(error.kind()),
    }
}

/// Trusted: the `next` of `tar::Entries` yields the first of the pending
/// items and leaves the rest pending: the entry with its path
/// (`path_bytes`), whether its type is that of a directory (`is_dir`) and
/// its content read to its end, or the kind of the reader's error. It
/// yields `None` when nothing is pending.
#[verifier::external_body]
pub(crate) fn tar_next(entries: &mut TarEntries) -> (item: Option<
    Result<Entry, std::io::ErrorKind>,
>)
    ensures
        match item {
            Some(found) => tar_pending(*old(entries)).len() > 0 && tar_pending(*final(entries))
                == tar_pending(*old(entries)).drop_first() && tar_pending(*old(entries))[0]
                == view_of(found),
            None => tar_pending(*old(entries)).len() == 0,
        },
{
    let mut entry = match entries.inner.next()? {
        Ok(entry) => entry,
        Err(error) => return Some(Err(error.kind())),
    };
    let path = entry.path_bytes().into_owned();
    let is_dir = entry.header().entry_type().is_dir();
    let mut data = Vec::new();
    match std::io::Read::read_to_end(&mut entry, &mut data) {
        Ok(_) => Some(Ok(Entry { path, is_dir, data })),
        Err(error) => Some(Err(error.kind())),
    }
}

/// Whether `action` may answer `answer` when it is handed the entry
/// `entry`.
pub open spec fn answers<E, F: Fn(&Entry) -> Result<(), E>>(
    action: F,
    entry: EntryView,
    answer: Result<(), E>,
) -> bool {
    exists|handed: Entry| handed@ == entry && #[trigger] action.ensures((&handed,), answer)
}

/// Whether the walk got as far as `end` without an error: every item
/// before `end` is an entry, and the visitor took each one that is no
/// directory.
pub open spec fn passed<E, F: Fn(&Entry) -> Result<(), E>>(
    listing: Seq<Result<EntryView, std::io::ErrorKind>>,
    action: F,
    end: int,
) -> bool {
    forall|i: int|
        0 <= i < end && i < listing.len() ==> match #[trigger] listing[i] {
            Ok(entry) => entry.is_dir || answers(action, entry, Ok(())),
            Err(_) => false,
        }
}

/// Whether `outcome` is how a walk over `listing` can end: well, when the
/// visitor took every entry that is no directory; with the visitor's error,
/// at the first entry that it did not take; as a failure of the stream, at
/// the first item that is an error, with the kind of that error. Items
/// before the end were passed,
/// items after it were not looked at.
pub open spec fn walked<E, F: Fn(&Entry) -> Result<(), E>>(
    listing: Seq<Result<EntryView, std::io::ErrorKind>>,
    action: F,
    member: Member,
    outcome: Result<(), VisitError<E>>,
) -> bool {
    match outcome {
        Ok(()) => passed(listing, action, listing.len() as int),
        Err(VisitError::Archive(error)) => exists|at: int|
            0 <= at < listing.len() && passed(listing, action, at) && match #[trigger] listing[at] {
                Ok(_) => false,
                Err(kind) => error == Error::Read(member, Failure::Tar(kind)),
            },
        Err(VisitError::Visitor(error)) => exists|at: int|
            0 <= at < listing.len() && passed(listing, action, at) && match #[trigger] listing[at] {
                Ok(entry) => !entry.is_dir && answers(action, entry, Err(error)),
                Err(_) => false,
            },
    }
}

/// Walks the entries of `stream` in the order of the stream and hands each
/// one that is no directory to `action`. The walk ends at the first error,
/// the stream's or the visitor's. `action` need not accept directories: it
/// is never handed one.
pub fn visit<E, F: Fn(&Entry) -> Result<(), E>>(
    stream: &[u8],
    member: Member,
    action: F,
) -> (outcome: Result<(), VisitError<E>>)
    requires
        forall|entry: &Entry| !entry.is_dir ==> #[trigger] action.requires((entry,)),
    ensures
        walked(tar_listing(stream@), action, member, outcome),
{
    visit_stream(plain_stream(stream), member, action)
}

/// Walks the entries of `stream` as `visit` walks those of bytes. The
/// stream is read as the walk goes: the entries before an error of the
/// stream are handed out.
pub(crate) fn visit_stream<E, F: Fn(&Entry) -> Result<(), E>>(
    stream: Stream,
    member: Member,
    action: F,
) -> (outcome: Result<(), VisitError<E>>)
    requires
        forall|entry: &Entry| !entry.is_dir ==> #[trigger] action.requires((entry,)),
    ensures
        walked(stream_walk(stream), action, member, outcome),
{
    let ghost listing = stream_walk(stream);
    let mut reader = tar_open(stream);
    let mut entries = match tar_entries(&mut reader) {
        Ok(entries) => entries,
        Err(kind) => {
            return Err(VisitError::Archive(Error::Read(member, Failure::Tar(kind))));
        },
    };
    let ghost mut at: int = 0;
    loop
        invariant
            forall|entry: &Entry| !entry.is_dir ==> #[trigger] action.requires((entry,)),
            listing == stream_walk(stream),
            0 <= at <= listing.len(),
            tar_pending(entries) == listing.skip(at),
            passed(listing, action, at),
        decreases tar_pending(entries).len(),
    {
        match tar_next(&mut entries) {
            None => {
                return Ok(());
            },
            Some(Err(kind)) => {
                assert(listing[at] == listing.skip(at)[0]);
                return Err(VisitError::Archive(Error::Read(member, Failure::Tar(kind))));
            },
            Some(Ok(entry)) => {
                assert(listing[at] == listing.skip(at)[0]);
                if !entry.is_dir {
                    match action(&entry) {
                        Ok(unit) => {
                            assert(unit == ());
                        },
                        Err(error) => {
                            assert(answers(action, entry@, Err(error)));
                            return Err(VisitError::Visitor(error));
                        },
                    }
                }
                assert(entry.is_dir || answers(action, entry@, Ok(())));
                proof {
                    assert(listing.skip(at).drop_first() =~= listing.skip(at + 1));
                    at = at + 1;
                }
            },
        }
    }
}

/// Whether `action`, a visitor that takes a state and gives the next one,
/// may answer `answer` when it is handed `state` and the entry `entry`.
pub open spec fn steps<S, E, F: Fn(S, &Entry) -> Result<S, E>>(
    action: F,
    state: S,
    entry: EntryView,
    answer: Result<S, E>,
) -> bool {
    exists|handed: Entry| handed@ == entry && #[trigger] action.ensures((state, &handed), answer)
}

/// Whether a walk that began with the state `start` can have come to the
/// item at `end` with the state `state`: every item before `end` is an
/// entry, and the state went through the entries that are no directories,
/// one after the other in the order of the stream, each handed to the
/// visitor once, with the state that the entry before it left.
pub open spec fn reached<S, E, F: Fn(S, &Entry) -> Result<S, E>>(
    listing: Seq<Result<EntryView, std::io::ErrorKind>>,
    action: F,
    start: S,
    end: int,
    state: S,
) -> bool
    decreases end,
{
    if end <= 0 {
        state == start
    } else if end > listing.len() {
        false
    } else {
        match listing[end - 1] {
            Err(_) => false,
            Ok(entry) => if entry.is_dir {
                reached(listing, action, start, end - 1, state)
            } else {
                exists|before: S| #[trigger]
                    steps(action, before, entry, Ok(state)) && reached(
                        listing,
                        action,
                        start,
                        end - 1,
                        before,
                    )
            },
        }
    }
}

/// Whether `outcome` is how a walk with a state can end: with the state
/// that went through all the entries; with the visitor's error, at the
/// first entry that it did not take; as a failure of the stream, at the
/// first item that is an error, with the kind of that error.
pub open spec fn threaded<S, E, F: Fn(S, &Entry) -> Result<S, E>>(
    listing: Seq<Result<EntryView, std::io::ErrorKind>>,
    action: F,
    member: Member,
    start: S,
    outcome: Result<S, VisitError<E>>,
) -> bool {
    match outcome {
        Ok(state) => reached(listing, action, start, listing.len() as int, state),
        Err(VisitError::Archive(error)) => exists|at: int, before: S|
            0 <= at < listing.len() && #[trigger] reached(listing, action, start, at, before)
                && match listing[at] {
                Ok(_) => false,
                Err(kind) => error == Error::Read(member, Failure::Tar(kind)),
            },
        Err(VisitError::Visitor(error)) => exists|at: int, before: S|
            0 <= at < listing.len() && #[trigger] reached(listing, action, start, at, before)
                && match listing[at] {
                Ok(entry) => !entry.is_dir && steps(action, before, entry, Err(error)),
                Err(_) => false,
            },
    }
}

/// Walks the entries of `stream` in the order of the stream with a state:
/// each entry that is no directory is handed to `action` once, together
/// with the state that the entry before it left, and `action` gives the
/// next state. The walk ends at the first error, the stream's or the
/// visitor's; else it gives the last state. `action` need not accept
/// directories: it is never handed one.
pub fn thread<S, E, F: Fn(S, &Entry) -> Result<S, E>>(
    stream: &[u8],
    member: Member,
    start: S,
    action: F,
) -> (outcome: Result<S, VisitError<E>>)
    requires
        forall|state: S, entry: &Entry| !entry.is_dir ==> #[trigger] action.requires((state, entry)),
    ensures
        threaded(tar_listing(stream@), action, member, start, outcome),
{
    thread_stream(plain_stream(stream), member, start, action)
}

/// Walks the entries of `stream` with a state as `thread` walks those of
/// bytes.
pub(crate) fn thread_stream<S, E, F: Fn(S, &Entry) -> Result<S, E>>(
    stream: Stream,
    member: Member,
    start: S,
    action: F,
) -> (outcome: Result<S, VisitError<E>>)
    requires
        forall|state: S, entry: &Entry| !entry.is_dir ==> #[trigger] action.requires((state, entry)),
    ensures
        threaded(stream_walk(stream), action, member, start, outcome),
{
    let ghost listing = stream_walk(stream);
    let mut reader = tar_open(stream);
    let mut entries = match tar_entries(&mut reader) {
        Ok(entries) => entries,
        Err(kind) => {
            return Err(VisitError::Archive(Error::Read(member, Failure::Tar(kind))));
        },
    };
    let ghost mut at: int = 0;
    let mut state = start;
    loop
        invariant
            forall|state: S, entry: &Entry|
                !entry.is_dir ==> #[trigger] action.requires((state, entry)),
            listing == stream_walk(stream),
            0 <= at <= listing.len(),
            tar_pending(entries) == listing.skip(at),
            reached(listing, action, start, at, state),
        decreases tar_pending(entries).len(),
    {
        match tar_next(&mut entries) {
            None => {
                return Ok(state);
            },
            Some(Err(kind)) => {
                assert(listing[at] == listing.skip(at)[0]);
                return Err(VisitError::Archive(Error::Read(member, Failure::Tar(kind))));
            },
            Some(Ok(entry)) => {
                assert(listing[at] == listing.skip(at)[0]);
                let ghost before = state;
                if !entry.is_dir {
                    match action(state, &entry) {
                        Ok(next) => {
                            assert(steps(action, before, entry@, Ok(next)));
                            state = next;
                            assert(reached(listing, action, start, at, before) && steps(
                                action,
                                before,
                                entry@,
                                Ok(state),
                            ));
                        },
                        Err(error) => {
                            assert(steps(action, before, entry@, Err(error)));
                            return Err(VisitError::Visitor(error));
                        },
                    }
                }
                proof {
                    assert(listing.skip(at).drop_first() =~= listing.skip(at + 1));
                    assert(listing[at + 1 - 1] == Ok::<EntryView, std::io::ErrorKind>(entry@));
                    assert(reached(listing, action, start, at + 1, state));
                    at = at + 1;
                }
            },
        }
    }
}

/// Whether `action` answers each entry in one way only.
pub open spec fn single_minded<E, F: Fn(&Entry) -> Result<(), E>>(action: F) -> bool {
    forall|entry: EntryView, one: Result<(), E>, other: Result<(), E>|
        #[trigger] answers(action, entry, one) && #[trigger] answers(action, entry, other) ==> one
            == other
}

/// Where a walk with the outcome `outcome` ended: the index of the item
/// that ended it, or the length of the listing.
spec fn stop<E, F: Fn(&Entry) -> Result<(), E>>(
    listing: Seq<Result<EntryView, std::io::ErrorKind>>,
    action: F,
    member: Member,
    outcome: Result<(), VisitError<E>>,
) -> int {
    match outcome {
        Ok(()) => listing.len() as int,
        Err(VisitError::Archive(error)) => choose|at: int|
            0 <= at < listing.len() && passed(listing, action, at) && match #[trigger] listing[at] {
                Ok(_) => false,
                Err(kind) => error == Error::Read(member, Failure::Tar(kind)),
            },
        Err(VisitError::Visitor(error)) => choose|at: int|
            0 <= at < listing.len() && passed(listing, action, at) && match #[trigger] listing[at] {
                Ok(entry) => !entry.is_dir && answers(action, entry, Err(error)),
                Err(_) => false,
            },
    }
}

/// Of two outcomes of a walk, the first is no error that the second rules
/// out: both end at the same item.
proof fn lemma_walk_ends_once<E, F: Fn(&Entry) -> Result<(), E>>(
    listing: Seq<Result<EntryView, std::io::ErrorKind>>,
    action: F,
    member: Member,
    first: Result<(), VisitError<E>>,
    second: Result<(), VisitError<E>>,
)
    requires
        single_minded(action),
        walked(listing, action, member, first),
        walked(listing, action, member, second),
    ensures
        first is Ok ==> second is Ok,
        first is Err && second is Err ==> first == second,
{
    let end = stop(listing, action, member, first);
    let other = stop(listing, action, member, second);
    if end < other {
        assert(listing[end] is Ok);
    } else if other < end {
        assert(listing[other] is Ok);
    }
}

/// A walk over the same entries with a visitor that answers each entry in
/// one way only ends in one way only.
pub proof fn lemma_walk_repeats<E, F: Fn(&Entry) -> Result<(), E>>(
    listing: Seq<Result<EntryView, std::io::ErrorKind>>,
    action: F,
    member: Member,
    first: Result<(), VisitError<E>>,
    second: Result<(), VisitError<E>>,
)
    requires
        single_minded(action),
        walked(listing, action, member, first),
        walked(listing, action, member, second),
    ensures
        first == second,
{
    lemma_walk_ends_once(listing, action, member, first, second);
    lemma_walk_ends_once(listing, action, member, second, first);
    if first is Ok {
        let one: () = first->Ok_0;
        let other: () = second->Ok_0;
        assert(one == other);
    }
}

} // verus!
