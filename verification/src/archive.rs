//! A Debian package, opened on the bytes of its file.

use crate::codec::{recognized, Member};
use crate::container::{
    after_member, ar_listing, ar_next, ar_open, ar_pending, ar_rest, has_magic, header_is_safe,
    safe_header, starts_with_magic, step_over, MAGIC_LEN,
};
use crate::control::{control_fields, read_control_stream};
use crate::error::{view_of, Error, Failure, VisitError};
use crate::fields::{ControlMap, Field};
use crate::index::{
    lemma_scan_ignores_the_rest, member_at, scan, scan_from, MemberIndex, MemberRef,
};
use crate::stream::{member_stream, member_walk, open_member, open_stream, read_content};
use crate::walk::{
    lemma_walk_repeats, single_minded, thread_stream, threaded, visit_stream, walked, Entry,
};
use vstd::prelude::*;

verus! {

/// Whether a scan that has come to the member at `ordinal`, whose header
/// `rest` begins with, meets a header that it cannot ask the reader for
/// before it is over: a header whose name is not plain. The scan is over
/// when both members are found, when the listing ends, and at an item that
/// is an error. What stands after that does not count.
pub open spec fn blocked(
    index: MemberIndex,
    listing: Seq<Option<Seq<u8>>>,
    rest: Seq<u8>,
    ordinal: int,
) -> bool
    decreases listing.len() - ordinal,
{
    if index.complete() {
        false
    } else if !safe_header(rest) {
        true
    } else if ordinal < 0 || ordinal >= listing.len() {
        false
    } else {
        match listing[ordinal] {
            None => false,
            Some(identifier) => blocked(
                index.observed(ordinal as usize, recognized(identifier)),
                listing,
                after_member(rest),
                ordinal + 1,
            ),
        }
    }
}

/// What opening `bytes` comes to: the two members that a scan of the
/// container finds, or the error: `Malformed` for bytes that do not begin
/// with the magic or in which the scan meets a header that is not plain,
/// else the error for the member that the container lacks.
pub open spec fn indexed(bytes: Seq<u8>) -> Result<(MemberRef, MemberRef), Error> {
    if !has_magic(bytes) || blocked(
        MemberIndex::empty(),
        ar_listing(bytes),
        bytes.skip(MAGIC_LEN as int),
        0,
    ) {
        Err(Error::Malformed)
    } else {
        scan(ar_listing(bytes)).outcome()
    }
}

/// What reading the stream of a member comes to, the failure said of
/// `member`.
pub open spec fn extracted(bytes: Seq<u8>, member: Member, at: MemberRef) -> Result<
    Seq<u8>,
    Error,
> {
    match member_stream(bytes, at) {
        Ok(stream) => Ok(stream),
        Err(failure) => Err(Error::Read(member, failure)),
    }
}

/// What reading the control file from the control member at `at` comes to.
pub open spec fn control_map_of(bytes: Seq<u8>, at: MemberRef) -> Result<Seq<Field>, Error> {
    match member_walk(bytes, at) {
        Ok(listing) => match control_fields(listing) {
            Ok(fields) => Ok(fields),
            Err(failure) => Err(Error::Read(Member::Control, failure)),
        },
        Err(failure) => Err(Error::Read(Member::Control, failure)),
    }
}

/// Whether `outcome` is how a walk over the entries of the member at `at`
/// can end: with the failure of a stream that does not open, else as
/// `walked` says of the entries of the stream.
pub open spec fn visited<E, F: Fn(&Entry) -> Result<(), E>>(
    bytes: Seq<u8>,
    member: Member,
    at: MemberRef,
    action: F,
    outcome: Result<(), VisitError<E>>,
) -> bool {
    match member_walk(bytes, at) {
        Ok(listing) => walked(listing, action, member, outcome),
        Err(failure) => outcome matches Err(VisitError::Archive(error)) && error == Error::Read(
            member,
            failure,
        ),
    }
}

/// Whether `outcome` is how a walk with a state over the entries of the
/// member at `at` can end: with the failure of a stream that does not open,
/// else as `threaded` says of the entries of the stream.
pub open spec fn visited_with<S, E, F: Fn(S, &Entry) -> Result<S, E>>(
    bytes: Seq<u8>,
    member: Member,
    at: MemberRef,
    start: S,
    action: F,
    outcome: Result<S, VisitError<E>>,
) -> bool {
    match member_walk(bytes, at) {
        Ok(listing) => threaded(listing, action, member, start, outcome),
        Err(failure) => outcome matches Err(VisitError::Archive(error)) && error == Error::Read(
            member,
            failure,
        ),
    }
}

/// What opening has come to, as plain values: the places of the two
/// members, data first, or the error.
pub open spec fn places_of(outcome: Result<Archive, Error>) -> Result<(MemberRef, MemberRef), Error> {
    match outcome {
        Ok(archive) => Ok((archive.data_member(), archive.control_member())),
        Err(error) => Err(error),
    }
}

/// A package: the bytes of its file, and where its two members stand in
/// them. Nothing else is kept: every operation finds its member again and
/// decodes it from the start.
#[derive(Debug)]
pub struct Archive<'a> {
    bytes: &'a [u8],
    data: MemberRef,
    control: MemberRef,
}

impl<'a> Archive<'a> {
    #[verifier::type_invariant]
    spec fn well_formed(&self) -> bool {
        indexed(self.bytes@) == Ok::<(MemberRef, MemberRef), Error>((self.data, self.control))
    }

    /// The bytes of the package.
    pub closed spec fn source(&self) -> Seq<u8> {
        self.bytes@
    }

    /// Where the data member stands.
    pub closed spec fn data_member(&self) -> MemberRef {
        self.data
    }

    /// Where the control member stands.
    pub closed spec fn control_member(&self) -> MemberRef {
        self.control
    }

    /// Opens the package that `bytes` holds. The members of the container
    /// are scanned from the first until both the data and the control
    /// member are found. What stands after them is not looked at.
    pub fn new(bytes: &'a [u8]) -> (archive: Result<Archive<'a>, Error>)
        ensures
            places_of(archive) == indexed(bytes@),
            archive matches Ok(archive) ==> archive.source() == bytes@,
    {
        if !starts_with_magic(bytes) {
            return Err(Error::Malformed);
        }
        let ghost listing = ar_listing(bytes@);
        let ghost start = bytes@.skip(MAGIC_LEN as int);
        let mut reader = ar_open(bytes);
        let mut index = MemberIndex::new();
        let mut ordinal: usize = 0;
        let mut at: usize = MAGIC_LEN;
        assert(listing.len() <= usize::MAX) by {
            assert(bytes@.len() == bytes.len());
        }
        loop
            invariant_except_break
                ar_pending(reader) == listing.skip(ordinal as int),
                ar_rest(reader) == bytes@.skip(at as int),
            invariant
                has_magic(bytes@),
                listing == ar_listing(bytes@),
                start == bytes@.skip(MAGIC_LEN as int),
                listing.len() <= usize::MAX,
                ordinal <= listing.len(),
                MAGIC_LEN <= at <= bytes.len(),
                scan(listing) == scan_from(index, listing, ordinal as int),
                blocked(MemberIndex::empty(), listing, start, 0) == blocked(
                    index,
                    listing,
                    bytes@.skip(at as int),
                    ordinal as int,
                ),
            ensures
                scan(listing) == index,
                !blocked(MemberIndex::empty(), listing, start, 0),
            decreases ar_pending(reader).len(),
        {
            if index.is_complete() {
                break ;
            }
            if !header_is_safe(bytes, at) {
                return Err(Error::Malformed);
            }
            match ar_next(&mut reader) {
                None => {
                    assert(ordinal == listing.len());
                    break ;
                },
                Some(Err(_)) => {
                    assert(listing[ordinal as int] == listing.skip(ordinal as int)[0]);
                    assert(listing.skip(ordinal as int).drop_first() =~= listing.skip(ordinal + 1));
                    assert(ordinal + 1 == listing.len());
                    assert(scan_from(index, listing, ordinal as int) == scan_from(
                        index.observed(ordinal, member_at(listing, ordinal as int)),
                        listing,
                        ordinal + 1,
                    ));
                    break ;
                },
                Some(Ok(identifier)) => {
                    assert(listing[ordinal as int] == listing.skip(ordinal as int)[0]);
                    index.record(ordinal, identifier.as_slice());
                    at = step_over(bytes, at);
                },
            }
            assert(listing.skip(ordinal as int).len() > 0);
            assert(listing.skip(ordinal as int).drop_first() =~= listing.skip(ordinal + 1));
            ordinal = ordinal + 1;
        }
        match index.finish() {
            Ok((data, control)) => Ok(Archive { bytes, data, control }),
            Err(error) => Err(error),
        }
    }

    /// The bytes of the package.
    pub fn bytes(&self) -> (bytes: &'a [u8])
        ensures
            bytes@ == self.source(),
    {
        self.bytes
    }

    /// Where the data member stands.
    pub fn data_ref(&self) -> (at: MemberRef)
        ensures
            at == self.data_member(),
            indexed(self.source()) == Ok::<(MemberRef, MemberRef), Error>(
                (self.data_member(), self.control_member()),
            ),
    {
        proof {
            use_type_invariant(self);
        }
        self.data
    }

    /// Where the control member stands.
    pub fn control_ref(&self) -> (at: MemberRef)
        ensures
            at == self.control_member(),
            indexed(self.source()) == Ok::<(MemberRef, MemberRef), Error>(
                (self.data_member(), self.control_member()),
            ),
    {
        proof {
            use_type_invariant(self);
        }
        self.control
    }

    /// The decompressed stream of `member`, found at `at`.
    fn extract(&self, member: Member, at: MemberRef) -> (stream: Result<Vec<u8>, Error>)
        ensures
            view_of(stream) == extracted(self.source(), member, at),
    {
        match open_member(self.bytes, at) {
            Ok(stream) => Ok(stream),
            Err(failure) => Err(Error::Read(member, failure)),
        }
    }

    /// Opens the stream of the member at `at`: finds the member in the
    /// container again and decodes its content from the start.
    pub fn open_member(&self, at: MemberRef) -> (stream: Result<Vec<u8>, Failure>)
        ensures
            view_of(stream) == member_stream(self.source(), at),
    {
        open_member(self.bytes, at)
    }

    /// Walks the entries of `member`, found at `at`.
    fn iter_entries<E, F: Fn(&Entry) -> Result<(), E>>(
        &self,
        action: F,
        member: Member,
        at: MemberRef,
    ) -> (outcome: Result<(), VisitError<E>>)
        requires
            forall|entry: &Entry| !entry.is_dir ==> #[trigger] action.requires((entry,)),
        ensures
            visited(self.source(), member, at, action, outcome),
    {
        let content = match read_content(self.bytes, at.ordinal) {
            Ok(content) => content,
            Err(failure) => {
                return Err(VisitError::Archive(Error::Read(member, failure)));
            },
        };
        let outcome = match open_stream(at.codec, content.as_slice()) {
            Ok(stream) => visit_stream(stream, member, action),
            Err(failure) => Err(VisitError::Archive(Error::Read(member, failure))),
        };
        outcome
    }

    /// Walks the entries of `member`, found at `at`, with a state.
    fn thread_entries<S, E, F: Fn(S, &Entry) -> Result<S, E>>(
        &self,
        start: S,
        action: F,
        member: Member,
        at: MemberRef,
    ) -> (outcome: Result<S, VisitError<E>>)
        requires
            forall|state: S, entry: &Entry|
                !entry.is_dir ==> #[trigger] action.requires((state, entry)),
        ensures
            visited_with(self.source(), member, at, start, action, outcome),
    {
        let content = match read_content(self.bytes, at.ordinal) {
            Ok(content) => content,
            Err(failure) => {
                return Err(VisitError::Archive(Error::Read(member, failure)));
            },
        };
        let outcome = match open_stream(at.codec, content.as_slice()) {
            Ok(stream) => thread_stream(stream, member, start, action),
            Err(failure) => Err(VisitError::Archive(Error::Read(member, failure))),
        };
        outcome
    }

    /// Walks the entries of the control member with a state: each entry
    /// that is no directory is handed to `action` once, in the order of the
    /// stream, with the state that the entry before it left.
    pub fn control_with<S, E, F: Fn(S, &Entry) -> Result<S, E>>(&self, start: S, action: F) -> (outcome:
        Result<S, VisitError<E>>)
        requires
            forall|state: S, entry: &Entry|
                !entry.is_dir ==> #[trigger] action.requires((state, entry)),
        ensures
            visited_with(
                self.source(),
                Member::Control,
                self.control_member(),
                start,
                action,
                outcome,
            ),
    {
        self.thread_entries(start, action, Member::Control, self.control)
    }

    /// Walks the entries of the data member with a state: each entry that
    /// is no directory is handed to `action` once, in the order of the
    /// stream, with the state that the entry before it left.
    pub fn data_with<S, E, F: Fn(S, &Entry) -> Result<S, E>>(&self, start: S, action: F) -> (outcome:
        Result<S, VisitError<E>>)
        requires
            forall|state: S, entry: &Entry|
                !entry.is_dir ==> #[trigger] action.requires((state, entry)),
        ensures
            visited_with(self.source(), Member::Data, self.data_member(), start, action, outcome),
    {
        self.thread_entries(start, action, Member::Data, self.data)
    }

    /// Hands each entry of the control member that is no directory to
    /// `action`, in the order of the stream, up to the first error.
    pub fn control<E, F: Fn(&Entry) -> Result<(), E>>(&self, action: F) -> (outcome: Result<
        (),
        VisitError<E>,
    >)
        requires
            forall|entry: &Entry| !entry.is_dir ==> #[trigger] action.requires((entry,)),
        ensures
            visited(self.source(), Member::Control, self.control_member(), action, outcome),
    {
        self.iter_entries(action, Member::Control, self.control)
    }

    /// Hands each entry of the data member that is no directory to
    /// `action`, in the order of the stream, up to the first error.
    pub fn data<E, F: Fn(&Entry) -> Result<(), E>>(&self, action: F) -> (outcome: Result<
        (),
        VisitError<E>,
    >)
        requires
            forall|entry: &Entry| !entry.is_dir ==> #[trigger] action.requires((entry,)),
        ensures
            visited(self.source(), Member::Data, self.data_member(), action, outcome),
    {
        self.iter_entries(action, Member::Data, self.data)
    }

    /// The decompressed tar stream of the control member, whole, for
    /// unpacking.
    pub fn control_extract(&self) -> (stream: Result<Vec<u8>, Error>)
        ensures
            view_of(stream) == extracted(self.source(), Member::Control, self.control_member()),
    {
        self.extract(Member::Control, self.control)
    }

    /// The decompressed tar stream of the data member, whole, for
    /// unpacking.
    pub fn data_extract(&self) -> (stream: Result<Vec<u8>, Error>)
        ensures
            view_of(stream) == extracted(self.source(), Member::Data, self.data_member()),
    {
        self.extract(Member::Data, self.data)
    }

    /// The mapping of the control file in the control member; the empty
    /// mapping where the member holds no control file.
    pub fn control_map(&self) -> (map: Result<ControlMap, Error>)
        ensures
            view_of(map) == control_map_of(self.source(), self.control_member()),
    {
        let content = match read_content(self.bytes, self.control.ordinal) {
            Ok(content) => content,
            Err(failure) => {
                return Err(Error::Read(Member::Control, failure));
            },
        };
        let stream = match open_stream(self.control.codec, content.as_slice()) {
            Ok(stream) => stream,
            Err(failure) => {
                return Err(Error::Read(Member::Control, failure));
            },
        };
        let outcome = match read_control_stream(stream) {
            Ok(map) => Ok(map),
            Err(failure) => Err(Error::Read(Member::Control, failure)),
        };
        outcome
    }
}

/// Whether the first `count` headers that `first` and `second` hold, taken
/// one after the other, are alike in what a scan asks of them: both can be
/// handed to the reader, or both cannot.
pub open spec fn same_headers(first: Seq<u8>, second: Seq<u8>, count: int) -> bool
    decreases count,
{
    count <= 0 || (safe_header(first) == safe_header(second) && same_headers(
        after_member(first),
        after_member(second),
        count - 1,
    ))
}

proof fn lemma_blocked_prefix(
    index: MemberIndex,
    first: Seq<Option<Seq<u8>>>,
    second: Seq<Option<Seq<u8>>>,
    first_rest: Seq<u8>,
    second_rest: Seq<u8>,
    end: int,
    at: int,
)
    requires
        0 <= at <= end <= first.len(),
        end <= second.len(),
        first.take(end) == second.take(end),
        scan_from(index, first.take(end), at).complete(),
        same_headers(first_rest, second_rest, end - at),
    ensures
        blocked(index, first, first_rest, at) == blocked(index, second, second_rest, at),
    decreases end - at,
{
    let head = first.take(end);
    if !index.complete() {
        assert(at < end);
        assert(head[at] == first[at]);
        assert(second.take(end)[at] == second[at]);
        if safe_header(first_rest) {
            if let Some(identifier) = first[at] {
                lemma_blocked_prefix(
                    index.observed(at as usize, recognized(identifier)),
                    first,
                    second,
                    after_member(first_rest),
                    after_member(second_rest),
                    end,
                    at + 1,
                );
            }
        }
    }
}

/// What stands after the member that completes the index does not decide
/// how opening ends: two containers whose listings agree up to the item by
/// which both members have been seen, and whose headers up to there are
/// alike, open alike, however they go on.
pub proof fn lemma_open_ignores_the_rest(first: Seq<u8>, second: Seq<u8>, end: int)
    requires
        has_magic(first),
        has_magic(second),
        0 <= end <= ar_listing(first).len(),
        end <= ar_listing(second).len(),
        ar_listing(first).take(end) == ar_listing(second).take(end),
        scan(ar_listing(first).take(end)).complete(),
        same_headers(first.skip(MAGIC_LEN as int), second.skip(MAGIC_LEN as int), end),
    ensures
        indexed(first) == indexed(second),
{
    lemma_scan_ignores_the_rest(ar_listing(first), ar_listing(second), end);
    lemma_blocked_prefix(
        MemberIndex::empty(),
        ar_listing(first),
        ar_listing(second),
        first.skip(MAGIC_LEN as int),
        second.skip(MAGIC_LEN as int),
        end,
        0,
    );
}

/// Bytes that do not begin with the magic of a container are no package:
/// opening them ends with `Malformed`.
pub proof fn lemma_no_magic_is_malformed(bytes: Seq<u8>)
    requires
        !has_magic(bytes),
    ensures
        indexed(bytes) == Err::<(MemberRef, MemberRef), Error>(Error::Malformed),
{
}

/// Opening is repeatable: what it finds is fixed by the bytes.
pub proof fn lemma_open_repeats(
    bytes: Seq<u8>,
    first: Result<Archive, Error>,
    second: Result<Archive, Error>,
)
    requires
        places_of(first) == indexed(bytes),
        places_of(second) == indexed(bytes),
    ensures
        places_of(first) == places_of(second),
{
}

/// Reading a member is repeatable: two streams that `control_extract` or
/// `data_extract` may give for the same package are the same, and so are
/// two errors.
pub proof fn lemma_extract_repeats(
    archive: Archive,
    member: Member,
    at: MemberRef,
    first: Result<Vec<u8>, Error>,
    second: Result<Vec<u8>, Error>,
)
    requires
        view_of(first) == extracted(archive.source(), member, at),
        view_of(second) == extracted(archive.source(), member, at),
    ensures
        view_of(first) == view_of(second),
{
}

/// Reading the control file is repeatable: two mappings that `control_map`
/// may give for the same package are the same, and so are two errors.
pub proof fn lemma_control_map_repeats(
    archive: Archive,
    first: Result<ControlMap, Error>,
    second: Result<ControlMap, Error>,
)
    requires
        view_of(first) == control_map_of(archive.source(), archive.control_member()),
        view_of(second) == control_map_of(archive.source(), archive.control_member()),
    ensures
        view_of(first) == view_of(second),
{
}

/// A walk is repeatable for a visitor that answers each entry in one way
/// only: two outcomes that `control` or `data` may give for the same
/// package and the same visitor are the same.
pub proof fn lemma_visit_repeats<E, F: Fn(&Entry) -> Result<(), E>>(
    archive: Archive,
    member: Member,
    at: MemberRef,
    action: F,
    first: Result<(), VisitError<E>>,
    second: Result<(), VisitError<E>>,
)
    requires
        single_minded(action),
        visited(archive.source(), member, at, action, first),
        visited(archive.source(), member, at, action, second),
    ensures
        first == second,
{
    if let Ok(listing) = member_walk(archive.source(), at) {
        lemma_walk_repeats(listing, action, member, first, second);
    }
}

} // verus!
