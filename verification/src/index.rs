//! Where the two inner members stand in the container.

use crate::codec::{recognized, select, Codec, Member};
use crate::error::Error;
use vstd::prelude::*;

verus! {

/// A member of the container: its place among the members, counted from
/// zero, and its codec.
#[derive(Copy, Clone, Debug, PartialEq, Eq, Structural)]
pub struct MemberRef {
    pub ordinal: usize,
    pub codec: Codec,
}

/// What a scan of the container has found so far.
#[derive(Copy, Clone, Debug)]
pub struct MemberIndex {
    pub data: Option<MemberRef>,
    pub control: Option<MemberRef>,
}

/// The member and codec of an item of a listing; `None` for an item that is
/// an error or has another name.
pub open spec fn member_at(listing: Seq<Option<Seq<u8>>>, at: int) -> Option<(Member, Codec)> {
    match listing[at] {
        Some(identifier) => recognized(identifier),
        None => None,
    }
}

impl MemberIndex {
    /// The index that has found nothing.
    pub open spec fn empty() -> MemberIndex {
        MemberIndex { data: None, control: None }
    }

    /// Whether both members are found.
    pub open spec fn complete(self) -> bool {
        self.data is Some && self.control is Some
    }

    /// The index after the member at `ordinal` was seen: a data or control
    /// member takes its slot, whatever stood there; any other leaves the
    /// index as it is.
    pub open spec fn observed(self, ordinal: usize, member: Option<(Member, Codec)>) -> MemberIndex {
        match member {
            Some((Member::Data, codec)) => MemberIndex {
                data: Some(MemberRef { ordinal, codec }),
                control: self.control,
            },
            Some((Member::Control, codec)) => MemberIndex {
                data: self.data,
                control: Some(MemberRef { ordinal, codec }),
            },
            None => self,
        }
    }

    /// What the index stands for when the scan is over: both members, or
    /// the error for the one that is missing, the data member first.
    pub open spec fn outcome(self) -> Result<(MemberRef, MemberRef), Error> {
        match (self.data, self.control) {
            (None, _) => Err(Error::DataNotFound),
            (Some(_), None) => Err(Error::ControlNotFound),
            (Some(data), Some(control)) => Ok((data, control)),
        }
    }

    /// An index that has found nothing.
    pub fn new() -> (index: MemberIndex)
        ensures
            index == MemberIndex::empty(),
    {
        MemberIndex { data: None, control: None }
    }

    /// Takes note of the member at `ordinal`, which has the identifier
    /// `identifier`.
    pub fn record(&mut self, ordinal: usize, identifier: &[u8])
        ensures
            *final(self) == old(self).observed(ordinal, recognized(identifier@)),
    {
        match select(identifier) {
            Some((Member::Data, codec)) => {
                self.data = Some(MemberRef { ordinal, codec });
            },
            Some((Member::Control, codec)) => {
                self.control = Some(MemberRef { ordinal, codec });
            },
            None => {},
        }
    }

    /// Whether both members are found, so that the scan can end.
    pub fn is_complete(&self) -> (complete: bool)
        ensures
            complete == self.complete(),
    {
        self.data.is_some() && self.control.is_some()
    }

    /// Ends the scan.
    pub fn finish(&self) -> (outcome: Result<(MemberRef, MemberRef), Error>)
        ensures
            outcome == self.outcome(),
    {
        match (self.data, self.control) {
            (None, _) => Err(Error::DataNotFound),
            (Some(_), None) => Err(Error::ControlNotFound),
            (Some(data), Some(control)) => Ok((data, control)),
        }
    }
}

/// The index after the items of `listing` from `at` on were scanned, one
/// after the other, until both members are found or the listing ends.
pub open spec fn scan_from(index: MemberIndex, listing: Seq<Option<Seq<u8>>>, at: int) -> MemberIndex
    decreases listing.len() - at,
{
    if at < 0 || at >= listing.len() || index.complete() {
        index
    } else {
        scan_from(index.observed(at as usize, member_at(listing, at)), listing, at + 1)
    }
}

/// The index that a scan of `listing` ends with.
pub open spec fn scan(listing: Seq<Option<Seq<u8>>>) -> MemberIndex {
    scan_from(MemberIndex::empty(), listing, 0)
}

/// Whether the item at `at` is `member`, under any codec.
pub open spec fn is_member(listing: Seq<Option<Seq<u8>>>, at: int, member: Member) -> bool {
    match member_at(listing, at) {
        Some((found, _)) => found == member,
        None => false,
    }
}

/// Whether `listing` holds `member` somewhere before `end`.
pub open spec fn holds(listing: Seq<Option<Seq<u8>>>, member: Member, end: int) -> bool {
    exists|i: int| 0 <= i < end && i < listing.len() && #[trigger] is_member(listing, i, member)
}

/// A slot is what it should be after the items before `end` were scanned:
/// empty where no such member stands there, and else pointing at one.
pub open spec fn slot_fits(
    slot: Option<MemberRef>,
    listing: Seq<Option<Seq<u8>>>,
    member: Member,
    end: int,
) -> bool {
    match slot {
        None => !holds(listing, member, end),
        Some(found) => found.ordinal < end && found.ordinal < listing.len() && member_at(
            listing,
            found.ordinal as int,
        ) == Some((member, found.codec)),
    }
}

proof fn lemma_scan_from(index: MemberIndex, listing: Seq<Option<Seq<u8>>>, at: int)
    requires
        0 <= at <= listing.len() <= usize::MAX,
        slot_fits(index.data, listing, Member::Data, at),
        slot_fits(index.control, listing, Member::Control, at),
    ensures
        slot_fits(scan_from(index, listing, at).data, listing, Member::Data, listing.len() as int)
            || scan_from(index, listing, at).complete(),
        slot_fits(
            scan_from(index, listing, at).control,
            listing,
            Member::Control,
            listing.len() as int,
        ) || scan_from(index, listing, at).complete(),
        scan_from(index, listing, at).data matches Some(found) ==> found.ordinal < listing.len()
            && member_at(listing, found.ordinal as int) == Some((Member::Data, found.codec)),
        scan_from(index, listing, at).control matches Some(found) ==> found.ordinal
            < listing.len() && member_at(listing, found.ordinal as int) == Some(
            (Member::Control, found.codec),
        ),
    decreases listing.len() - at,
{
    if at < listing.len() && !index.complete() {
        let next = index.observed(at as usize, member_at(listing, at));
        assert forall|member: Member|
            !holds(listing, member, at) && !is_member(listing, at, member) implies !holds(
            listing,
            member,
            at + 1,
        ) by {
            if holds(listing, member, at + 1) {
                let i = choose|i: int|
                    0 <= i < at + 1 && i < listing.len() && #[trigger] is_member(
                        listing,
                        i,
                        member,
                    );
                assert(holds(listing, member, at));
            }
        }
        lemma_scan_from(next, listing, at + 1);
    }
}

/// A scan finds a member exactly when the listing holds one, and what it
/// has found is a member of that kind with the codec that its name says.
/// So the data member is reported missing exactly when there is none, and
/// the control member when there is a data member and no control member.
pub proof fn lemma_scan_finds(listing: Seq<Option<Seq<u8>>>)
    requires
        listing.len() <= usize::MAX,
    ensures
        scan(listing).data is Some <==> holds(listing, Member::Data, listing.len() as int),
        scan(listing).control is Some <==> holds(listing, Member::Control, listing.len() as int),
        scan(listing).data matches Some(found) ==> found.ordinal < listing.len() && member_at(
            listing,
            found.ordinal as int,
        ) == Some((Member::Data, found.codec)),
        scan(listing).control matches Some(found) ==> found.ordinal < listing.len() && member_at(
            listing,
            found.ordinal as int,
        ) == Some((Member::Control, found.codec)),
        scan(listing).outcome() == Err::<(MemberRef, MemberRef), Error>(Error::DataNotFound)
            <==> !holds(listing, Member::Data, listing.len() as int),
        scan(listing).outcome() == Err::<(MemberRef, MemberRef), Error>(Error::ControlNotFound)
            <==> holds(listing, Member::Data, listing.len() as int) && !holds(
            listing,
            Member::Control,
            listing.len() as int,
        ),
{
    lemma_scan_from(MemberIndex::empty(), listing, 0);
    if let Some(found) = scan(listing).data {
        assert(is_member(listing, found.ordinal as int, Member::Data));
    }
    if let Some(found) = scan(listing).control {
        assert(is_member(listing, found.ordinal as int, Member::Control));
    }
}

/// The index of the last item before `end` that is `member`.
pub open spec fn last_before(
    listing: Seq<Option<Seq<u8>>>,
    member: Member,
    end: int,
) -> Option<int>
    decreases end,
{
    if end <= 0 {
        None
    } else if end <= listing.len() && is_member(listing, end - 1, member) {
        Some(end - 1)
    } else {
        last_before(listing, member, end - 1)
    }
}

/// The slot for `member` when the items before `end` have been seen: it
/// points at the last of them that is `member`.
pub open spec fn slot_at(listing: Seq<Option<Seq<u8>>>, member: Member, end: int) -> Option<
    MemberRef,
> {
    match last_before(listing, member, end) {
        Some(at) => match member_at(listing, at) {
            Some((_, codec)) => Some(MemberRef { ordinal: at as usize, codec }),
            None => None,
        },
        None => None,
    }
}

/// Where a scan that has come to `at` ends: before the first item at or
/// after `at` by which both members have been seen, or at the end of the
/// listing.
pub open spec fn scan_end(listing: Seq<Option<Seq<u8>>>, at: int) -> int
    decreases listing.len() - at,
{
    if at < 0 || at >= listing.len() {
        listing.len() as int
    } else if last_before(listing, Member::Data, at) is Some && last_before(
        listing,
        Member::Control,
        at,
    ) is Some {
        at
    } else {
        scan_end(listing, at + 1)
    }
}

/// What `last_before` finds is an item before `end` that is `member`.
proof fn lemma_last_before(listing: Seq<Option<Seq<u8>>>, member: Member, end: int)
    ensures
        last_before(listing, member, end) matches Some(at) ==> 0 <= at < end && at < listing.len()
            && is_member(listing, at, member),
    decreases end,
{
    if end > 0 {
        lemma_last_before(listing, member, end - 1);
    }
}

proof fn lemma_scan_slots(index: MemberIndex, listing: Seq<Option<Seq<u8>>>, at: int)
    requires
        0 <= at <= listing.len() <= usize::MAX,
        index.data == slot_at(listing, Member::Data, at),
        index.control == slot_at(listing, Member::Control, at),
    ensures
        at <= scan_end(listing, at) <= listing.len(),
        scan_from(index, listing, at).data == slot_at(
            listing,
            Member::Data,
            scan_end(listing, at),
        ),
        scan_from(index, listing, at).control == slot_at(
            listing,
            Member::Control,
            scan_end(listing, at),
        ),
    decreases listing.len() - at,
{
    lemma_last_before(listing, Member::Data, at);
    lemma_last_before(listing, Member::Control, at);
    if at < listing.len() && !index.complete() {
        lemma_scan_slots(index.observed(at as usize, member_at(listing, at)), listing, at + 1);
    }
}

/// What a scan ends with, said at once: the scan sees the items up to the
/// first one by which both members have been seen, or all of them, and
/// each slot points at the last member of its kind among those.
pub proof fn lemma_scan_is_last_seen(listing: Seq<Option<Seq<u8>>>)
    requires
        listing.len() <= usize::MAX,
    ensures
        0 <= scan_end(listing, 0) <= listing.len(),
        scan(listing).data == slot_at(listing, Member::Data, scan_end(listing, 0)),
        scan(listing).control == slot_at(listing, Member::Control, scan_end(listing, 0)),
{
    lemma_scan_slots(MemberIndex::empty(), listing, 0);
}

proof fn lemma_scan_from_prefix(
    index: MemberIndex,
    first: Seq<Option<Seq<u8>>>,
    second: Seq<Option<Seq<u8>>>,
    end: int,
    at: int,
)
    requires
        0 <= at <= end <= first.len(),
        end <= second.len(),
        first.take(end) == second.take(end),
        scan_from(index, first.take(end), at).complete(),
    ensures
        scan_from(index, first, at) == scan_from(index, first.take(end), at),
        scan_from(index, second, at) == scan_from(index, first.take(end), at),
    decreases end - at,
{
    let head = first.take(end);
    if !index.complete() {
        assert(at < end);
        assert(head[at] == first[at]);
        assert(second.take(end)[at] == second[at]);
        lemma_scan_from_prefix(
            index.observed(at as usize, member_at(head, at)),
            first,
            second,
            end,
            at + 1,
        );
    }
}

/// What stands after the member that completes the index does not decide:
/// two listings that agree up to the item by which both members have been
/// seen give the same index, however they go on.
pub proof fn lemma_scan_ignores_the_rest(
    first: Seq<Option<Seq<u8>>>,
    second: Seq<Option<Seq<u8>>>,
    end: int,
)
    requires
        0 <= end <= first.len(),
        end <= second.len(),
        first.take(end) == second.take(end),
        scan(first.take(end)).complete(),
    ensures
        scan(first) == scan(second),
        scan(first) == scan(first.take(end)),
{
    lemma_scan_from_prefix(MemberIndex::empty(), first, second, end, 0);
}

} // verus!
