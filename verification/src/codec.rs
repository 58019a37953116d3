//! Which members of the outer container hold the package, and how each is
//! compressed.

use vstd::prelude::*;
use vstd::utf8::{encode_utf8, is_ascii_chars};

verus! {

/// The compression of an inner tar member.
#[derive(Copy, Clone, Debug, PartialEq, Eq, Structural)]
pub enum Codec {
    Xz,
    Gz,
    Zstd,
}

/// The two inner tar members of a package.
#[derive(Copy, Clone, Debug, PartialEq, Eq, Structural)]
pub enum Member {
    Control,
    Data,
}

/// The bytes of an ASCII text.
pub open spec fn ascii(text: Seq<char>) -> Seq<u8> {
    Seq::new(text.len(), |i: int| text[i] as u8)
}

/// The identifier under which the container stores `member` compressed
/// with `codec`.
pub open spec fn member_name(member: Member, codec: Codec) -> Seq<u8> {
    match (member, codec) {
        (Member::Data, Codec::Xz) => ascii("data.tar.xz"@),
        (Member::Data, Codec::Gz) => ascii("data.tar.gz"@),
        (Member::Data, Codec::Zstd) => ascii("data.tar.zst"@),
        (Member::Control, Codec::Xz) => ascii("control.tar.xz"@),
        (Member::Control, Codec::Gz) => ascii("control.tar.gz"@),
        (Member::Control, Codec::Zstd) => ascii("control.tar.zst"@),
    }
}

/// The member and codec that an identifier stands for; `None` for every
/// identifier but the six names of `member_name`.
pub open spec fn recognized(identifier: Seq<u8>) -> Option<(Member, Codec)> {
    if identifier == member_name(Member::Data, Codec::Xz) {
        Some((Member::Data, Codec::Xz))
    } else if identifier == member_name(Member::Data, Codec::Gz) {
        Some((Member::Data, Codec::Gz))
    } else if identifier == member_name(Member::Data, Codec::Zstd) {
        Some((Member::Data, Codec::Zstd))
    } else if identifier == member_name(Member::Control, Codec::Xz) {
        Some((Member::Control, Codec::Xz))
    } else if identifier == member_name(Member::Control, Codec::Gz) {
        Some((Member::Control, Codec::Gz))
    } else if identifier == member_name(Member::Control, Codec::Zstd) {
        Some((Member::Control, Codec::Zstd))
    } else {
        None
    }
}

/// Whether `bytes` spells the text `name`: for an ASCII text, whether they
/// are the bytes `ascii(name@)`.
pub fn spells(bytes: &[u8], name: &str) -> (same: bool)
    ensures
        same == (bytes@ == encode_utf8(name@)),
        is_ascii_chars(name@) ==> same == (bytes@ == ascii(name@)),
{
    let wanted = name.as_bytes();
    proof {
        vstd::string::is_ascii_spec_bytes(name);
    }
    if bytes.len() != wanted.len() {
        return false;
    }
    let mut i: usize = 0;
    while i < bytes.len()
        invariant
            i <= bytes.len(),
            bytes.len() == wanted.len(),
            wanted@ == encode_utf8(name@),
            is_ascii_chars(name@) ==> wanted@ == ascii(name@),
            forall|j: int| 0 <= j < i ==> bytes@[j] == wanted@[j],
        decreases bytes.len() - i,
    {
        if bytes[i] != wanted[i] {
            return false;
        }
        i = i + 1;
    }
    assert(bytes@ =~= wanted@);
    true
}

/// Selects the member and codec for a container member's identifier.
pub fn select(identifier: &[u8]) -> (found: Option<(Member, Codec)>)
    ensures
        found == recognized(identifier@),
{
    proof {
        reveal_strlit("data.tar.xz");
        reveal_strlit("data.tar.gz");
        reveal_strlit("data.tar.zst");
        reveal_strlit("control.tar.xz");
        reveal_strlit("control.tar.gz");
        reveal_strlit("control.tar.zst");
    }
    if spells(identifier, "data.tar.xz") {
        Some((Member::Data, Codec::Xz))
    } else if spells(identifier, "data.tar.gz") {
        Some((Member::Data, Codec::Gz))
    } else if spells(identifier, "data.tar.zst") {
        Some((Member::Data, Codec::Zstd))
    } else if spells(identifier, "control.tar.xz") {
        Some((Member::Control, Codec::Xz))
    } else if spells(identifier, "control.tar.gz") {
        Some((Member::Control, Codec::Gz))
    } else if spells(identifier, "control.tar.zst") {
        Some((Member::Control, Codec::Zstd))
    } else {
        None
    }
}

/// Each of the six names is recognized as the member and codec it is the
/// name of, and nothing else is recognized.
pub proof fn lemma_recognized_names(identifier: Seq<u8>, member: Member, codec: Codec)
    ensures
        recognized(identifier) == Some((member, codec)) <==> identifier == member_name(
            member,
            codec,
        ),
{
    reveal_strlit("data.tar.xz");
    reveal_strlit("data.tar.gz");
    reveal_strlit("data.tar.zst");
    reveal_strlit("control.tar.xz");
    reveal_strlit("control.tar.gz");
    reveal_strlit("control.tar.zst");
    let dx = member_name(Member::Data, Codec::Xz);
    let dg = member_name(Member::Data, Codec::Gz);
    let dz = member_name(Member::Data, Codec::Zstd);
    let cx = member_name(Member::Control, Codec::Xz);
    let cg = member_name(Member::Control, Codec::Gz);
    let cz = member_name(Member::Control, Codec::Zstd);
    assert(dx.len() == 11 && dg.len() == 11 && dz.len() == 12);
    assert(cx.len() == 14 && cg.len() == 14 && cz.len() == 15);
    assert(dx[9] == 'x' as u8 && dg[9] == 'g' as u8);
    assert(cx[12] == 'x' as u8 && cg[12] == 'g' as u8);
}

} // verus!
