use debarchive::codec::{select, spells};
use debarchive::index::MemberIndex;
use debarchive::{Codec, Error, Member, MemberRef};

#[test]
fn the_six_names_are_recognized() {
    assert_eq!(select(b"data.tar.xz"), Some((Member::Data, Codec::Xz)));
    assert_eq!(select(b"data.tar.gz"), Some((Member::Data, Codec::Gz)));
    assert_eq!(select(b"data.tar.zst"), Some((Member::Data, Codec::Zstd)));
    assert_eq!(select(b"control.tar.xz"), Some((Member::Control, Codec::Xz)));
    assert_eq!(select(b"control.tar.gz"), Some((Member::Control, Codec::Gz)));
    assert_eq!(select(b"control.tar.zst"), Some((Member::Control, Codec::Zstd)));
}

#[test]
fn other_names_are_not_recognized() {
    for name in [
        &b""[..],
        b"debian-binary",
        b"data.tar",
        b"data.tar.",
        b"data.tar.bz2",
        b"data.tar.lzma",
        b"data.tar.gzz",
        b"data.tar.xz ",
        b" data.tar.xz",
        b"Data.tar.xz",
        b"DATA.TAR.XZ",
        b"data.tar.xz/",
        b"control.tar",
        b"control.tar.zs",
        b"control.tar.zstd",
        b"control",
        b"./control.tar.gz",
        b"data.tar.gz\0",
        b"\xff\xfe",
    ] {
        assert_eq!(select(name), None);
    }
}

#[test]
fn spelling_is_exact() {
    assert!(spells(b"abc", "abc"));
    assert!(spells(b"", ""));
    assert!(!spells(b"abc", "abd"));
    assert!(!spells(b"abc", "ab"));
    assert!(!spells(b"ab", "abc"));
    assert!(!spells(b"Abc", "abc"));
}

#[test]
fn an_index_starts_empty() {
    let index = MemberIndex::new();
    assert_eq!(index.data, None);
    assert_eq!(index.control, None);
    assert!(!index.is_complete());
    assert_eq!(index.finish(), Err(Error::DataNotFound));
}

#[test]
fn an_index_records_members_by_name() {
    let mut index = MemberIndex::new();
    index.record(0, b"debian-binary");
    assert_eq!(index.data, None);
    assert_eq!(index.control, None);
    index.record(1, b"control.tar.zst");
    assert_eq!(index.control, Some(MemberRef { ordinal: 1, codec: Codec::Zstd }));
    assert!(!index.is_complete());
    assert_eq!(index.finish(), Err(Error::DataNotFound));
    index.record(2, b"data.tar.gz");
    assert_eq!(index.data, Some(MemberRef { ordinal: 2, codec: Codec::Gz }));
    assert!(index.is_complete());
    assert_eq!(
        index.finish(),
        Ok((MemberRef { ordinal: 2, codec: Codec::Gz }, MemberRef { ordinal: 1, codec: Codec::Zstd }))
    );
}

#[test]
fn a_later_member_takes_the_slot() {
    let mut index = MemberIndex::new();
    index.record(3, b"data.tar.gz");
    index.record(7, b"data.tar.xz");
    assert_eq!(index.data, Some(MemberRef { ordinal: 7, codec: Codec::Xz }));
    assert_eq!(index.control, None);
    assert_eq!(index.finish(), Err(Error::ControlNotFound));
}

#[test]
fn member_words() {
    assert_eq!(Member::Control.word(), "control");
    assert_eq!(Member::Data.word(), "data");
    assert_eq!(Member::Control.reading("a b.deb"), "error reading control archive within a b.deb: ");
    assert_eq!(Member::Data.reading(""), "error reading data archive within : ");
}
