//! Reading Debian packages.
//!
//! A package is an `ar` container that holds two compressed tar archives:
//! the control archive with the package's metadata, and the data archive
//! with its files. [`Archive::new`] finds the two members in the bytes of a
//! package; the archive then hands out the entries of either member, the
//! member's tar stream as a whole, or the mapping of the control file.
//!
//! The containers, the codecs and the tar streams are read by the crates
//! `ar`, `libflate`, `xz2`, `zstd` and `tar`. What they return is taken on
//! trust and named; everything that is decided from it is verified: which
//! members make up the package, which codec a member has, which entries a
//! visitor is handed, and what the control file says. A member is decoded
//! as its entries are walked: the entries that stand before a break in the
//! stream are handed out.

pub mod archive;
pub mod codec;
pub mod container;
pub mod control;
pub mod error;
pub mod fields;
pub mod index;
pub mod stream;
pub mod text;
pub mod walk;

pub use crate::archive::Archive;
pub use crate::codec::{Codec, Member};
pub use crate::error::{Error, Failure, VisitError};
pub use crate::fields::ControlMap;
pub use crate::index::{MemberIndex, MemberRef};
pub use crate::walk::Entry;
