//! Archive construction.  A package artifact is built from plain
//! values: tar archives are written in memory through a trusted builder
//! whose entries are tracked by `tar_items`, and the finished byte
//! streams are named functions of those entries; zstd and gzip
//! compression are named functions of their input bytes.  Which entries
//! go in, with which paths and modes, is decided by verified code.
//! Because every writer here is an in-memory buffer, the only failures
//! are over-long header fields, and each wrapper says exactly when its
//! call succeeds.

use vstd::prelude::*;
use crate::strutil::is_name_char;

verus! {

/// One archive entry: a regular file with contents, a directory, or a
/// symbolic link with its target, each with its mode.
pub enum TarItemM {
    File { path: Seq<char>, mode: int, data: Seq<u8> },
    Dir { path: Seq<char>, mode: int },
    Symlink { path: Seq<char>, mode: int, target: Seq<char> },
}

/// An in-memory tar archive being written.  The writer type's trait
/// bound keeps its declaration out of reach, so the whole builder is
/// held opaquely.
#[verifier::external_body]
pub struct TarPack {
    inner: tar::Builder<Vec<u8>>,
}

/// The entries appended to the archive so far.
pub uninterp spec fn tar_items(p: TarPack) -> Seq<TarItemM>;

/// The finished archive's bytes, a function of its entries alone: the
/// headers carry only the path, size, mode and entry type given.
pub uninterp spec fn tar_bytes_of(items: Seq<TarItemM>) -> Seq<u8>;

/// Whether `tar::Header::set_path` accepts a path: it must encode to at
/// most a hundred bytes, be relative, non-empty, free of nul bytes and
/// of `..` components.  A function of the path alone.
pub uninterp spec fn tar_path_fits(path: Seq<char>) -> bool;

/// Whether `tar::Header::set_link_name` accepts a link target: it must
/// encode to at most a hundred bytes, be non-empty and free of nul
/// bytes.  A function of the target alone.
pub uninterp spec fn tar_link_fits(target: Seq<char>) -> bool;

/// A plain member name: one to a hundred characters, each a name
/// character, and not a relative-reference component.  Such a string
/// has no separators, no nul and fits a header's path and link fields,
/// so the setters accept it.
pub open spec fn plain_tar_name(p: Seq<char>) -> bool {
    &&& 1 <= p.len() <= 100
    &&& (forall|i: int| 0 <= i < p.len() ==> is_name_char(#[trigger] p[i]))
    &&& p != "."@
    &&& p != ".."@
}

/// Relies on `tar::Builder::new` over an in-memory buffer: a fresh
/// archive holds no entries.
#[verifier::external_body]
pub(crate) fn tar_new() -> (p: TarPack)
    ensures
        tar_items(p) == Seq::<TarItemM>::empty(),
{
    TarPack { inner: tar::Builder::new(Vec::new()) }
}

/// Relies on `tar::Header` and `tar::Builder::append`: appends one
/// regular-file entry with the given path, mode and contents.  The
/// append writes to an in-memory buffer and cannot fail, so the call
/// succeeds exactly when the path fits the header, and a plain member
/// name always does.
#[verifier::external_body]
pub(crate) fn tar_append_file(p: &mut TarPack, path: &str, mode: u32, data: &Vec<u8>) -> (r: Result<
    (),
    (),
>)
    ensures
        r is Ok <==> tar_path_fits(path@),
        r is Ok <== plain_tar_name(path@),
        r is Ok ==> tar_items(*final(p)) == tar_items(*old(p)).push(
            TarItemM::File { path: path@, mode: mode as int, data: data@ }),
{
    let mut h = tar::Header::new_gnu();
    if h.set_path(path).is_err() {
        return Err(());
    }
    h.set_size(data.len() as u64);
    h.set_mode(mode);
    h.set_cksum();
    p.inner.append(&h, data.as_slice()).map_err(|_| ())
}

/// Relies on `tar::Header` and `tar::Builder::append`: appends one
/// directory entry with the given path and mode.  As for files, the
/// call succeeds exactly when the path fits the header.
#[verifier::external_body]
pub(crate) fn tar_append_dir(p: &mut TarPack, path: &str, mode: u32) -> (r: Result<(), ()>)
    ensures
        r is Ok <==> tar_path_fits(path@),
        r is Ok <== plain_tar_name(path@),
        r is Ok ==> tar_items(*final(p)) == tar_items(*old(p)).push(
            TarItemM::Dir { path: path@, mode: mode as int }),
{
    let mut h = tar::Header::new_gnu();
    if h.set_path(path).is_err() {
        return Err(());
    }
    h.set_size(0);
    h.set_mode(mode);
    h.set_entry_type(tar::EntryType::Directory);
    h.set_cksum();
    p.inner.append(&h, std::io::empty()).map_err(|_| ())
}

/// Relies on `tar::Header` and `tar::Builder::append`: appends one
/// symbolic-link entry with the given path, mode and target.  The call
/// succeeds exactly when the path and the target both fit the header.
#[verifier::external_body]
pub(crate) fn tar_append_symlink(p: &mut TarPack, path: &str, mode: u32, target: &str) -> (r: Result<
    (),
    (),
>)
    ensures
        r is Ok <==> (tar_path_fits(path@) && tar_link_fits(target@)),
        r is Ok <== (plain_tar_name(path@) && plain_tar_name(target@)),
        r is Ok ==> tar_items(*final(p)) == tar_items(*old(p)).push(
            TarItemM::Symlink { path: path@, mode: mode as int, target: target@ }),
{
    let mut h = tar::Header::new_gnu();
    if h.set_path(path).is_err() {
        return Err(());
    }
    h.set_size(0);
    h.set_mode(mode);
    h.set_entry_type(tar::EntryType::Symlink);
    if h.set_link_name(target).is_err() {
        return Err(());
    }
    h.set_cksum();
    p.inner.append(&h, std::io::empty()).map_err(|_| ())
}

/// Relies on `tar::Builder::into_inner`: finishes the archive and
/// yields its bytes, a function of the entries alone.  The trailer goes
/// to the in-memory buffer, so finishing cannot fail.
#[verifier::external_body]
pub(crate) fn tar_finish(p: TarPack) -> (r: Result<Vec<u8>, ()>)
    ensures
        r is Ok,
        r matches Ok(bytes) ==> bytes@ == tar_bytes_of(tar_items(p)),
{
    p.inner.into_inner().map_err(|_| ())
}

/// What zstd compression at a level yields, a function of the bytes and
/// the level alone.
pub uninterp spec fn zstd_encode_spec(b: Seq<u8>, level: int) -> Seq<u8>;

/// Relies on `zstd::stream::encode_all`: compresses bytes at a level, a
/// function of both alone.  At an ordinary compression level, writing
/// into the in-memory buffer, the call succeeds.
#[verifier::external_body]
pub(crate) fn zstd_encode(bytes: &Vec<u8>, level: i32) -> (r: Result<Vec<u8>, ()>)
    requires
        1 <= level <= 19,
    ensures
        r is Ok,
        r matches Ok(out) ==> out@ == zstd_encode_spec(bytes@, level as int),
{
    zstd::stream::encode_all(bytes.as_slice(), level).map_err(|_| ())
}

/// What gzip compression at the default level yields, a function of the
/// bytes alone: the header the encoder writes carries no time stamp.
pub uninterp spec fn gzip_encode_spec(b: Seq<u8>) -> Seq<u8>;

/// Relies on `flate2::write::GzEncoder`: gzip-compresses bytes at the
/// default level, a function of the bytes alone.  Writing into the
/// in-memory buffer, the call succeeds.
#[verifier::external_body]
pub(crate) fn gzip_encode(bytes: &Vec<u8>) -> (r: Result<Vec<u8>, ()>)
    ensures
        r is Ok,
        r matches Ok(out) ==> out@ == gzip_encode_spec(bytes@),
{
    let mut enc = flate2::write::GzEncoder::new(Vec::new(), flate2::Compression::default());
    if std::io::Write::write_all(&mut enc, bytes.as_slice()).is_err() {
        return Err(());
    }
    enc.finish().map_err(|_| ())
}

} // verus!
