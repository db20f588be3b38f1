//! Trusted bridges to the container format: a deflate-compressed archive
//! written to and read from memory. The writer's pending entries and an
//! opened archive's contents are each modelled as a map from entry name to
//! bytes, and finishing a writer produces bytes whose content map is exactly
//! what was written.

use vstd::prelude::*;

verus! {

#[verifier::external_type_specification]
#[verifier::external_body]
#[verifier::reject_recursive_types(T)]
pub struct ExCursor<T>(std::io::Cursor<T>);

/// An in-memory archive writer. The underlying writer type carries trait
/// bounds that the verifier does not accept in a type declaration, so the
/// writer is held in an opaque struct of the library's own.
#[verifier::external_body]
pub struct MemZipWriter {
    inner: zip::ZipWriter<std::io::Cursor<Vec<u8>>>,
}

#[verifier::external_type_specification]
#[verifier::external_body]
#[verifier::reject_recursive_types(R)]
pub struct ExZipArchive<R>(zip::ZipArchive<R>);

/// The entries written so far into an in-memory archive writer.
pub uninterp spec fn zw_entries(w: MemZipWriter) -> Map<Seq<char>, Seq<u8>>;

/// The entries an opened in-memory archive serves by name, mapped to their
/// stored bytes.
pub uninterp spec fn za_entries(a: zip::ZipArchive<std::io::Cursor<Vec<u8>>>) -> Map<Seq<char>, Seq<u8>>;

/// A content map with nothing in it.
pub open spec fn empty_entries() -> Map<Seq<char>, Seq<u8>> {
    Map::empty()
}

/// The content map encoded in container bytes; absent when the bytes are
/// not a readable archive.
pub uninterp spec fn zip_content(data: Seq<u8>) -> Option<Map<Seq<char>, Seq<u8>>>;

/// Relies on `zip::ZipWriter::new` over an empty in-memory cursor: a fresh
/// writer holds no entries.
#[verifier::external_body]
pub(crate) fn zip_writer_new() -> (r: MemZipWriter)
    ensures
        zw_entries(r) == empty_entries(),
{
    MemZipWriter { inner: zip::ZipWriter::new(std::io::Cursor::new(Vec::new())) }
}

/// Relies on `ZipWriter::start_file` and `Write::write_all`: on success one
/// deflated entry with the given name and bytes has been added.
#[verifier::external_body]
pub(crate) fn zip_add_entry(w: &mut MemZipWriter, name: &str, data: &[u8]) -> (r: bool)
    ensures
        r ==> zw_entries(*final(w)) == zw_entries(*old(w)).insert(name@, data@),
{
    let options = zip::write::SimpleFileOptions::default().compression_method(
        zip::CompressionMethod::Deflated,
    ).unix_permissions(0o644);
    if w.inner.start_file(name, options).is_err() {
        return false;
    }
    std::io::Write::write_all(&mut w.inner, data).is_ok()
}

/// Relies on `ZipWriter::finish`: the produced bytes, read back as an
/// archive, hold exactly the entries that were written.
#[verifier::external_body]
pub(crate) fn zip_finish(w: MemZipWriter) -> (r: Option<Vec<u8>>)
    ensures
        match r {
            Option::Some(bytes) => zip_content(bytes@) == Option::Some(zw_entries(w)),
            Option::None => true,
        },
{
    match w.inner.finish() {
        Ok(c) => Some(c.into_inner()),
        Err(_) => None,
    }
}

/// Relies on `zip::ZipArchive::new` over in-memory bytes: an opened archive
/// holds exactly the container's content map.
#[verifier::external_body]
pub(crate) fn zip_open(data: Vec<u8>) -> (r: Option<zip::ZipArchive<std::io::Cursor<Vec<u8>>>>)
    ensures
        match r {
            Option::Some(a) => zip_content(data@) == Option::Some(za_entries(a)),
            Option::None => zip_content(data@) is None,
        },
{
    zip::ZipArchive::new(std::io::Cursor::new(data)).ok()
}

/// Whether the stored data under `name` reads back. An in-memory archive is
/// a value: whether decompressing one of its entries succeeds depends on the
/// archive and the name alone.
pub uninterp spec fn za_readable(a: zip::ZipArchive<std::io::Cursor<Vec<u8>>>, name: Seq<char>) -> bool;

/// How fetching one entry ends: its bytes, a missing name, or an archive
/// whose stored data cannot be read back.
pub(crate) enum ZipReadOutcome {
    Found(Vec<u8>),
    Missing,
    Corrupt,
}

/// Relies on `ZipArchive::by_name` and `Read::read_to_end`: the bytes under
/// the given name. The name lookup fails exactly for a name the archive does
/// not serve; a failure while reading a served entry's data is deterministic
/// decompression of in-memory bytes, reported as corruption. The archive's
/// contents do not change.
#[verifier::external_body]
pub(crate) fn zip_read_entry(a: &mut zip::ZipArchive<std::io::Cursor<Vec<u8>>>, name: &str) -> (r:
    ZipReadOutcome)
    ensures
        za_entries(*final(a)) == za_entries(*old(a)),
        match r {
            ZipReadOutcome::Found(bytes) => za_entries(*old(a)).contains_key(name@) && za_entries(
                *old(a),
            )[name@] == bytes@ && za_readable(*old(a), name@),
            ZipReadOutcome::Missing => !za_entries(*old(a)).contains_key(name@),
            ZipReadOutcome::Corrupt => za_entries(*old(a)).contains_key(name@) && !za_readable(
                *old(a),
                name@,
            ),
        },
{
    let mut f = match a.by_name(name) {
        Ok(f) => f,
        Err(_) => return ZipReadOutcome::Missing,
    };
    let mut buf = Vec::new();
    match std::io::Read::read_to_end(&mut f, &mut buf) {
        Ok(_) => ZipReadOutcome::Found(buf),
        Err(_) => ZipReadOutcome::Corrupt,
    }
}

} // verus!
