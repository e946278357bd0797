use vstd::prelude::*;

use std::io::Write;
use zip::write::FileOptions;
use zip::CompressionMethod;

verus! {

/// A zip archive being written in memory. zip's `ZipWriter` is held out of Verus's sight
/// (its declaration carries the `Write + Seek` bounds, which Verus refuses); what the
/// library knows of it is `archive_entries`.
#[verifier::external_body]
pub struct ArchiveWriter {
    inner: zip::ZipWriter<std::io::Cursor<Vec<u8>>>,
}

/// The entries that an archive being written in memory holds so far, in order: each
/// entry's name and the bytes written to it.
pub uninterp spec fn archive_entries(z: ArchiveWriter) -> Seq<
    (Seq<char>, Seq<u8>),
>;

/// `entries` with `data` added to the bytes of the last entry (unchanged when empty).
pub open spec fn append_to_last(entries: Seq<(Seq<char>, Seq<u8>)>, data: Seq<u8>) -> Seq<
    (Seq<char>, Seq<u8>),
> {
    if entries.len() == 0 {
        entries
    } else {
        entries.update(entries.len() - 1, (entries.last().0, entries.last().1 + data))
    }
}

/// Relies on zip's `ZipWriter::new` over an empty in-memory cursor: an archive with no
/// entries yet.
#[verifier::external_body]
pub(crate) fn new_archive() -> (r: ArchiveWriter)
    ensures
        archive_entries(r) == Seq::<(Seq<char>, Seq<u8>)>::empty(),
{
    ArchiveWriter { inner: zip::ZipWriter::new(std::io::Cursor::new(Vec::new())) }
}

/// Relies on zip's `ZipWriter::start_file` with stored (uncompressed) entries: on success
/// the archive holds one more entry, named `name` and empty so far.
#[verifier::external_body]
pub(crate) fn start_stored_entry(
    z: &mut ArchiveWriter,
    name: &str,
) -> (r: Result<(), zip::result::ZipError>)
    ensures
        r is Ok ==> archive_entries(*final(z)) == archive_entries(*old(z)).push(
            (name@, Seq::empty()),
        ),
{
    z.inner.start_file(name, FileOptions::default().compression_method(CompressionMethod::Stored))
}

/// Relies on `Write::write_all` of zip's `ZipWriter`: on success `data` has been added to
/// the entry last started.
#[verifier::external_body]
pub(crate) fn write_entry_data(z: &mut ArchiveWriter, data: &[u8]) -> (r:
    Result<(), std::io::Error>)
    ensures
        r is Ok ==> archive_entries(*final(z)) == append_to_last(archive_entries(*old(z)), data@),
{
    z.inner.write_all(data)
}

/// The bytes of the zip archive that zip writes for these stored entries, in this order.
pub uninterp spec fn stored_archive_bytes(entries: Seq<(Seq<char>, Seq<u8>)>) -> Seq<u8>;

/// Relies on zip's `ZipWriter::finish`: writes the archive's central directory and gives
/// back the bytes of the whole archive. Every entry is stored with the same default
/// options (no time stamp is taken without zip's `time` feature), so the bytes depend on
/// the entries alone.
#[verifier::external_body]
pub(crate) fn finish_archive(z: ArchiveWriter) -> (r: Result<
    Vec<u8>,
    zip::result::ZipError,
>)
    ensures
        r matches Ok(bytes) ==> bytes@ == stored_archive_bytes(archive_entries(z)),
{
    let mut inner = z.inner;
    Ok(inner.finish()?.into_inner())
}

} // verus!
