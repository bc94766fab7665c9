//! Zip archives held in memory: listing the image entries of one, and
//! extracting a single entry as a base64 payload with an inferred MIME type.
//!
//! Reading the container is the work of the `zip` crate. What it reports of a
//! given sequence of bytes is named here by functions of those bytes; the
//! selection, the ordering, the mapping of failures and the payload are this
//! module's own.

use std::io::Cursor;
use std::io::Read;
use vstd::prelude::*;
use zip::result::ZipError;
use zip::ZipArchive;
use crate::encoding::{base64_standard, encodable, encode_standard, encoded_len, fits_encoding};
use crate::error::ImageError;
use crate::media::{
    fallback_mime, image_names_get_image_types, is_image_name, mime_for_name, mime_of_name,
    names_image,
};
use crate::order::{
    arranged, is_sorted_by, is_stable_order, sorted, sorting_is_unique, sorting_keeps_and_orders,
    texts_of,
};
use crate::text::ordinal_lt;
use vstd::string::StringExecFns;

verus! {

/// `zip::ZipArchive`, the zip crate's reader of a container, carried as an
/// opaque value.
#[verifier::external_type_specification]
#[verifier::external_body]
#[verifier::reject_recursive_types(R)]
pub struct ExZipArchive<R>(ZipArchive<R>);

/// `std::io::Cursor`, the in-memory reader that the archive reads through,
/// carried as an opaque value.
#[verifier::external_type_specification]
#[verifier::external_body]
#[verifier::reject_recursive_types(T)]
pub struct ExCursor<T>(Cursor<T>);

/// The bytes that an opened archive reads from.
pub uninterp spec fn archive_bytes(archive: ZipArchive<Cursor<Vec<u8>>>) -> Seq<u8>;

/// The zip reader's description of why `data` is no container that it can
/// open, or `None` where it opens it.
pub uninterp spec fn zip_open_failure(data: Seq<u8>) -> Option<Seq<char>>;

/// The number of entries that the central directory of `data` lists.
pub uninterp spec fn zip_entry_count(data: Seq<u8>) -> nat;

/// The name of the entry at `index` of the central directory of `data`, where
/// the reader can open that entry with the empty password; its description of
/// the failure where it cannot.
pub uninterp spec fn zip_entry_name(data: Seq<u8>, index: int) -> Result<Seq<char>, Seq<char>>;

/// Whether the central directory of `data` holds an entry called `name`.
pub uninterp spec fn zip_has_entry(data: Seq<u8>, name: Seq<char>) -> bool;

/// The decompressed content of the entry of `data` called `name`, where that
/// entry can be opened with the empty password and read to its end; the
/// reader's description of the failure where it cannot.
pub uninterp spec fn zip_entry_bytes(data: Seq<u8>, name: Seq<char>) -> Result<Seq<u8>, Seq<char>>;

/// A failure reported by the zip reader.
struct ArchiveFault {
    /// The reader found no entry of the requested name or index.
    missing: bool,
    /// The reader's own description of the failure.
    text: String,
}

/// One entry of an archive's central directory, as far as listing needs it.
#[derive(Debug, PartialEq, Eq)]
pub struct ArchiveEntry {
    /// The entry's full name inside the archive, in the case in which it is
    /// written.
    pub name: String,
    /// The entry is a directory placeholder.
    pub is_dir: bool,
}

/// The mathematical content of an [`ArchiveEntry`].
pub ghost struct EntryModel {
    pub name: Seq<char>,
    pub is_dir: bool,
}

impl View for ArchiveEntry {
    type V = EntryModel;

    open spec fn view(&self) -> EntryModel {
        EntryModel { name: self.name@, is_dir: self.is_dir }
    }
}

/// The models of a vector of entries.
pub open spec fn models_of(entries: Seq<ArchiveEntry>) -> Seq<EntryModel> {
    Seq::new(entries.len(), |i: int| entries[i]@)
}

/// The zip reader accepts `data` as a container.
pub open spec fn zip_opens(data: Seq<u8>) -> bool {
    zip_open_failure(data) is None
}

/// `name` ends in `/` or `\`, which is how an archive marks a directory.
pub open spec fn ends_in_separator(name: Seq<char>) -> bool {
    name.len() > 0 && (name.last() == '/' || name.last() == '\\')
}

/// The entry is listed: it is no directory and its name ends in a recognized
/// image extension.
pub open spec fn is_listed(entry: EntryModel) -> bool {
    !entry.is_dir && names_image(entry.name)
}

/// The names of the listed entries, in the order of the central directory.
pub open spec fn listed_names(entries: Seq<EntryModel>) -> Seq<Seq<char>> {
    entries.filter(|e: EntryModel| is_listed(e)).map_values(|e: EntryModel| e.name)
}

/// `name` is the name of one of the listed entries.
pub open spec fn names_listed_entry(entries: Seq<EntryModel>, name: Seq<char>) -> bool {
    exists|i: int|
        0 <= i < entries.len() && is_listed(#[trigger] entries[i]) && entries[i].name == name
}

/// `names` is the image listing of `entries`: the names of the listed
/// entries, in ascending ordinal order of the names as they are written.
pub open spec fn is_image_listing(entries: Seq<EntryModel>, names: Seq<Seq<char>>) -> bool {
    is_sorted_by(listed_names(entries), listed_names(entries), names)
}

/// Every index of the central directory of `data` can be opened.
pub open spec fn fully_indexed(data: Seq<u8>) -> bool {
    forall|i: int| 0 <= i < zip_entry_count(data) ==> (#[trigger] zip_entry_name(data, i)) is Ok
}

/// Index `i` is the first of the central directory of `data` that cannot be
/// opened.
pub open spec fn is_first_unopened(data: Seq<u8>, i: int) -> bool {
    &&& 0 <= i < zip_entry_count(data)
    &&& zip_entry_name(data, i) is Err
    &&& forall|j: int| 0 <= j < i ==> (#[trigger] zip_entry_name(data, j)) is Ok
}

/// The central directory of `data`, entry by entry.
pub open spec fn indexed(data: Seq<u8>) -> Seq<EntryModel> {
    Seq::new(
        zip_entry_count(data),
        |i: int|
            EntryModel {
                name: zip_entry_name(data, i)->Ok_0,
                is_dir: ends_in_separator(zip_entry_name(data, i)->Ok_0),
            },
    )
}

/// Calls `zip::ZipArchive::new` on a cursor over `data`. Whether an archive
/// comes back, and the description of the failure where none does, depend on
/// the bytes alone; the archive reads from exactly these bytes.
#[verifier::external_body]
fn open_archive(data: Vec<u8>) -> (r: Result<ZipArchive<Cursor<Vec<u8>>>, ArchiveFault>)
    ensures
        match r {
            Ok(archive) => zip_open_failure(data@) is None && archive_bytes(archive) == data@,
            Err(fault) => zip_open_failure(data@) == Some(fault.text@),
        },
{
    match ZipArchive::new(Cursor::new(data)) {
        Ok(archive) => Ok(archive),
        Err(e) => Err(
            ArchiveFault { missing: matches!(e, ZipError::FileNotFound), text: e.to_string() },
        ),
    }
}

/// Calls `zip::ZipArchive::len`: the number of entries that the central
/// directory lists.
#[verifier::external_body]
fn entry_count(archive: &ZipArchive<Cursor<Vec<u8>>>) -> (n: usize)
    ensures
        n == zip_entry_count(archive_bytes(*archive)),
{
    archive.len()
}

/// Calls `zip::ZipArchive::by_index_decrypt` with an empty password, the form
/// of `by_index` that reports a refused password as a value, and reads
/// `ZipFile::name` and `ZipFile::is_dir` of what comes back. The archive's
/// bytes stay as they are. The name, or the description of the failure, is a
/// function of the bytes and the index; `is_dir` says whether the name ends
/// in `/` or `\`; and a name that is handed out is one that the archive's
/// directory of names holds.
#[verifier::external_body]
fn entry_at(archive: &mut ZipArchive<Cursor<Vec<u8>>>, index: usize) -> (r: Result<
    ArchiveEntry,
    ArchiveFault,
>)
    ensures
        archive_bytes(*final(archive)) == archive_bytes(*old(archive)),
        match r {
            Ok(entry) => {
                &&& zip_entry_name(archive_bytes(*old(archive)), index as int) == Ok::<
                    Seq<char>,
                    Seq<char>,
                >(entry.name@)
                &&& entry.is_dir == ends_in_separator(entry.name@)
                &&& zip_has_entry(archive_bytes(*old(archive)), entry.name@)
            },
            Err(fault) => zip_entry_name(archive_bytes(*old(archive)), index as int) == Err::<
                Seq<char>,
                Seq<char>,
            >(fault.text@),
        },
{
    match archive.by_index_decrypt(index, &[]) {
        Ok(Ok(file)) => Ok(ArchiveEntry { name: file.name().to_string(), is_dir: file.is_dir() }),
        Ok(Err(e)) => Err(ArchiveFault { missing: false, text: e.to_string() }),
        Err(e) => Err(
            ArchiveFault { missing: matches!(e, ZipError::FileNotFound), text: e.to_string() },
        ),
    }
}

/// Calls `zip::ZipArchive::by_name_decrypt` with an empty password, the form
/// of `by_name` that reports a refused password as a value, and reads what
/// comes back to its end with `read_to_end`. The archive's bytes stay as they
/// are. The fault is `missing` exactly when the archive's directory of names
/// lacks `name`; otherwise the content, or the description of the failure,
/// is a function of the bytes and the name.
#[verifier::external_body]
fn read_entry(archive: &mut ZipArchive<Cursor<Vec<u8>>>, name: &str) -> (r: Result<
    Vec<u8>,
    ArchiveFault,
>)
    ensures
        archive_bytes(*final(archive)) == archive_bytes(*old(archive)),
        match r {
            Ok(bytes) => {
                &&& zip_has_entry(archive_bytes(*old(archive)), name@)
                &&& zip_entry_bytes(archive_bytes(*old(archive)), name@) == Ok::<
                    Seq<u8>,
                    Seq<char>,
                >(bytes@)
            },
            Err(fault) => {
                &&& fault.missing == !zip_has_entry(archive_bytes(*old(archive)), name@)
                &&& !fault.missing ==> zip_entry_bytes(archive_bytes(*old(archive)), name@)
                    == Err::<Seq<u8>, Seq<char>>(fault.text@)
            },
        },
{
    let mut bytes = Vec::new();
    match archive.by_name_decrypt(name, &[]) {
        Ok(Ok(mut file)) => match file.read_to_end(&mut bytes) {
            Ok(_) => Ok(bytes),
            Err(e) => Err(ArchiveFault { missing: false, text: e.to_string() }),
        },
        Ok(Err(e)) => Err(ArchiveFault { missing: false, text: e.to_string() }),
        Err(e) => Err(
            ArchiveFault { missing: matches!(e, ZipError::FileNotFound), text: e.to_string() },
        ),
    }
}

/// Appending an entry appends its name to the listed names where the entry
/// is listed, and leaves them alone where it is not.
proof fn listed_names_push(entries: Seq<EntryModel>, entry: EntryModel)
    ensures
        listed_names(entries.push(entry)) == if is_listed(entry) {
            listed_names(entries).push(entry.name)
        } else {
            listed_names(entries)
        },
{
    reveal(Seq::filter);
    let more = entries.push(entry);
    assert(more.drop_last() =~= entries);
    assert(more.last() == entry);
    if is_listed(entry) {
        assert(listed_names(more) =~= listed_names(entries).push(entry.name));
    }
}

/// Each listed name is the name of a listed entry.
proof fn listed_names_have_sources(entries: Seq<EntryModel>, j: int)
    requires
        0 <= j < listed_names(entries).len(),
    ensures
        names_listed_entry(entries, listed_names(entries)[j]),
    decreases entries.len(),
{
    if entries.len() == 0 {
        reveal(Seq::filter);
    } else {
        let head = entries.drop_last();
        assert(head.push(entries.last()) =~= entries);
        listed_names_push(head, entries.last());
        if j < listed_names(head).len() {
            listed_names_have_sources(head, j);
            let i = choose|i: int|
                0 <= i < head.len() && is_listed(#[trigger] head[i]) && head[i].name
                    == listed_names(head)[j];
            assert(entries[i] == head[i]);
            assert(is_listed(entries[i]));
        } else {
            assert(is_listed(entries[entries.len() - 1]));
        }
    }
}

/// The name of each listed entry is among the listed names.
proof fn listed_entries_are_named(entries: Seq<EntryModel>, i: int)
    requires
        0 <= i < entries.len(),
        is_listed(entries[i]),
    ensures
        listed_names(entries).contains(entries[i].name),
    decreases entries.len(),
{
    let head = entries.drop_last();
    assert(head.push(entries.last()) =~= entries);
    listed_names_push(head, entries.last());
    if i < head.len() {
        listed_entries_are_named(head, i);
        let j = choose|j: int|
            0 <= j < listed_names(head).len() && listed_names(head)[j] == head[i].name;
        assert(listed_names(entries)[j] == entries[i].name);
    } else {
        let last = listed_names(entries).len() - 1;
        assert(listed_names(entries)[last] == entries[i].name);
    }
}

/// An image listing holds exactly the listed entries, in ascending order:
/// each of its names belongs to an entry that is no directory and names an
/// image; each such entry has its name in the listing; the listing is as long
/// as the listed entries are many; and no name in it sorts before an earlier
/// one.
pub proof fn listing_is_exact(entries: Seq<EntryModel>, names: Seq<Seq<char>>)
    requires
        is_image_listing(entries, names),
    ensures
        names.len() == listed_names(entries).len(),
        forall|k: int| 0 <= k < names.len() ==> names_listed_entry(entries, #[trigger] names[k]),
        forall|i: int|
            0 <= i < entries.len() && is_listed(#[trigger] entries[i]) ==> names.contains(
                entries[i].name,
            ),
        forall|a: int, b: int|
            0 <= a < b < names.len() ==> !ordinal_lt(#[trigger] names[b], #[trigger] names[a]),
{
    let listed = listed_names(entries);
    let order = choose|order: Seq<int>|
        is_stable_order(listed, order) && names == arranged(listed, order);
    sorting_keeps_and_orders(listed, order);
    assert forall|k: int| 0 <= k < names.len() implies names_listed_entry(
        entries,
        #[trigger] names[k],
    ) by {
        listed_names_have_sources(entries, order[k]);
    }
    assert forall|i: int|
        0 <= i < entries.len() && is_listed(#[trigger] entries[i]) implies names.contains(
        entries[i].name,
    ) by {
        listed_entries_are_named(entries, i);
        let j = choose|j: int| 0 <= j < listed.len() && listed[j] == entries[i].name;
        assert(order.contains(j));
        let k = choose|k: int| 0 <= k < order.len() && order[k] == j;
        assert(names[k] == entries[i].name);
    }
    assert forall|a: int, b: int| 0 <= a < b < names.len() implies !ordinal_lt(
        #[trigger] names[b],
        #[trigger] names[a],
    ) by {
        assert(!ordinal_lt(listed[order[b]], listed[order[a]]));
    }
}

/// The entries decide their image listing: two listings of the same entries
/// are the same listing.
pub proof fn image_listing_is_unique(entries: Seq<EntryModel>, a: Seq<Seq<char>>, b: Seq<Seq<char>>)
    requires
        is_image_listing(entries, a),
        is_image_listing(entries, b),
    ensures
        a == b,
{
    sorting_is_unique(listed_names(entries), listed_names(entries), a, b);
}

/// Selects the entries that are no directories and whose names end in a
/// recognized image extension, and gives their names in ascending ordinal
/// order of the names as written, without folding case.
pub fn image_entry_names(entries: &Vec<ArchiveEntry>) -> (names: Vec<String>)
    ensures
        is_image_listing(models_of(entries@), texts_of(names@)),
{
    let ghost models = models_of(entries@);
    let mut picked: Vec<String> = Vec::new();
    let mut i: usize = 0;
    proof {
        reveal(Seq::filter);
        assert(texts_of(picked@) =~= listed_names(models.take(0)));
    }
    while i < entries.len()
        invariant
            i <= entries.len(),
            models == models_of(entries@),
            texts_of(picked@) == listed_names(models.take(i as int)),
        decreases entries.len() - i,
    {
        let entry = &entries[i];
        proof {
            assert(models.take(i + 1) =~= models.take(i as int).push(models[i as int]));
            listed_names_push(models.take(i as int), models[i as int]);
        }
        let ghost before = texts_of(picked@);
        if !entry.is_dir && is_image_name(entry.name.as_str()) {
            picked.push(entry.name.clone());
            assert(texts_of(picked@) =~= before.push(entry.name@));
        }
        i += 1;
    }
    assert(models.take(i as int) =~= models);
    sorted(&picked)
}

/// What listing the archive held in `data` must give: the image listing of
/// the central directory where the bytes open as a container and every entry
/// of it can be opened, each listed name being one that the archive holds;
/// in every other case the failure `ArchiveFormat`, with the reader's
/// description of why the bytes do not open or, where they do, of why the
/// first entry that cannot be opened cannot.
pub open spec fn is_listing_of(data: Seq<u8>, r: Result<Vec<String>, ImageError>) -> bool {
    match r {
        Ok(names) => {
            &&& zip_opens(data)
            &&& fully_indexed(data)
            &&& is_image_listing(indexed(data), texts_of(names@))
            &&& forall|k: int| 0 <= k < names.len() ==> zip_has_entry(data, #[trigger] names@[k]@)
        },
        Err(ImageError::ArchiveFormat(text)) => if zip_opens(data) {
            exists|i: int|
                is_first_unopened(data, i) && #[trigger] zip_entry_name(data, i) == Err::<
                    Seq<char>,
                    Seq<char>,
                >(text@)
        } else {
            zip_open_failure(data) == Some(text@)
        },
        Err(_) => false,
    }
}

/// `payload` pairs the MIME type inferred from the name `entry` with the
/// standard padded base64 text of `bytes`.
pub open spec fn is_payload_of(
    entry: Seq<char>,
    bytes: Seq<u8>,
    payload: (String, String),
) -> bool {
    &&& encodable(bytes.len())
    &&& payload.0@ == mime_of_name(entry)
    &&& payload.1@ == base64_standard(bytes)
    &&& payload.1@.len() == encoded_len(bytes.len())
}

/// What extracting `entry` from the archive held in `data` must give: the
/// payload of the entry's content where the container opens, holds the
/// entry, and the entry reads to its end; `EntryNotFound` exactly where the
/// container opens and lacks the entry; `ArchiveFormat`, with the reader's
/// description, where the container does not open or the entry does not
/// read; `Io` where the content is longer than can be encoded.
pub open spec fn is_extraction_of(
    data: Seq<u8>,
    entry: Seq<char>,
    r: Result<(String, String), ImageError>,
) -> bool {
    match r {
        Ok(payload) => {
            &&& zip_opens(data)
            &&& zip_has_entry(data, entry)
            &&& zip_entry_bytes(data, entry) is Ok
            &&& is_payload_of(entry, zip_entry_bytes(data, entry)->Ok_0, payload)
        },
        Err(ImageError::ArchiveFormat(text)) => if zip_opens(data) {
            zip_has_entry(data, entry) && zip_entry_bytes(data, entry) == Err::<
                Seq<u8>,
                Seq<char>,
            >(text@)
        } else {
            zip_open_failure(data) == Some(text@)
        },
        Err(ImageError::EntryNotFound) => zip_opens(data) && !zip_has_entry(data, entry),
        Err(ImageError::Io(text)) => {
            &&& zip_opens(data)
            &&& zip_has_entry(data, entry)
            &&& zip_entry_bytes(data, entry) is Ok
            &&& !encodable(zip_entry_bytes(data, entry)->Ok_0.len())
            &&& text@ == "entry is too large to encode"@
        },
        Err(ImageError::NotFound) => false,
    }
}

/// Whoever extracts a name that a listing of the same bytes gave is never
/// told that the entry is missing; and where the extraction succeeds, the
/// MIME type is one of the image types of the table, never the fallback, and
/// the text is empty only for an entry without content.
pub proof fn listed_names_extract(
    data: Seq<u8>,
    listing: Vec<String>,
    k: int,
    extraction: Result<(String, String), ImageError>,
)
    requires
        is_listing_of(data, Ok(listing)),
        0 <= k < listing.len(),
        is_extraction_of(data, listing@[k]@, extraction),
    ensures
        extraction != Err::<(String, String), ImageError>(ImageError::EntryNotFound),
        extraction matches Ok(payload) ==> {
            &&& payload.0@ != fallback_mime()
            &&& payload.0@.take(6) == "image/"@
            &&& zip_entry_bytes(data, listing@[k]@)->Ok_0.len() > 0 ==> payload.1@.len() > 0
        },
{
    let names = texts_of(listing@);
    listing_is_exact(indexed(data), names);
    assert(names_listed_entry(indexed(data), names[k]));
    image_names_get_image_types(names[k]);
}

/// Lists the image entries of the zip archive held in `data`: the names, in
/// full and in the case in which they are written, of the entries that are
/// no directories and end in a recognized image extension, in ascending
/// ordinal order.
///
/// The call fails with `ArchiveFormat` exactly when the bytes are no readable
/// container or one of the entries cannot be opened. Every name that is
/// listed is one that the archive holds, so that extracting it never fails
/// for want of the entry.
pub fn list_archive_images(data: Vec<u8>) -> (r: Result<Vec<String>, ImageError>)
    ensures
        is_listing_of(data@, r),
{
    let ghost bytes = data@;
    let mut archive = match open_archive(data) {
        Ok(archive) => archive,
        Err(fault) => {
            return Err(ImageError::ArchiveFormat(fault.text));
        },
    };
    let n: usize = entry_count(&archive);
    let mut entries: Vec<ArchiveEntry> = Vec::new();
    let mut i: usize = 0;
    while i < n
        invariant
            i <= n,
            bytes == data@,
            zip_opens(bytes),
            n == zip_entry_count(bytes),
            archive_bytes(archive) == bytes,
            entries.len() == i,
            forall|j: int|
                0 <= j < i ==> {
                    &&& zip_entry_name(bytes, j) == Ok::<Seq<char>, Seq<char>>(
                        (#[trigger] entries@[j]).name@,
                    )
                    &&& entries@[j].is_dir == ends_in_separator(entries@[j].name@)
                    &&& zip_has_entry(bytes, entries@[j].name@)
                },
        decreases n - i,
    {
        match entry_at(&mut archive, i) {
            Ok(entry) => {
                entries.push(entry);
            },
            Err(fault) => {
                assert forall|j: int| 0 <= j < i implies (#[trigger] zip_entry_name(
                    bytes,
                    j,
                )) is Ok by {
                    assert(zip_entry_name(bytes, j) == Ok::<Seq<char>, Seq<char>>(
                        entries@[j].name@,
                    ));
                }
                assert(is_first_unopened(bytes, i as int));
                return Err(ImageError::ArchiveFormat(fault.text));
            },
        }
        i += 1;
    }
    assert forall|j: int| 0 <= j < zip_entry_count(bytes) implies (#[trigger] zip_entry_name(
        bytes,
        j,
    )) is Ok by {
        assert(zip_entry_name(bytes, j) == Ok::<Seq<char>, Seq<char>>(entries@[j].name@));
    }
    assert(models_of(entries@) =~= indexed(bytes));
    let names = image_entry_names(&entries);
    proof {
        listing_is_exact(indexed(bytes), texts_of(names@));
        assert forall|k: int| 0 <= k < names.len() implies zip_has_entry(
            bytes,
            #[trigger] names@[k]@,
        ) by {
            let name = texts_of(names@)[k];
            assert(names_listed_entry(indexed(bytes), name));
            let j = choose|j: int|
                0 <= j < indexed(bytes).len() && is_listed(#[trigger] indexed(bytes)[j]) && indexed(
                    bytes,
                )[j].name == name;
            assert(entries@[j].name@ == name);
        }
    }
    Ok(names)
}

/// Pairs the MIME type inferred from the name `entry` with the standard
/// padded base64 text of `bytes`. The bytes must be few enough for their
/// text to fit the machine.
pub fn image_payload(entry: &str, bytes: &[u8]) -> (r: (String, String))
    requires
        encodable(bytes@.len()),
    ensures
        is_payload_of(entry@, bytes@, r),
{
    let mime = String::from_str(mime_for_name(entry));
    let text = encode_standard(bytes);
    (mime, text)
}

/// Extracts the entry called exactly `entry` from the zip archive held in
/// `data`: the MIME type inferred from the entry's name, and the entry's
/// whole decompressed content as standard padded base64.
///
/// The call fails with `ArchiveFormat` when the bytes are no readable
/// container, or the entry is there but cannot be opened or read to its end;
/// with `EntryNotFound` when the container is sound and holds no entry of
/// that name; and with `Io` when the content is longer than can be encoded
/// on this machine.
pub fn extract_image(data: Vec<u8>, entry: &str) -> (r: Result<(String, String), ImageError>)
    ensures
        is_extraction_of(data@, entry@, r),
{
    let mut archive = match open_archive(data) {
        Ok(archive) => archive,
        Err(fault) => {
            return Err(ImageError::ArchiveFormat(fault.text));
        },
    };
    match read_entry(&mut archive, entry) {
        Ok(bytes) => {
            if fits_encoding(bytes.len()) {
                Ok(image_payload(entry, bytes.as_slice()))
            } else {
                Err(ImageError::Io(String::from_str("entry is too large to encode")))
            }
        },
        Err(fault) => {
            if fault.missing {
                Err(ImageError::EntryNotFound)
            } else {
                Err(ImageError::ArchiveFormat(fault.text))
            }
        },
    }
}

/// Lists the image entries of an archive file, given what reading the file
/// gave: its bytes, or the description of the failure to open or read it.
///
/// A failed read fails the call with `Io`, carrying that description; bytes
/// are listed as [`list_archive_images`] lists them.
pub fn list_images_in_zip(file: Result<Vec<u8>, String>) -> (r: Result<Vec<String>, ImageError>)
    ensures
        match file {
            Ok(data) => is_listing_of(data@, r),
            Err(text) => r == Err::<Vec<String>, ImageError>(ImageError::Io(text)),
        },
{
    match file {
        Ok(data) => list_archive_images(data),
        Err(text) => Err(ImageError::Io(text)),
    }
}

/// Extracts one entry of an archive file, given what reading the file gave:
/// its bytes, or the description of the failure to open or read it.
///
/// A failed read fails the call with `Io`, carrying that description; from
/// bytes the entry is extracted as [`extract_image`] extracts it.
pub fn read_zip_image(file: Result<Vec<u8>, String>, entry: &str) -> (r: Result<
    (String, String),
    ImageError,
>)
    ensures
        match file {
            Ok(data) => is_extraction_of(data@, entry@, r),
            Err(text) => r == Err::<(String, String), ImageError>(ImageError::Io(text)),
        },
{
    match file {
        Ok(data) => extract_image(data, entry),
        Err(text) => Err(ImageError::Io(text)),
    }
}

} // verus!
