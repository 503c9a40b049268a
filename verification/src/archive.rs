//! ZIP archives in memory: reading their parts and writing new ones.

use crate::text::texts_of;
use vstd::prelude::*;

verus! {

/// A cursor over bytes, as `std::io::Cursor` has it.
#[verifier::external_type_specification]
#[verifier::external_body]
#[verifier::reject_recursive_types(T)]
pub struct ExCursor<T>(std::io::Cursor<T>);

/// An archive that is read, as `zip::ZipArchive` has it.
#[verifier::external_type_specification]
#[verifier::external_body]
#[verifier::reject_recursive_types(R)]
pub struct ExZipArchive<R>(zip::ZipArchive<R>);

/// An archive that is written: a `zip::ZipWriter` over a cursor.
#[verifier::external_body]
pub struct Writer {
    inner: zip::ZipWriter<std::io::Cursor<Vec<u8>>>,
}

/// The bytes that an archive was opened from.
pub uninterp spec fn archive_bytes(z: zip::ZipArchive<std::io::Cursor<Vec<u8>>>) -> Seq<u8>;

/// The names of the parts of an archive in the order of its directory, or the message of the
/// error where the bytes are no archive.
pub uninterp spec fn part_names(bytes: Seq<u8>) -> Result<Seq<Seq<char>>, Seq<char>>;

/// What is read of the part at a place of an archive, as far as the given limit of bytes: the
/// size that the directory states, and the data. The outer error is one of finding and opening
/// the part, the inner one of reading it.
pub uninterp spec fn part_content(bytes: Seq<u8>, place: int, limit: nat) -> Result<
    (nat, Result<Seq<u8>, Seq<char>>),
    Seq<char>,
>;

/// Whether a part of an archive is locked: it says that it was encrypted, and an empty password does
/// not open it.
pub uninterp spec fn part_locked(bytes: Seq<u8>, place: int) -> bool;

/// A part of an archive: its name, the size that the directory states, and its data or the
/// message of the error in reading it.
pub struct Part {
    pub name: String,
    pub size: u64,
    pub data: Result<Vec<u8>, String>,
}

/// What reading gave, in contracts.
pub open spec fn data_view(data: Result<Vec<u8>, String>) -> Result<Seq<u8>, Seq<char>> {
    match data {
        Ok(v) => Ok(v@),
        Err(m) => Err(m@),
    }
}

/// `zip::ZipArchive::new` on a cursor over the bytes: whether they are an archive and which names
/// its parts have is a function of the bytes.
#[verifier::external_body]
pub(crate) fn open_archive(bytes: &[u8]) -> (r: Result<
    zip::ZipArchive<std::io::Cursor<Vec<u8>>>,
    String,
>)
    ensures
        match r {
            Ok(z) => archive_bytes(z) == bytes@ && part_names(bytes@) is Ok,
            Err(m) => part_names(bytes@) == Err::<Seq<Seq<char>>, Seq<char>>(m@),
        },
{
    zip::ZipArchive::new(std::io::Cursor::new(bytes.to_vec())).map_err(|e| e.to_string())
}

/// `zip::ZipArchive::len`: the number of parts.
#[verifier::external_body]
pub(crate) fn part_count(z: &zip::ZipArchive<std::io::Cursor<Vec<u8>>>) -> (n: usize)
    requires
        part_names(archive_bytes(*z)) is Ok,
    ensures
        n == part_names(archive_bytes(*z))->Ok_0.len(),
{
    z.len()
}

/// `zip::ZipArchive::by_index_decrypt` with an empty password: whether it finds the password to be the
/// wrong one is a function of the archive and the place. The archive stays as it is.
#[verifier::external_body]
fn is_locked(z: &mut zip::ZipArchive<std::io::Cursor<Vec<u8>>>, place: usize) -> (r: bool)
    requires
        part_names(archive_bytes(*old(z))) is Ok,
        place < part_names(archive_bytes(*old(z)))->Ok_0.len(),
    ensures
        archive_bytes(*final(z)) == archive_bytes(*old(z)),
        r == part_locked(archive_bytes(*old(z)), place as int),
{
    matches!(z.by_index_decrypt(place, &[]), Ok(Err(_)))
}

/// `zip::ZipArchive::by_index`, with what is read of the part: the name is the one in the directory,
/// and the rest is a function of the archive, the place and the limit. The archive stays as it is. It
/// panics on a part with a record of encryption but without the flag of it, which is a locked one.
#[verifier::external_body]
fn part_at(
    z: &mut zip::ZipArchive<std::io::Cursor<Vec<u8>>>,
    place: usize,
    limit: u64,
) -> (r: Result<Part, String>)
    requires
        part_names(archive_bytes(*old(z))) is Ok,
        place < part_names(archive_bytes(*old(z)))->Ok_0.len(),
        !part_locked(archive_bytes(*old(z)), place as int),
    ensures
        archive_bytes(*final(z)) == archive_bytes(*old(z)),
        match r {
            Ok(p) => p.name@ == part_names(archive_bytes(*old(z)))->Ok_0[place as int]
                && part_content(archive_bytes(*old(z)), place as int, limit as nat) == Ok::<
                (nat, Result<Seq<u8>, Seq<char>>),
                Seq<char>,
            >((p.size as nat, data_view(p.data))),
            Err(m) => part_content(archive_bytes(*old(z)), place as int, limit as nat) == Err::<
                (nat, Result<Seq<u8>, Seq<char>>),
                Seq<char>,
            >(m@),
        },
{
    let file = z.by_index(place).map_err(|e| e.to_string())?;
    let (name, size) = (file.name().to_string(), file.size());
    let mut data = Vec::new();
    let read = std::io::Read::read_to_end(&mut std::io::Read::take(file, limit), &mut data);
    Ok(Part { name, size, data: read.map(|_| data).map_err(|e| e.to_string()) })
}

/// What is said of a locked part.
pub open spec fn locked_text() -> Seq<char> {
    "unsupported Zip archive: Password required to decrypt file"@
}

/// What is read of the part at a place of an archive, as far as the given limit of bytes, as
/// `part_content` has it; a locked part is not opened.
pub open spec fn content_at(bytes: Seq<u8>, place: int, limit: nat) -> Result<
    (nat, Result<Seq<u8>, Seq<char>>),
    Seq<char>,
> {
    if part_locked(bytes, place) {
        Err(locked_text())
    } else {
        part_content(bytes, place, limit)
    }
}

/// What is said of a locked part.
fn locked_message() -> (r: String)
    ensures
        r@ == locked_text(),
{
    "unsupported Zip archive: Password required to decrypt file".to_string()
}

/// Reads the part at a place, as far as the given limit of bytes, unless it is locked.
pub(crate) fn read_at(
    z: &mut zip::ZipArchive<std::io::Cursor<Vec<u8>>>,
    place: usize,
    limit: u64,
) -> (r: Result<Part, String>)
    requires
        part_names(archive_bytes(*old(z))) is Ok,
        place < part_names(archive_bytes(*old(z)))->Ok_0.len(),
    ensures
        archive_bytes(*final(z)) == archive_bytes(*old(z)),
        match r {
            Ok(p) => p.name@ == part_names(archive_bytes(*old(z)))->Ok_0[place as int]
                && content_at(archive_bytes(*old(z)), place as int, limit as nat) == Ok::<
                (nat, Result<Seq<u8>, Seq<char>>),
                Seq<char>,
            >((p.size as nat, data_view(p.data))),
            Err(m) => content_at(archive_bytes(*old(z)), place as int, limit as nat) == Err::<
                (nat, Result<Seq<u8>, Seq<char>>),
                Seq<char>,
            >(m@),
        },
{
    if is_locked(z, place) {
        return Err(locked_message());
    }
    part_at(z, place, limit)
}

/// The place of the last part with the given name.
pub open spec fn last_named(names: Seq<Seq<char>>, name: Seq<char>) -> Option<int>
    decreases names.len(),
{
    if names.len() == 0 {
        None
    } else if names.last() == name {
        Some(names.len() - 1)
    } else {
        last_named(names.drop_last(), name)
    }
}

/// A name is that of a part exactly where it stands among the names.
pub proof fn named_parts_are_found(names: Seq<Seq<char>>, name: Seq<char>)
    ensures
        last_named(names, name) is Some <==> names.contains(name),
    decreases names.len(),
{
    if names.len() > 0 {
        named_parts_are_found(names.drop_last(), name);
        if names.last() == name {
            assert(names[names.len() - 1] == name);
        } else if names.contains(name) {
            let i = choose|i: int| 0 <= i < names.len() && names[i] == name;
            assert(names.drop_last()[i] == name);
        } else if names.drop_last().contains(name) {
            let i = choose|i: int| 0 <= i < names.len() - 1 && names.drop_last()[i] == name;
            assert(names[i] == name);
        }
    }
}

/// `zip::ZipArchive::file_names`: each name of a part, in some order.
#[verifier::external_body]
pub(crate) fn file_names(z: &zip::ZipArchive<std::io::Cursor<Vec<u8>>>) -> (r: Vec<String>)
    requires
        part_names(archive_bytes(*z)) is Ok,
    ensures
        forall|name: Seq<char>| #[trigger]
            texts_of(r@).contains(name) <==> part_names(archive_bytes(*z))->Ok_0.contains(name),
        texts_of(r@).no_duplicates(),
{
    z.file_names().map(|s| s.to_string()).collect()
}

/// Whether the last part with a name is locked.
pub open spec fn named_locked(bytes: Seq<u8>, name: Seq<char>) -> bool {
    last_named(part_names(bytes)->Ok_0, name) matches Some(i) && part_locked(bytes, i)
}

/// What is read of the part with a name, as far as the given limit of bytes: that of the last part
/// with it.
pub open spec fn content_named(bytes: Seq<u8>, name: Seq<char>, limit: nat) -> Result<
    (nat, Result<Seq<u8>, Seq<char>>),
    Seq<char>,
> {
    match last_named(part_names(bytes)->Ok_0, name) {
        Some(i) => content_at(bytes, i, limit),
        None => Err("specified file not found in archive"@),
    }
}

/// `zip::ZipArchive::by_name_decrypt` with an empty password: it takes the last part with the name,
/// and finds the password to be the wrong one as it does for the part at that place. The archive
/// stays as it is.
#[verifier::external_body]
fn is_named_locked(z: &mut zip::ZipArchive<std::io::Cursor<Vec<u8>>>, name: &str) -> (r: bool)
    requires
        part_names(archive_bytes(*old(z))) is Ok,
    ensures
        archive_bytes(*final(z)) == archive_bytes(*old(z)),
        r == named_locked(archive_bytes(*old(z)), name@),
{
    matches!(z.by_name_decrypt(name, &[]), Ok(Err(_)))
}

/// `zip::ZipArchive::by_name`, with what is read of the part: of parts with the same name it takes the
/// last one, as the part at that place is read; there is an error of its own where no part has the
/// name. The archive stays as it is. As `zip::ZipArchive::by_index`, it can panic on a locked part.
#[verifier::external_body]
fn part_named(
    z: &mut zip::ZipArchive<std::io::Cursor<Vec<u8>>>,
    name: &str,
    limit: u64,
) -> (r: Result<Part, String>)
    requires
        part_names(archive_bytes(*old(z))) is Ok,
        !named_locked(archive_bytes(*old(z)), name@),
    ensures
        archive_bytes(*final(z)) == archive_bytes(*old(z)),
        match r {
            Ok(p) => p.name@ == name@ && content_named(
                archive_bytes(*old(z)),
                name@,
                limit as nat,
            ) == Ok::<(nat, Result<Seq<u8>, Seq<char>>), Seq<char>>(
                (p.size as nat, data_view(p.data)),
            ),
            Err(m) => content_named(archive_bytes(*old(z)), name@, limit as nat) == Err::<
                (nat, Result<Seq<u8>, Seq<char>>),
                Seq<char>,
            >(m@),
        },
{
    let file = z.by_name(name).map_err(|e| e.to_string())?;
    let (name, size) = (file.name().to_string(), file.size());
    let mut data = Vec::new();
    let read = std::io::Read::read_to_end(&mut std::io::Read::take(file, limit), &mut data);
    Ok(Part { name, size, data: read.map(|_| data).map_err(|e| e.to_string()) })
}

/// Reads the part with a name, as far as the given limit of bytes, unless it is locked.
pub(crate) fn read_named(
    z: &mut zip::ZipArchive<std::io::Cursor<Vec<u8>>>,
    name: &str,
    limit: u64,
) -> (r: Result<Part, String>)
    requires
        part_names(archive_bytes(*old(z))) is Ok,
    ensures
        archive_bytes(*final(z)) == archive_bytes(*old(z)),
        match r {
            Ok(p) => p.name@ == name@ && content_named(
                archive_bytes(*old(z)),
                name@,
                limit as nat,
            ) == Ok::<(nat, Result<Seq<u8>, Seq<char>>), Seq<char>>(
                (p.size as nat, data_view(p.data)),
            ),
            Err(m) => content_named(archive_bytes(*old(z)), name@, limit as nat) == Err::<
                (nat, Result<Seq<u8>, Seq<char>>),
                Seq<char>,
            >(m@),
        },
{
    if is_named_locked(z, name) {
        return Err(locked_message());
    }
    part_named(z, name, limit)
}

/// What was put into an archive that is written: data under a name, or the raw copy of a part of
/// another archive.
pub enum Entry {
    Data(Seq<char>, Seq<u8>),
    Copy(Seq<u8>, int),
}

/// What was put into an archive that is written, in order.
pub uninterp spec fn entries_of(w: Writer) -> Seq<Entry>;

/// The message of the error in putting data under a name into an archive, if there is one.
pub uninterp spec fn data_fault(entries: Seq<Entry>, name: Seq<char>, data: Seq<u8>) -> Option<
    Seq<char>,
>;

/// The message of the error in copying a part of an archive into another one, if there is one.
pub uninterp spec fn copy_fault(entries: Seq<Entry>, bytes: Seq<u8>, place: int) -> Option<
    Seq<char>,
>;

/// The bytes of an archive into which the entries were put, or the message of the error.
pub uninterp spec fn finished(entries: Seq<Entry>) -> Result<Seq<u8>, Seq<char>>;

/// `zip::ZipWriter::new` on an empty cursor: nothing was put into it.
#[verifier::external_body]
pub(crate) fn new_writer() -> (w: Writer)
    ensures
        entries_of(w) == Seq::<Entry>::empty(),
{
    Writer { inner: zip::ZipWriter::new(std::io::Cursor::new(Vec::new())) }
}

/// `zip::ZipWriter::start_file` with compression, and all of the data written into the file:
/// whether that succeeds is a function of what was put into the archive before, the name and the
/// data.
#[verifier::external_body]
pub(crate) fn put_data(
    w: &mut Writer,
    name: &str,
    data: &[u8],
) -> (r: Result<(), String>)
    ensures
        match r {
            Ok(()) => data_fault(entries_of(*old(w)), name@, data@) is None && entries_of(*final(w))
                == entries_of(*old(w)).push(Entry::Data(name@, data@)),
            Err(m) => data_fault(entries_of(*old(w)), name@, data@) == Some(m@),
        },
{
    let options = zip::write::FileOptions::default()
        .compression_method(zip::CompressionMethod::Deflated);
    w.inner.start_file(name, options).map_err(|e| e.to_string())?;
    std::io::Write::write_all(&mut w.inner, data).map_err(|e| e.to_string())
}

/// `zip::ZipWriter::raw_copy_file` on the part at a place of another archive, which is opened with
/// `zip::ZipArchive::by_index` and so must not be locked: whether that succeeds is a function of what
/// was put into the archive before, the other archive and the place. The other archive stays as it is.
#[verifier::external_body]
fn copy_part(
    w: &mut Writer,
    z: &mut zip::ZipArchive<std::io::Cursor<Vec<u8>>>,
    place: usize,
) -> (r: Result<(), String>)
    requires
        part_names(archive_bytes(*old(z))) is Ok,
        place < part_names(archive_bytes(*old(z)))->Ok_0.len(),
        !part_locked(archive_bytes(*old(z)), place as int),
    ensures
        archive_bytes(*final(z)) == archive_bytes(*old(z)),
        match r {
            Ok(()) => copy_fault(entries_of(*old(w)), archive_bytes(*old(z)), place as int) is None
                && entries_of(*final(w)) == entries_of(*old(w)).push(
                Entry::Copy(archive_bytes(*old(z)), place as int),
            ),
            Err(m) => copy_fault(entries_of(*old(w)), archive_bytes(*old(z)), place as int)
                == Some(m@),
        },
{
    let file = z.by_index(place).map_err(|e| e.to_string())?;
    w.inner.raw_copy_file(file).map_err(|e| e.to_string())
}

/// The message of the error in copying a part of an archive into another one, if there is one, as
/// `copy_fault` has it; a locked part is not opened.
pub open spec fn copy_error(entries: Seq<Entry>, bytes: Seq<u8>, place: int) -> Option<Seq<char>> {
    if part_locked(bytes, place) {
        Some(locked_text())
    } else {
        copy_fault(entries, bytes, place)
    }
}

/// Copies the part at a place of another archive, unless it is locked.
pub(crate) fn copy_at(
    w: &mut Writer,
    z: &mut zip::ZipArchive<std::io::Cursor<Vec<u8>>>,
    place: usize,
) -> (r: Result<(), String>)
    requires
        part_names(archive_bytes(*old(z))) is Ok,
        place < part_names(archive_bytes(*old(z)))->Ok_0.len(),
    ensures
        archive_bytes(*final(z)) == archive_bytes(*old(z)),
        match r {
            Ok(()) => copy_error(entries_of(*old(w)), archive_bytes(*old(z)), place as int) is None
                && entries_of(*final(w)) == entries_of(*old(w)).push(
                Entry::Copy(archive_bytes(*old(z)), place as int),
            ),
            Err(m) => copy_error(entries_of(*old(w)), archive_bytes(*old(z)), place as int)
                == Some(m@),
        },
{
    if is_locked(z, place) {
        return Err(locked_message());
    }
    copy_part(w, z, place)
}

/// `zip::ZipWriter::finish`: the bytes are a function of what was put into the archive. That the
/// parts are read back as they were put in is not stated.
#[verifier::external_body]
pub(crate) fn finish_archive(w: Writer) -> (r: Result<Vec<u8>, String>)
    ensures
        match r {
            Ok(v) => finished(entries_of(w)) == Ok::<Seq<u8>, Seq<char>>(v@),
            Err(m) => finished(entries_of(w)) == Err::<Seq<u8>, Seq<char>>(m@),
        },
{
    let mut w = w;
    w.inner.finish().map(|c| c.into_inner()).map_err(|e| e.to_string())
}

/// Of parts with the same name the last one is read, and none where no part has the name.
pub proof fn the_last_part_with_a_name_is_read(bytes: Seq<u8>, name: Seq<char>, limit: nat, i: int)
    requires
        part_names(bytes) is Ok,
    ensures
        ({
            let names = part_names(bytes)->Ok_0;
            &&& 0 <= i < names.len() && names[i] == name && (forall|j: int|
                i < j < names.len() ==> #[trigger] names[j] != name) ==> content_named(
                bytes,
                name,
                limit,
            ) == content_at(bytes, i, limit)
            &&& !names.contains(name) ==> content_named(bytes, name, limit) == Err::<
                (nat, Result<Seq<u8>, Seq<char>>),
                Seq<char>,
            >("specified file not found in archive"@)
            &&& part_locked(bytes, i) ==> content_at(bytes, i, limit) is Err
            &&& !part_locked(bytes, i) ==> content_at(bytes, i, limit) == part_content(
                bytes,
                i,
                limit,
            )
        }),
{
    let names = part_names(bytes)->Ok_0;
    named_parts_are_found(names, name);
    last_named_is_last(names, name);
}

proof fn last_named_is_last(names: Seq<Seq<char>>, name: Seq<char>)
    ensures
        last_named(names, name) matches Some(i) ==> 0 <= i < names.len() && names[i] == name
            && forall|j: int| i < j < names.len() ==> #[trigger] names[j] != name,
    decreases names.len(),
{
    if names.len() > 0 && names.last() != name {
        let rest = names.drop_last();
        last_named_is_last(rest, name);
        if let Some(i) = last_named(rest, name) {
            assert(rest[i] == names[i]);
            assert forall|j: int| i < j < names.len() implies #[trigger] names[j] != name by {
                if j < rest.len() {
                    assert(rest[j] == names[j]);
                }
            }
        }
    }
}

} // verus!
