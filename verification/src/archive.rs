//! The `.docx` container: a ZIP archive opened with the `zip` crate. An
//! entry (name, uncompressed size, and its bytes or why they could not be
//! had) is read only when it is asked for.

use std::io::{Cursor, Read};
use vstd::prelude::*;
use vstd::utf8::*;

use crate::text::{str_eq, utf8_decode};
use zip::result::ZipError;
use zip::ZipArchive;

verus! {

#[verifier::external_type_specification]
#[verifier::external_body]
#[verifier::reject_recursive_types(R)]
pub struct ExZipArchive<R>(ZipArchive<R>);

#[verifier::external_type_specification]
#[verifier::external_body]
pub struct ExZipError(ZipError);

#[verifier::external_type_specification]
#[verifier::external_body]
#[verifier::reject_recursive_types(T)]
pub struct ExCursor<T>(Cursor<T>);

/// What `ZipArchive::new` makes of the bytes of an archive: `None` where it
/// fails, else the entries in index order, each as `by_index` (then
/// `ZipFile::size` and `Read::read_to_end`) reads it.
pub uninterp spec fn zip_read(bytes: Seq<u8>) -> Option<Seq<ArchiveEntryModel>>;

/// The entries of an opened archive, in index order, each as `by_index`
/// (then `ZipFile::size` and `Read::read_to_end`) reads it.
pub uninterp spec fn zip_contents(a: ZipArchive<Cursor<Vec<u8>>>) -> Seq<ArchiveEntryModel>;

/// `ZipArchive::new` over the bytes of an archive. Claimed: it fails exactly
/// where `zip_read` is `None`, and the archive it opens holds what
/// `zip_read` gives.
#[verifier::external_body]
fn zip_open(bytes: Vec<u8>) -> (r: Result<ZipArchive<Cursor<Vec<u8>>>, ZipError>)
    ensures
        match r {
            Ok(a) => zip_read(bytes@) == Some(zip_contents(a)),
            Err(_) => zip_read(bytes@) is None,
        },
{
    ZipArchive::new(Cursor::new(bytes))
}

/// `ZipArchive::len`. Claimed: the number of entries.
#[verifier::external_body]
fn zip_len(a: &ZipArchive<Cursor<Vec<u8>>>) -> (n: usize)
    ensures
        n == zip_contents(*a).len(),
{
    a.len()
}

/// `ZipArchive::index_for_name`. Claimed: the index of the entry named
/// `name`, `None` where there is none. (The source keeps the entries in a map
/// keyed by name, so at most one entry has a given name: it is the first.)
#[verifier::external_body]
fn zip_index_for_name(a: &ZipArchive<Cursor<Vec<u8>>>, name: &str) -> (r: Option<usize>)
    ensures
        match r {
            Some(i) => i < zip_contents(*a).len() && lookup(zip_contents(*a), name@) == Some(
                zip_contents(*a)[i as int],
            ),
            None => lookup(zip_contents(*a), name@) is None,
        },
{
    a.index_for_name(name)
}

/// `ZipArchive::by_index` on entry `i`, then `ZipFile::size` on the opened
/// entry, without reading its data. Claimed: `Err` exactly for an entry that
/// cannot be opened, else its recorded uncompressed size; the contents stay
/// as they were.
#[verifier::external_body]
fn zip_entry_size(a: &mut ZipArchive<Cursor<Vec<u8>>>, i: usize) -> (r: Result<u64, ZipError>)
    requires
        i < zip_contents(*old(a)).len(),
    ensures
        zip_contents(*final(a)) == zip_contents(*old(a)),
        match r {
            Err(_) => zip_contents(*old(a))[i as int].data is Unavailable,
            Ok(size) => zip_contents(*old(a))[i as int].size == size && !(zip_contents(
                *old(a),
            )[i as int].data is Unavailable),
        },
{
    Ok(a.by_index(i)?.size())
}

/// `ZipArchive::by_index` on entry `i`, then `ZipFile::size` and
/// `Read::read_to_end` on the opened entry (the read error turned into its
/// message). Claimed: `Err` exactly for an entry that cannot be opened
/// (encrypted, unsupported compression), else its recorded uncompressed
/// size and its bytes or the message of the read error, as the contents
/// record them; reading leaves the contents as they were. (The opened
/// `ZipFile` cannot stand in verified code: its `R: Read` bound cannot be
/// declared, so the three calls stay together here.)
#[verifier::external_body]
fn zip_read_entry(a: &mut ZipArchive<Cursor<Vec<u8>>>, i: usize) -> (r: Result<
    (u64, Result<Vec<u8>, String>),
    ZipError,
>)
    requires
        i < zip_contents(*old(a)).len(),
    ensures
        zip_contents(*final(a)) == zip_contents(*old(a)),
        match r {
            Err(_) => zip_contents(*old(a))[i as int].data is Unavailable
                && zip_contents(*old(a))[i as int].size == 0,
            Ok((size, Ok(b))) => zip_contents(*old(a))[i as int].size == size
                && zip_contents(*old(a))[i as int].data == EntryDataModel::Bytes(b@),
            Ok((size, Err(m))) => zip_contents(*old(a))[i as int].size == size
                && zip_contents(*old(a))[i as int].data == EntryDataModel::Failed(m@),
        },
{
    let mut f = a.by_index(i)?;
    let size = f.size();
    let mut buf = Vec::new();
    Ok((size, f.read_to_end(&mut buf).map(|_| buf).map_err(|e| format!("{e}"))))
}

/// The contents of one entry.
pub enum EntryData {
    /// The entry cannot be opened (encrypted, unsupported compression).
    Unavailable,
    /// Opening worked but reading failed; the I/O error's message.
    Failed(String),
    Bytes(Vec<u8>),
}

pub enum EntryDataModel {
    Unavailable,
    Failed(Seq<char>),
    Bytes(Seq<u8>),
}

impl DeepView for EntryData {
    type V = EntryDataModel;

    open spec fn deep_view(&self) -> EntryDataModel {
        match self {
            EntryData::Unavailable => EntryDataModel::Unavailable,
            EntryData::Failed(m) => EntryDataModel::Failed(m@),
            EntryData::Bytes(b) => EntryDataModel::Bytes(b@),
        }
    }
}

/// One archive entry.
pub struct ArchiveEntry {
    pub name: String,
    /// Uncompressed size as recorded in the archive (0 when unavailable).
    pub size: u64,
    pub data: EntryData,
}

pub struct ArchiveEntryModel {
    pub name: Seq<char>,
    pub size: u64,
    pub data: EntryDataModel,
}

impl DeepView for ArchiveEntry {
    type V = ArchiveEntryModel;

    open spec fn deep_view(&self) -> ArchiveEntryModel {
        ArchiveEntryModel { name: self.name@, size: self.size, data: self.data.deep_view() }
    }
}

/// Where an archive's entries come from.
pub enum Source {
    /// Entries held in memory.
    Entries(Vec<ArchiveEntry>),
    /// An opened ZIP archive; an entry is read when it is asked for.
    Zip(ZipArchive<Cursor<Vec<u8>>>),
}

/// The entries of an archive, in archive order.
pub struct Archive {
    pub source: Source,
}

impl DeepView for Archive {
    type V = Seq<ArchiveEntryModel>;

    open spec fn deep_view(&self) -> Seq<ArchiveEntryModel> {
        match self.source {
            Source::Entries(es) => es.deep_view(),
            Source::Zip(z) => zip_contents(z),
        }
    }
}

/// Opens a ZIP archive: `Err` when the bytes are not a ZIP archive, else
/// its entries in archive order. No entry is read yet.
pub fn read_archive(bytes: Vec<u8>) -> (r: Result<Archive, ZipError>)
    ensures
        r is Err <==> zip_read(bytes@) is None,
        r matches Ok(arch) ==> zip_read(bytes@) == Some(arch.deep_view()),
{
    match zip_open(bytes) {
        Ok(z) => Ok(Archive { source: Source::Zip(z) }),
        Err(e) => Err(e),
    }
}

// ── Parts ─────────────────────────────────────────────────────────────────────

/// The first entry named `name`.
pub open spec fn lookup(entries: Seq<ArchiveEntryModel>, name: Seq<char>) -> Option<ArchiveEntryModel>
    decreases entries.len(),
{
    if entries.len() == 0 {
        None
    } else if entries[0].name == name {
        Some(entries[0])
    } else {
        lookup(entries.drop_first(), name)
    }
}

/// The message of the I/O error that reading text which is not UTF-8 gives
/// (`Read::read_to_string`).
pub open spec fn not_utf8_message() -> Seq<char> {
    "stream did not contain valid UTF-8"@
}

/// A part of the package read as text.
pub enum Part {
    /// No such entry, or it cannot be opened.
    Missing,
    /// Reading it failed; the I/O error's message.
    Failed(String),
    Text(String),
}

pub enum PartModel {
    Missing,
    Failed(Seq<char>),
    Text(Seq<char>),
}

impl DeepView for Part {
    type V = PartModel;

    open spec fn deep_view(&self) -> PartModel {
        match self {
            Part::Missing => PartModel::Missing,
            Part::Failed(m) => PartModel::Failed(m@),
            Part::Text(t) => PartModel::Text(t@),
        }
    }
}

/// The part `name` as text: missing when there is no such entry or it
/// cannot be opened; failed when it could not be read or is not UTF-8.
pub open spec fn part_model(entries: Seq<ArchiveEntryModel>, name: Seq<char>) -> PartModel {
    match lookup(entries, name) {
        None => PartModel::Missing,
        Some(e) => match e.data {
            EntryDataModel::Unavailable => PartModel::Missing,
            EntryDataModel::Failed(m) => PartModel::Failed(m),
            EntryDataModel::Bytes(b) => if valid_utf8(b) {
                PartModel::Text(decode_utf8(b))
            } else {
                PartModel::Failed(not_utf8_message())
            },
        },
    }
}

impl Archive {
    /// An archive of entries held in memory.
    pub fn from_entries(entries: Vec<ArchiveEntry>) -> (a: Archive)
        ensures
            a.deep_view() == entries.deep_view(),
    {
        Archive { source: Source::Entries(entries) }
    }

    /// The number of entries.
    pub fn len(&self) -> (n: usize)
        ensures
            n == self.deep_view().len(),
    {
        match &self.source {
            Source::Entries(es) => es.len(),
            Source::Zip(z) => zip_len(z),
        }
    }

    /// The index of the first entry named `name`.
    pub fn position(&self, name: &str) -> (r: Option<usize>)
        ensures
            match r {
                Some(i) => i < self.deep_view().len() && lookup(self.deep_view(), name@) == Some(
                    self.deep_view()[i as int],
                ),
                None => lookup(self.deep_view(), name@) is None,
            },
    {
        match &self.source {
            Source::Zip(z) => zip_index_for_name(z, name),
            Source::Entries(es) => {
                let ghost all = es.deep_view();
                assert(self.deep_view() == all);
                let mut i: usize = 0;
                assert(all.skip(0) =~= all);
                while i < es.len()
                    invariant
                        i <= es.len(),
                        all == es.deep_view(),
                        self.deep_view() == all,
                        lookup(all, name@) == lookup(all.skip(i as int), name@),
                    decreases es.len() - i,
                {
                    assert(all.skip(i as int)[0] == all[i as int]);
                    assert(all[i as int] == es[i as int].deep_view());
                    if str_eq(es[i].name.as_str(), name) {
                        assert(all.skip(i as int).len() > 0);
                        assert(all.skip(i as int)[0].name == name@);
                        return Some(i);
                    }
                    assert(all.skip(i as int).drop_first() =~= all.skip(i + 1));
                    i = i + 1;
                }
                None
            },
        }
    }

    /// The recorded size of entry `i`, `None` where it cannot be opened.
    /// Its data is not read.
    pub fn entry_size(&mut self, i: usize) -> (r: Option<u64>)
        requires
            i < old(self).deep_view().len(),
        ensures
            final(self).deep_view() == old(self).deep_view(),
            r == (if old(self).deep_view()[i as int].data is Unavailable {
                None
            } else {
                Some(old(self).deep_view()[i as int].size)
            }),
    {
        match &mut self.source {
            Source::Entries(es) => {
                assert(es.deep_view()[i as int] == es[i as int].deep_view());
                match &es[i].data {
                    EntryData::Unavailable => None,
                    _ => Some(es[i].size),
                }
            },
            Source::Zip(z) => match zip_entry_size(z, i) {
                Ok(size) => Some(size),
                Err(_) => None,
            },
        }
    }

    /// The data of entry `i`, read now.
    pub fn entry_data(&mut self, i: usize) -> (r: EntryData)
        requires
            i < old(self).deep_view().len(),
        ensures
            final(self).deep_view() == old(self).deep_view(),
            r.deep_view() == old(self).deep_view()[i as int].data,
    {
        match &mut self.source {
            Source::Entries(es) => {
                assert(es.deep_view()[i as int] == es[i as int].deep_view());
                match &es[i].data {
                    EntryData::Unavailable => EntryData::Unavailable,
                    EntryData::Failed(m) => EntryData::Failed(m.clone()),
                    EntryData::Bytes(b) => EntryData::Bytes(copy_bytes(b)),
                }
            },
            Source::Zip(z) => match zip_read_entry(z, i) {
                Err(_) => EntryData::Unavailable,
                Ok((_, Ok(b))) => EntryData::Bytes(b),
                Ok((_, Err(m))) => EntryData::Failed(m),
            },
        }
    }

    /// The part `name` as text; only that entry is read.
    pub fn part(&mut self, name: &str) -> (r: Part)
        ensures
            final(self).deep_view() == old(self).deep_view(),
            r.deep_view() == part_model(old(self).deep_view(), name@),
    {
        match self.position(name) {
            None => Part::Missing,
            Some(i) => match self.entry_data(i) {
                EntryData::Unavailable => Part::Missing,
                EntryData::Failed(m) => Part::Failed(m),
                EntryData::Bytes(b) => match utf8_decode(b.as_slice()) {
                    Some(t) => Part::Text(t),
                    None => Part::Failed("stream did not contain valid UTF-8".to_owned()),
                },
            },
        }
    }
}

fn copy_bytes(b: &Vec<u8>) -> (r: Vec<u8>)
    ensures
        r@ == b@,
{
    let mut r: Vec<u8> = Vec::new();
    let mut i: usize = 0;
    while i < b.len()
        invariant
            i <= b.len(),
            r@ == b@.take(i as int),
        decreases b.len() - i,
    {
        r.push(b[i]);
        i = i + 1;
        assert(r@ =~= b@.take(i as int));
    }
    assert(b@.take(i as int) =~= b@);
    r
}

} // verus!
