//! An opened zip archive, and what the `zip` crate is trusted to do.
//!
//! The archive format is decoded by the `zip` crate. Verus does not read that crate, so
//! this module states what the library relies on: the few functions at the top are
//! believed, not proved. Everything else in the crate is proved from them.
//!
//! An archive is seen as the sequence of its entries in the order of its central
//! directory. Every entry has the name that the central directory gives it. The decoder
//! hands a name out only after it has found the entry's local header, so an entry whose
//! local header it cannot find is lost to the library: its name cannot be read.
use crate::error::{Error, ErrorKind, ErrorKindView};
use crate::path::is_separator;
use crate::text::last_char;
use std::io::Cursor;
use std::io::Read;
use vstd::prelude::*;
use zip::result::ZipError;
use zip::ZipArchive;

verus! {

/// `zip::ZipArchive`, the decoder's handle on an archive. Opaque to Verus.
#[verifier::external_type_specification]
#[verifier::external_body]
#[verifier::reject_recursive_types(R)]
pub struct ExZipArchive<R>(ZipArchive<R>);

/// `std::io::Cursor`, through which the decoder reads from memory. Opaque to Verus.
#[verifier::external_type_specification]
#[verifier::external_body]
#[verifier::reject_recursive_types(T)]
pub struct ExCursor<T>(Cursor<T>);

/// `zip::result::ZipError`, the decoder's error. Opaque to Verus.
#[verifier::external_type_specification]
#[verifier::external_body]
pub struct ExZipError(ZipError);

/// One entry of an archive.
pub struct EntryView {
    /// The name that the central directory gives.
    pub name: Seq<char>,
    /// The Unix permission bits, where the central directory records any.
    pub unix_mode: Option<u32>,
    /// The decoder's message where it cannot find the local header of the entry. Such an
    /// entry gives out neither name nor mode.
    pub lost: Option<Seq<char>>,
    /// The decompressed bytes, or the decoder's message where the entry does not open or
    /// its content does not decode.
    pub content: Result<Seq<u8>, Seq<char>>,
}

/// What `zip::ZipArchive::new` makes of a buffer: the entries in central directory
/// order, or `None` where it rejects the buffer.
pub uninterp spec fn container_entries(bytes: Seq<u8>) -> Option<Seq<EntryView>>;

/// What an opened archive holds, in central directory order.
pub uninterp spec fn archive_entries(archive: ZipArchive<Cursor<Vec<u8>>>) -> Seq<EntryView>;

/// Calls `zip::ZipArchive::new` on the buffer. Trusted: the call succeeds exactly on the
/// buffers that `container_entries` accepts, and the archive then holds those entries.
/// The decoder reads nothing but the buffer, so the same bytes always give the same
/// answer. It sets aside room for as many entries as the buffer declares, at most one for
/// each byte in front of the central directory; that memory is taken to be there.
#[verifier::external_body]
fn zip_open(bytes: Vec<u8>) -> (opened: Result<ZipArchive<Cursor<Vec<u8>>>, ZipError>)
    ensures
        match opened {
            Ok(archive) => container_entries(bytes@) == Some(archive_entries(archive)),
            Err(_) => container_entries(bytes@) is None,
        },
{
    ZipArchive::new(Cursor::new(bytes))
}

/// Calls `zip::ZipArchive::len`. Trusted: it is the number of entries of the central
/// directory.
#[verifier::external_body]
fn zip_len(archive: &ZipArchive<Cursor<Vec<u8>>>) -> (count: usize)
    ensures
        count == archive_entries(*archive).len(),
{
    archive.len()
}

/// Calls `zip::ZipArchive::by_name_decrypt` with the empty password and looks only at
/// whether the decoder knows the name. Trusted: the decoder answers `FileNotFound`
/// exactly where no entry of the central directory has the name, whatever else is wrong
/// with the entry. The archive holds afterwards what it held before.
#[verifier::external_body]
fn zip_has_name(archive: &mut ZipArchive<Cursor<Vec<u8>>>, name: &str) -> (known: bool)
    ensures
        archive_entries(*final(archive)) == archive_entries(*old(archive)),
        known == has_name(archive_entries(*old(archive)), name@),
{
    match archive.by_name_decrypt(name, &[]) {
        Err(ZipError::FileNotFound) => false,
        _ => true,
    }
}

/// Calls `zip::ZipArchive::by_index_raw`, then `ZipFile::name` and `ZipFile::unix_mode`.
/// Trusted: where the decoder finds the local header, these are the entry's name and
/// mode; where it does not, the text is its message. Looking an entry up moves the reader
/// and nothing else: the archive holds afterwards what it held before.
#[verifier::external_body]
fn zip_entry_header(archive: &mut ZipArchive<Cursor<Vec<u8>>>, index: usize) -> (header: Result<
    (String, Option<u32>),
    String,
>)
    requires
        index < archive_entries(*old(archive)).len(),
    ensures
        archive_entries(*final(archive)) == archive_entries(*old(archive)),
        match header {
            Ok((name, mode)) => archive_entries(*old(archive))[index as int].lost is None
                && archive_entries(*old(archive))[index as int].name == name@ && archive_entries(
                *old(archive),
            )[index as int].unix_mode == mode,
            Err(text) => archive_entries(*old(archive))[index as int].lost == Some(text@),
        },
{
    match archive.by_index_raw(index) {
        Ok(file) => Ok((file.name().to_string(), file.unix_mode())),
        Err(error) => Err(error.to_string()),
    }
}

/// Calls `zip::ZipArchive::by_index_decrypt` with the empty password and reads the entry
/// to its end with `std::io::Read::read_to_end`. Trusted: the bytes are the entry's
/// content; where the entry does not open (the decoder fails or refuses the password) or
/// its content does not decode, the text is the message of the failure. The archive
/// holds afterwards what it held before.
#[verifier::external_body]
fn zip_entry_content(archive: &mut ZipArchive<Cursor<Vec<u8>>>, index: usize) -> (content: Result<
    Vec<u8>,
    String,
>)
    requires
        index < archive_entries(*old(archive)).len(),
    ensures
        archive_entries(*final(archive)) == archive_entries(*old(archive)),
        match content {
            Ok(bytes) => archive_entries(*old(archive))[index as int].content == Ok::<
                Seq<u8>,
                Seq<char>,
            >(bytes@),
            Err(text) => archive_entries(*old(archive))[index as int].content == Err::<
                Seq<u8>,
                Seq<char>,
            >(text@),
        },
{
    let mut file = match archive.by_index_decrypt(index, &[]) {
        Ok(Ok(file)) => file,
        Ok(Err(refused)) => return Err(refused.to_string()),
        Err(error) => return Err(error.to_string()),
    };
    let mut bytes = Vec::new();
    match file.read_to_end(&mut bytes) {
        Ok(_) => Ok(bytes),
        Err(error) => Err(error.to_string()),
    }
}

/// Whether an entry has the name, letter for letter.
pub open spec fn has_name(entries: Seq<EntryView>, name: Seq<char>) -> bool {
    exists|index: int| 0 <= index < entries.len() && (#[trigger] entries[index]).name == name
}

/// What reading an entry to its end gives: the bytes, or the failure.
pub open spec fn content_of(entry: EntryView) -> Result<Seq<u8>, ErrorKindView> {
    match entry.content {
        Ok(bytes) => Ok(bytes),
        Err(text) => Err(ErrorKindView::IoError(text)),
    }
}

/// Whether the name of the entry can be read and is the given one.
pub open spec fn bears(entry: EntryView, name: Seq<char>) -> bool {
    entry.lost is None && entry.name == name
}

/// The content of the first entry that bears the name, in the order of the archive.
/// Entries that are lost are passed over. `None` where no entry bears the name.
pub open spec fn first_bearer(entries: Seq<EntryView>, name: Seq<char>) -> Option<
    Result<Seq<u8>, ErrorKindView>,
>
    decreases entries.len(),
{
    if entries.len() == 0 {
        None
    } else if bears(entries[0], name) {
        Some(content_of(entries[0]))
    } else {
        first_bearer(entries.drop_first(), name)
    }
}

/// The decoder's message for the first entry that is lost, if any is.
pub open spec fn first_lost(entries: Seq<EntryView>) -> Option<Seq<char>>
    decreases entries.len(),
{
    if entries.len() == 0 {
        None
    } else {
        match first_lost(entries.drop_last()) {
            Some(text) => Some(text),
            None => entries.last().lost,
        }
    }
}

/// The content of the member called `name`. It is not found where no entry has the name.
/// Else it is the content of the first entry that bears the name, whatever the other
/// entries are. Where the name is that of lost entries only, the member cannot be had,
/// and the failure is the decoder's message for the first entry that is lost.
pub open spec fn member(entries: Seq<EntryView>, name: Seq<char>) -> Result<Seq<u8>, ErrorKindView> {
    if !has_name(entries, name) {
        Err(ErrorKindView::ZipFileEntryNotFound(name))
    } else {
        match first_bearer(entries, name) {
            Some(content) => content,
            None => match first_lost(entries) {
                Some(text) => Err(ErrorKindView::IoError(text)),
                None => Err(ErrorKindView::ZipFileEntryNotFound(name)),
            },
        }
    }
}

/// A name that ends in a separator is the name of a directory.
pub open spec fn names_directory(name: Seq<char>) -> bool {
    name.len() > 0 && is_separator(name.last())
}

/// What an entry says of itself. Its content is read apart, on demand.
pub struct Entry {
    pub name: String,
    pub unix_mode: Option<u32>,
}

impl Entry {
    /// Whether the entry stands for a directory.
    pub fn is_directory(&self) -> (directory: bool)
        ensures
            directory == names_directory(self.name@),
    {
        match last_char(self.name.as_str()) {
            Some(c) => c == '/' || c == '\\',
            None => false,
        }
    }
}

/// An opened archive held in memory. Its view is the sequence of its entries.
pub struct ByteArchive {
    inner: ZipArchive<Cursor<Vec<u8>>>,
}

impl View for ByteArchive {
    type V = Seq<EntryView>;

    closed spec fn view(&self) -> Seq<EntryView> {
        archive_entries(self.inner)
    }
}

impl ByteArchive {
    /// The number of entries.
    pub fn len(&self) -> (count: usize)
        ensures
            count == self@.len(),
    {
        zip_len(&self.inner)
    }

    /// Whether an entry of the archive has the name, letter for letter.
    pub fn contains(&mut self, name: &str) -> (known: bool)
        ensures
            final(self)@ == old(self)@,
            known == has_name(old(self)@, name@),
    {
        zip_has_name(&mut self.inner, name)
    }

    /// The name and mode of the entry at `index`. Fails with the decoder's message where
    /// the entry is lost.
    pub fn read_entry_by_index(&mut self, index: usize) -> (entry: Result<Entry, Error>)
        requires
            index < old(self)@.len(),
        ensures
            final(self)@ == old(self)@,
            match entry {
                Ok(found) => old(self)@[index as int].lost is None && old(self)@[index as int].name
                    == found.name@ && old(self)@[index as int].unix_mode == found.unix_mode,
                Err(error) => old(self)@[index as int].lost matches Some(text) && error@
                    == ErrorKindView::IoError(text),
            },
    {
        match zip_entry_header(&mut self.inner, index) {
            Ok((name, unix_mode)) => Ok(Entry { name, unix_mode }),
            Err(text) => Err(Error::from(ErrorKind::IoError(text))),
        }
    }

    /// The content of the entry at `index`, read to its end.
    pub fn read_content_by_index(&mut self, index: usize) -> (content: Result<Vec<u8>, Error>)
        requires
            index < old(self)@.len(),
        ensures
            final(self)@ == old(self)@,
            match content {
                Ok(bytes) => content_of(old(self)@[index as int]) == Ok::<Seq<u8>, ErrorKindView>(
                    bytes@,
                ),
                Err(error) => content_of(old(self)@[index as int]) == Err::<
                    Seq<u8>,
                    ErrorKindView,
                >(error@),
            },
    {
        match zip_entry_content(&mut self.inner, index) {
            Ok(bytes) => Ok(bytes),
            Err(text) => Err(Error::from(ErrorKind::IoError(text))),
        }
    }

    /// The content of the member called `name`. Names are compared letter for letter.
    /// The member is not found exactly where no entry has the name. Where several entries
    /// have it, the first one whose name can be read counts; no other entry has a say.
    pub fn read_entry_by_name(&mut self, name: &str) -> (content: Result<Vec<u8>, Error>)
        ensures
            final(self)@ == old(self)@,
            match content {
                Ok(bytes) => member(old(self)@, name@) == Ok::<Seq<u8>, ErrorKindView>(bytes@),
                Err(error) => member(old(self)@, name@) == Err::<Seq<u8>, ErrorKindView>(error@),
            },
    {
        let wanted = String::from_str(name);
        if !self.contains(name) {
            return Err(Error::from(ErrorKind::ZipFileEntryNotFound(wanted)));
        }
        let count: usize = self.len();
        let mut failure: Option<Error> = None;
        let mut index: usize = 0;
        assert(self@.skip(0) == self@);
        assert(self@.take(0) == Seq::<EntryView>::empty());
        while index < count
            invariant
                index <= count,
                count == self@.len(),
                self@ == old(self)@,
                wanted@ == name@,
                has_name(self@, name@),
                first_bearer(self@, name@) == first_bearer(self@.skip(index as int), name@),
                match failure {
                    Some(error) => first_lost(self@.take(index as int)) matches Some(text) && error@
                        == ErrorKindView::IoError(text),
                    None => first_lost(self@.take(index as int)) is None,
                },
            decreases count - index,
        {
            assert(self@.skip(index as int).drop_first() == self@.skip(index as int + 1));
            assert(self@.take(index as int + 1).drop_last() == self@.take(index as int));
            match self.read_entry_by_index(index) {
                Err(error) => {
                    if failure.is_none() {
                        failure = Some(error);
                    }
                },
                Ok(entry) => {
                    if entry.name == wanted {
                        return self.read_content_by_index(index);
                    }
                },
            }
            index += 1;
        }
        assert(self@.take(index as int) == self@);
        match failure {
            Some(error) => Err(error),
            None => Err(Error::from(ErrorKind::ZipFileEntryNotFound(wanted))),
        }
    }
}

/// Opens a buffer as an archive.
pub fn new_from_bytes(bytes: Vec<u8>) -> (opened: Result<ByteArchive, ZipError>)
    ensures
        match opened {
            Ok(archive) => container_entries(bytes@) == Some(archive@),
            Err(_) => container_entries(bytes@) is None,
        },
{
    match zip_open(bytes) {
        Ok(inner) => Ok(ByteArchive { inner }),
        Err(error) => Err(error),
    }
}

/// First match wins: the member called `name` is the first entry that bears the name,
/// whatever stands in front of it or behind it.
pub proof fn lemma_member_is_first_match(entries: Seq<EntryView>, name: Seq<char>, index: int)
    requires
        0 <= index < entries.len(),
        bears(entries[index], name),
        forall|earlier: int| 0 <= earlier < index ==> !bears(#[trigger] entries[earlier], name),
    ensures
        member(entries, name) == content_of(entries[index]),
{
    lemma_first_bearer_at(entries, name, index);
}

proof fn lemma_first_bearer_at(entries: Seq<EntryView>, name: Seq<char>, index: int)
    requires
        0 <= index < entries.len(),
        bears(entries[index], name),
        forall|earlier: int| 0 <= earlier < index ==> !bears(#[trigger] entries[earlier], name),
    ensures
        first_bearer(entries, name) == Some(content_of(entries[index])),
    decreases index,
{
    if index > 0 {
        let rest = entries.drop_first();
        assert(!bears(entries[0], name));
        assert forall|earlier: int| 0 <= earlier < index - 1 implies !bears(
            #[trigger] rest[earlier],
            name,
        ) by {
            assert(rest[earlier] == entries[earlier + 1]);
        }
        lemma_first_bearer_at(rest, name, index - 1);
    }
}

/// Where no entry bears the name, none is found, and where one is found, one bears it.
proof fn lemma_first_bearer_none(entries: Seq<EntryView>, name: Seq<char>)
    ensures
        first_bearer(entries, name) is None <==> forall|index: int|
            0 <= index < entries.len() ==> !bears(#[trigger] entries[index], name),
    decreases entries.len(),
{
    if entries.len() > 0 {
        let rest = entries.drop_first();
        lemma_first_bearer_none(rest, name);
        if !bears(entries[0], name) {
            if first_bearer(rest, name) is None {
                assert forall|index: int| 0 <= index < entries.len() implies !bears(
                    #[trigger] entries[index],
                    name,
                ) by {
                    if index > 0 {
                        assert(rest[index - 1] == entries[index]);
                    }
                }
            } else {
                let found = choose|index: int| 0 <= index < rest.len() && bears(#[trigger] rest[index], name);
                assert(bears(entries[found + 1], name));
            }
        }
    }
}

/// Where an entry is lost, there is a first one.
proof fn lemma_first_lost_some(entries: Seq<EntryView>, index: int)
    requires
        0 <= index < entries.len(),
        entries[index].lost is Some,
    ensures
        first_lost(entries) is Some,
    decreases entries.len(),
{
    if index < entries.len() - 1 {
        lemma_first_lost_some(entries.drop_last(), index);
    }
}

/// A member is not found exactly where no entry has its name.
pub proof fn lemma_member_not_found_iff_absent(entries: Seq<EntryView>, name: Seq<char>)
    ensures
        member(entries, name) == Err::<Seq<u8>, ErrorKindView>(
            ErrorKindView::ZipFileEntryNotFound(name),
        ) <==> !has_name(entries, name),
{
    if has_name(entries, name) {
        let index = choose|index: int| 0 <= index < entries.len() && (#[trigger] entries[index]).name == name;
        lemma_first_bearer_none(entries, name);
        if first_bearer(entries, name) is None {
            assert(!bears(entries[index], name));
            lemma_first_lost_some(entries, index);
        } else {
            lemma_first_bearer_content(entries, name);
        }
    }
}

/// What is found is the content of an entry: bytes or an `IoError`, never "not found".
proof fn lemma_first_bearer_content(entries: Seq<EntryView>, name: Seq<char>)
    requires
        first_bearer(entries, name) is Some,
    ensures
        first_bearer(entries, name)->0 != Err::<Seq<u8>, ErrorKindView>(
            ErrorKindView::ZipFileEntryNotFound(name),
        ),
    decreases entries.len(),
{
    if entries.len() > 0 && !bears(entries[0], name) {
        lemma_first_bearer_content(entries.drop_first(), name);
    }
}

/// Where the name is that of lost entries only, the member fails with the decoder's
/// message for the first entry that is lost.
pub proof fn lemma_member_of_lost_entries(entries: Seq<EntryView>, name: Seq<char>)
    requires
        has_name(entries, name),
        forall|index: int| 0 <= index < entries.len() ==> !bears(#[trigger] entries[index], name),
    ensures
        first_lost(entries) matches Some(text) && member(entries, name) == Err::<
            Seq<u8>,
            ErrorKindView,
        >(ErrorKindView::IoError(text)),
{
    let index = choose|index: int| 0 <= index < entries.len() && (#[trigger] entries[index]).name == name;
    assert(!bears(entries[index], name));
    lemma_first_lost_some(entries, index);
    lemma_first_bearer_none(entries, name);
}

} // verus!
