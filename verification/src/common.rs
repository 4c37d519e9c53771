//! Opening the outer archive and walking down a chain of member names.
//!
//! A chain `[A, B]` means: open member `A` of the outer archive, take its bytes for an
//! archive, open member `B` of that one. Every name of the chain is taken for an
//! archive; a caller that wants the bytes of a last member keeps that name out of the
//! chain and reads it from the archive that the walk ends in.
use crate::archive::{container_entries, member, new_from_bytes, ByteArchive, EntryView};
use crate::error::{Error, ErrorKind, ErrorKindView};
use crate::unpack::{Unpacking, UnpackingView};
use vstd::prelude::*;

verus! {

/// What the caller found when it read the outer file into memory.
pub enum FileRead {
    /// There is no such file.
    NotFound,
    /// The file is there but could not be read; the text says why.
    Failed(String),
    /// The whole file.
    Contents(Vec<u8>),
}

/// What an action hands back for the caller to put out.
pub enum Outcome {
    /// Names to print, one to a line.
    Names(Vec<String>),
    /// Bytes to write out as they are.
    Bytes(Vec<u8>),
    /// An unpacking to carry out step by step.
    Unpacking(Unpacking),
}

/// An [`Outcome`] as mathematical values.
pub enum OutcomeView {
    Names(Seq<Seq<char>>),
    Bytes(Seq<u8>),
    Unpacking(UnpackingView),
}

impl View for Outcome {
    type V = OutcomeView;

    open spec fn view(&self) -> OutcomeView {
        match self {
            Outcome::Names(names) => OutcomeView::Names(texts(names@)),
            Outcome::Bytes(bytes) => OutcomeView::Bytes(bytes@),
            Outcome::Unpacking(unpacking) => OutcomeView::Unpacking(unpacking@),
        }
    }
}

/// A request, made once from the command line and carried out once.
pub trait Action {
    /// The outer file.
    spec fn file(&self) -> Seq<char>;

    /// The member names that lead from the outer file to the archive that is worked on.
    spec fn chain(&self) -> Seq<Seq<char>>;

    /// What carrying out the request gives, for what was read of the outer file.
    spec fn outcome(&self, read: FileRead) -> Result<OutcomeView, ErrorKindView>;

    /// The outer file, for the caller to read.
    fn input_file_name(&self) -> (name: &str)
        ensures
            name@ == self.file(),
    ;

    /// Carries out the request on what the caller read of the outer file.
    fn exec(&self, read: FileRead) -> (done: Result<Outcome, Error>)
        ensures
            match done {
                Ok(outcome) => self.outcome(read) == Ok::<OutcomeView, ErrorKindView>(outcome@),
                Err(error) => self.outcome(read) == Err::<OutcomeView, ErrorKindView>(error@),
            },
    ;
}

/// The texts of a list of strings.
pub open spec fn texts(strings: Seq<String>) -> Seq<Seq<char>> {
    strings.map_values(|s: String| s@)
}

/// The texts of a list of string slices.
pub open spec fn slice_texts(strings: Seq<&str>) -> Seq<Seq<char>> {
    strings.map_values(|s: &str| s@)
}

/// The outer archive, or why there is none.
pub open spec fn opened(path: Seq<char>, read: FileRead) -> Result<Seq<EntryView>, ErrorKindView> {
    match read {
        FileRead::NotFound => Err(ErrorKindView::DoesNotExist(path)),
        FileRead::Failed(text) => Err(ErrorKindView::IoError(text@)),
        FileRead::Contents(bytes) => match container_entries(bytes@) {
            Some(entries) => Ok(entries),
            None => Err(ErrorKindView::NotZipArchive(path)),
        },
    }
}

/// The archive that the walk down `chain` ends in, starting from the given entries.
pub open spec fn resolved(entries: Seq<EntryView>, chain: Seq<Seq<char>>) -> Result<
    Seq<EntryView>,
    ErrorKindView,
>
    decreases chain.len(),
{
    if chain.len() == 0 {
        Ok(entries)
    } else {
        match member(entries, chain[0]) {
            Err(kind) => Err(kind),
            Ok(bytes) => match container_entries(bytes) {
                None => Err(ErrorKindView::ZipEntryNotZipArchive(chain[0])),
                Some(inner) => resolved(inner, chain.drop_first()),
            },
        }
    }
}

/// The archive at the end of `chain` inside the outer file.
pub open spec fn located(path: Seq<char>, read: FileRead, chain: Seq<Seq<char>>) -> Result<
    Seq<EntryView>,
    ErrorKindView,
> {
    match opened(path, read) {
        Err(kind) => Err(kind),
        Ok(entries) => resolved(entries, chain),
    }
}

/// What listing gives: every name in order, or the decoder's message at the first entry
/// that is lost, whose name cannot be read.
pub open spec fn listing(entries: Seq<EntryView>) -> Result<Seq<Seq<char>>, ErrorKindView>
    decreases entries.len(),
{
    if entries.len() == 0 {
        Ok(Seq::empty())
    } else {
        match listing(entries.drop_last()) {
            Err(kind) => Err(kind),
            Ok(names) => match entries.last().lost {
                None => Ok(names.push(entries.last().name)),
                Some(text) => Err(ErrorKindView::IoError(text)),
            },
        }
    }
}

/// Opens the outer file as an archive, from what the caller read of it.
pub fn new_from_file(zip_file_path: &str, read: FileRead) -> (archive: Result<ByteArchive, Error>)
    ensures
        match archive {
            Ok(found) => opened(zip_file_path@, read) == Ok::<Seq<EntryView>, ErrorKindView>(found@),
            Err(error) => opened(zip_file_path@, read) == Err::<Seq<EntryView>, ErrorKindView>(error@),
        },
{
    match read {
        FileRead::NotFound => Err(
            Error::from(ErrorKind::DoesNotExist(String::from_str(zip_file_path))),
        ),
        FileRead::Failed(text) => Err(Error::from(ErrorKind::IoError(text))),
        FileRead::Contents(data) => match new_from_bytes(data) {
            Ok(zip_file_archive) => Ok(zip_file_archive),
            Err(_) => Err(Error::from(ErrorKind::NotZipArchive(String::from_str(zip_file_path)))),
        },
    }
}

/// The same names as slices, in the same order.
pub fn string_vec_to_str_vec(input: &[String]) -> (output: Vec<&str>)
    ensures
        slice_texts(output@) == texts(input@),
{
    let mut output: Vec<&str> = Vec::new();
    let mut index: usize = 0;
    while index < input.len()
        invariant
            index <= input.len(),
            slice_texts(output@) == texts(input@.take(index as int)),
        decreases input.len() - index,
    {
        let name = input[index].as_str();
        assert(slice_texts(output@.push(name)) == slice_texts(output@).push(name@));
        output.push(name);
        index += 1;
    }
    output
}

/// Owned copies of the names from `from` up to `to`.
pub fn owned_names(input: &Vec<&str>, from: usize, to: usize) -> (names: Vec<String>)
    requires
        from <= to <= input.len(),
    ensures
        texts(names@) == slice_texts(input@.subrange(from as int, to as int)),
{
    let mut names: Vec<String> = Vec::new();
    let mut index: usize = from;
    while index < to
        invariant
            from <= index <= to <= input.len(),
            texts(names@) == slice_texts(input@.subrange(from as int, index as int)),
        decreases to - index,
    {
        let name = String::from_str(input[index]);
        assert(texts(names@.push(name)) == texts(names@).push(name@));
        names.push(name);
        index += 1;
    }
    names
}

/// Walks down `rec_files` from `archive`. With nothing to walk, the archive comes back as
/// it was given.
pub fn parse_files_rec(archive: ByteArchive, rec_files: &[&str]) -> (end: Result<ByteArchive, Error>)
    ensures
        match end {
            Ok(found) => resolved(archive@, slice_texts(rec_files@)) == Ok::<
                Seq<EntryView>,
                ErrorKindView,
            >(found@),
            Err(error) => resolved(archive@, slice_texts(rec_files@)) == Err::<
                Seq<EntryView>,
                ErrorKindView,
            >(error@),
        },
        rec_files@.len() == 0 ==> end == Ok::<ByteArchive, Error>(archive),
{
    let ghost chain = slice_texts(rec_files@);
    let mut current = archive;
    let mut level: usize = 0;
    assert(chain.skip(0) == chain);
    while level < rec_files.len()
        invariant
            level <= rec_files.len(),
            chain == slice_texts(rec_files@),
            resolved(archive@, chain) == resolved(current@, chain.skip(level as int)),
            level == 0 ==> current == archive,
        decreases rec_files.len() - level,
    {
        let source_file = rec_files[level];
        assert(chain.skip(level as int).drop_first() == chain.skip(level as int + 1));
        let buf = match current.read_entry_by_name(source_file) {
            Ok(buf) => buf,
            Err(error) => {
                return Err(error);
            },
        };
        let new_archive = match new_from_bytes(buf) {
            Ok(new_archive) => new_archive,
            Err(_) => {
                return Err(
                    Error::from(ErrorKind::ZipEntryNotZipArchive(String::from_str(source_file))),
                );
            },
        };
        current = new_archive;
        level += 1;
    }
    Ok(current)
}

/// Opens the outer file and walks down the chain of member names.
pub fn parse_file_to_archive(
    input_file_name: &str,
    read: FileRead,
    nested_file_names: &[String],
) -> (end: Result<ByteArchive, Error>)
    ensures
        match end {
            Ok(found) => located(input_file_name@, read, texts(nested_file_names@)) == Ok::<
                Seq<EntryView>,
                ErrorKindView,
            >(found@),
            Err(error) => located(input_file_name@, read, texts(nested_file_names@)) == Err::<
                Seq<EntryView>,
                ErrorKindView,
            >(error@),
        },
{
    let archive = match new_from_file(input_file_name, read) {
        Ok(archive) => archive,
        Err(error) => {
            return Err(error);
        },
    };
    let names = string_vec_to_str_vec(nested_file_names);
    parse_files_rec(archive, names.as_slice())
}

/// The names of all entries, in the order of the archive. Fails with the decoder's
/// message at the first entry that does not open.
pub fn get_files_list(archive: &mut ByteArchive) -> (names: Result<Vec<String>, Error>)
    ensures
        final(archive)@ == old(archive)@,
        match names {
            Ok(list) => listing(old(archive)@) == Ok::<Seq<Seq<char>>, ErrorKindView>(texts(list@)),
            Err(error) => listing(old(archive)@) == Err::<Seq<Seq<char>>, ErrorKindView>(error@),
        },
{
    let count: usize = archive.len();
    let mut name_vec: Vec<String> = Vec::new();
    let mut index: usize = 0;
    assert(texts(name_vec@) == Seq::<Seq<char>>::empty());
    while index < count
        invariant
            index <= count,
            count == archive@.len(),
            archive@ == old(archive)@,
            listing(archive@.take(index as int)) == Ok::<Seq<Seq<char>>, ErrorKindView>(
                texts(name_vec@),
            ),
        decreases count - index,
    {
        assert(archive@.take(index as int + 1).drop_last() == archive@.take(index as int));
        match archive.read_entry_by_index(index) {
            Ok(entry) => {
                assert(texts(name_vec@.push(entry.name)) == texts(name_vec@).push(entry.name@));
                name_vec.push(entry.name);
            },
            Err(error) => {
                proof {
                    lemma_listing_stops(archive@, index as int + 1);
                }
                return Err(error);
            },
        }
        index += 1;
    }
    assert(archive@.take(index as int) == archive@);
    Ok(name_vec)
}

/// A listing that fails on the first entries fails in the same way on the whole.
pub proof fn lemma_listing_stops(entries: Seq<EntryView>, upto: int)
    requires
        0 <= upto <= entries.len(),
        listing(entries.take(upto)) is Err,
    ensures
        listing(entries) == listing(entries.take(upto)),
    decreases entries.len() - upto,
{
    if upto < entries.len() {
        assert(entries.take(upto + 1).drop_last() == entries.take(upto));
        lemma_listing_stops(entries, upto + 1);
    } else {
        assert(entries.take(upto) == entries);
    }
}

/// Where no entry is lost, the listing is the names of all entries, in the order of the
/// archive.
pub proof fn lemma_listing_is_all_names(entries: Seq<EntryView>)
    requires
        forall|index: int| 0 <= index < entries.len() ==> (#[trigger] entries[index]).lost is None,
    ensures
        listing(entries) matches Ok(names) && names.len() == entries.len() && forall|index: int|
            0 <= index < entries.len() ==> #[trigger] names[index] == entries[index].name,
    decreases entries.len(),
{
    if entries.len() > 0 {
        let before = entries.drop_last();
        assert forall|index: int| 0 <= index < before.len() implies (#[trigger] before[index]).lost is None by {
            assert(before[index] == entries[index]);
        }
        lemma_listing_is_all_names(before);
        assert(entries.last() == entries[entries.len() - 1]);
    }
}

/// Where an entry is lost, the listing fails with the message of the first such entry.
pub proof fn lemma_listing_fails_at_first(entries: Seq<EntryView>, index: int)
    requires
        0 <= index < entries.len(),
        entries[index].lost is Some,
        forall|earlier: int| 0 <= earlier < index ==> (#[trigger] entries[earlier]).lost is None,
    ensures
        listing(entries) == Err::<Seq<Seq<char>>, ErrorKindView>(
            ErrorKindView::IoError(entries[index].lost->0),
        ),
{
    assert(entries.take(index + 1).drop_last() == entries.take(index));
    assert forall|earlier: int| 0 <= earlier < index implies (#[trigger] entries.take(
        index,
    )[earlier]).lost is None by {
        assert(entries.take(index)[earlier] == entries[earlier]);
    }
    lemma_listing_is_all_names(entries.take(index));
    assert(entries.take(index + 1).last() == entries[index]);
    lemma_listing_stops(entries, index + 1);
}

/// A buffer opens exactly where it is a container, and otherwise fails as no archive
/// under the name of the file. Where it opens and none of its entries is lost, the
/// listing is the names of the entries, as many and in the order of the container.
pub proof fn lemma_container_opens_and_lists(path: Seq<char>, bytes: Vec<u8>)
    ensures
        match container_entries(bytes@) {
            None => opened(path, FileRead::Contents(bytes)) == Err::<Seq<EntryView>, ErrorKindView>(
                ErrorKindView::NotZipArchive(path),
            ),
            Some(entries) => {
                &&& opened(path, FileRead::Contents(bytes)) == Ok::<Seq<EntryView>, ErrorKindView>(
                    entries,
                )
                &&& (forall|index: int|
                    0 <= index < entries.len() ==> (#[trigger] entries[index]).lost is None) ==> (
                listing(entries) matches Ok(names) && names.len() == entries.len() && forall|
                    index: int,
                |
                    0 <= index < entries.len() ==> #[trigger] names[index] == entries[index].name)
            },
        },
{
    match container_entries(bytes@) {
        None => {},
        Some(entries) => {
            if forall|index: int| 0 <= index < entries.len() ==> (#[trigger] entries[index]).lost is None {
                lemma_listing_is_all_names(entries);
            }
        },
    }
}

/// Identity: the walk down an empty chain ends in the archive it started from.
pub proof fn lemma_resolved_empty_chain(entries: Seq<EntryView>)
    ensures
        resolved(entries, Seq::empty()) == Ok::<Seq<EntryView>, ErrorKindView>(entries),
{
}

/// Decomposition: walking down a chain is walking down its first part and, from the
/// archive found there, down the rest. A failure on the first part is the failure of the
/// whole.
pub proof fn lemma_resolved_in_parts(
    entries: Seq<EntryView>,
    first: Seq<Seq<char>>,
    second: Seq<Seq<char>>,
)
    ensures
        resolved(entries, first + second) == match resolved(entries, first) {
            Ok(between) => resolved(between, second),
            Err(kind) => Err(kind),
        },
    decreases first.len(),
{
    if first.len() > 0 {
        assert((first + second).drop_first() == first.drop_first() + second);
        match member(entries, first[0]) {
            Err(_) => {},
            Ok(bytes) => match container_entries(bytes) {
                None => {},
                Some(inner) => {
                    lemma_resolved_in_parts(inner, first.drop_first(), second);
                },
            },
        }
    }
}

/// The walk down `[a, b]` is the walk down `[a]` followed, from the archive found there,
/// by the walk down `[b]`.
pub proof fn lemma_resolved_step_by_step(entries: Seq<EntryView>, a: Seq<char>, b: Seq<char>)
    ensures
        resolved(entries, seq![a, b]) == match resolved(entries, seq![a]) {
            Ok(between) => resolved(between, seq![b]),
            Err(kind) => Err(kind),
        },
{
    assert(seq![a] + seq![b] == seq![a, b]);
    lemma_resolved_in_parts(entries, seq![a], seq![b]);
}

} // verus!
