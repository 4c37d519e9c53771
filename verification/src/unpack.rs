//! Unpacking every entry of an archive below a destination directory.
//!
//! The library does not touch the disk. [`Unpacking`] decides, entry by entry in the
//! order of the archive, what has to happen next. The caller does it and tells how it
//! went; the answer is the next [`Step`] or the failure that ends the work. What was
//! written before a failure stays.
use crate::archive::{names_directory, ByteArchive, Entry, EntryView};
use crate::common::{
    located, owned_names, parse_file_to_archive, slice_texts, texts, Action, FileRead, Outcome,
    OutcomeView,
};
use crate::error::{Error, ErrorKind, ErrorKindView};
use crate::path::{parent, parent_of, safe_path, sanitize, sanitized, to_file_path};
use vstd::prelude::*;

verus! {

/// The request to unpack the archive at the end of a chain below a directory.
pub struct UnpackActionInput {
    unpack_target: String,
    input_file_name: String,
    nested_file_names: Vec<String>,
}

impl UnpackActionInput {
    /// The directory below which the entries are written.
    pub closed spec fn destination(&self) -> Seq<char> {
        self.unpack_target@
    }

    /// Makes the request from the destination and the outer file followed by the member
    /// names of the chain.
    pub fn new(unpack_target: &str, input: Vec<&str>) -> (made: Result<UnpackActionInput, Error>)
        requires
            input.len() >= 1,
        ensures
            made matches Ok(action) && action.destination() == unpack_target@ && action.file()
                == input[0]@ && action.chain() == slice_texts(input@.skip(1)),
    {
        let action_input = UnpackActionInput {
            unpack_target: String::from_str(unpack_target),
            input_file_name: String::from_str(input[0]),
            nested_file_names: owned_names(&input, 1, input.len()),
        };
        Ok(action_input)
    }
}

impl Action for UnpackActionInput {
    closed spec fn file(&self) -> Seq<char> {
        self.input_file_name@
    }

    closed spec fn chain(&self) -> Seq<Seq<char>> {
        texts(self.nested_file_names@)
    }

    /// An unpacking of the archive at the end of the chain that has not begun.
    open spec fn outcome(&self, read: FileRead) -> Result<OutcomeView, ErrorKindView> {
        match located(self.file(), read, self.chain()) {
            Err(kind) => Err(kind),
            Ok(entries) => Ok(
                OutcomeView::Unpacking(
                    UnpackingView {
                        entries,
                        root: self.destination(),
                        index: 0,
                        phase: Phase::Idle,
                    },
                ),
            ),
        }
    }

    fn input_file_name(&self) -> (name: &str) {
        self.input_file_name.as_str()
    }

    fn exec(&self, read: FileRead) -> (done: Result<Outcome, Error>) {
        match parse_file_to_archive(
            self.input_file_name.as_str(),
            read,
            self.nested_file_names.as_slice(),
        ) {
            Ok(archive) => Ok(Outcome::Unpacking(Unpacking::new(archive, self.unpack_target.clone()))),
            Err(error) => Err(error),
        }
    }
}

/// Work for the caller.
pub enum Step {
    /// Create the directory and all its missing ancestors; one that is there is no
    /// failure.
    CreateDirectory(String),
    /// Find out whether anything is at the path.
    ProbeTarget(String),
    /// Create the directory, which is the one that the next file goes into, and all its
    /// missing ancestors, unless it is there.
    CreateParents(String),
    /// Create an empty file at the path.
    CreateFile(String),
    /// Write the bytes into the file just created.
    WriteContents(String, Vec<u8>),
    /// Set the permission bits of what is at the path.
    SetPermissions(String, u32),
    /// Nothing is left to do.
    Finished,
}

/// A [`Step`] as mathematical values.
pub enum StepView {
    CreateDirectory(Seq<char>),
    ProbeTarget(Seq<char>),
    CreateParents(Seq<char>),
    CreateFile(Seq<char>),
    WriteContents(Seq<char>, Seq<u8>),
    SetPermissions(Seq<char>, u32),
    Finished,
}

impl View for Step {
    type V = StepView;

    open spec fn view(&self) -> StepView {
        match self {
            Step::CreateDirectory(path) => StepView::CreateDirectory(path@),
            Step::ProbeTarget(path) => StepView::ProbeTarget(path@),
            Step::CreateParents(path) => StepView::CreateParents(path@),
            Step::CreateFile(path) => StepView::CreateFile(path@),
            Step::WriteContents(path, bytes) => StepView::WriteContents(path@, bytes@),
            Step::SetPermissions(path, mode) => StepView::SetPermissions(path@, *mode),
            Step::Finished => StepView::Finished,
        }
    }
}

/// How the last step went. After a probe, `Found` says that something is there and any
/// other reply that nothing is. After any other step, `Failed` says that it failed,
/// with the message of the failure, and any other reply that it was done.
pub enum Reply {
    Done,
    Failed(String),
    Found,
    Absent,
}

/// Where the work on the current entry stands: which step the caller was given last.
#[derive(Clone, Copy, PartialEq, Eq, Structural)]
pub enum Phase {
    /// No step is out; the entry at the index is the next to begin.
    Idle,
    AwaitDirectory,
    AwaitProbe,
    AwaitParents,
    AwaitCreate,
    AwaitWrite,
    /// The mode is the one that the caller was asked to set.
    AwaitPermissions(u32),
    Finished,
}

/// A member whose name ends in a separator is a directory. So is one whose name holds no
/// plain name at all: its path is the destination itself.
pub open spec fn is_directory_name(name: Seq<char>) -> bool {
    names_directory(name) || sanitized(name).len() == 0
}

/// The mode to set on what an entry was unpacked to. An entry whose name holds no plain
/// name stands for the destination itself, whose mode is left alone.
pub open spec fn mode_to_set(entry: EntryView) -> Option<u32> {
    if sanitized(entry.name).len() == 0 {
        None
    } else {
        entry.unix_mode
    }
}

/// The state of an unpacking, as mathematical values.
pub struct UnpackingView {
    pub entries: Seq<EntryView>,
    pub root: Seq<char>,
    pub index: nat,
    pub phase: Phase,
}

impl UnpackingView {
    /// The entry that is worked on.
    pub open spec fn entry(self) -> EntryView {
        self.entries[self.index as int]
    }

    /// Where the entry that is worked on goes.
    pub open spec fn out_path(self) -> Seq<char> {
        safe_path(self.root, self.entry().name)
    }

    /// The directory that the entry that is worked on goes into.
    pub open spec fn out_directory(self) -> Seq<char> {
        parent_of(self.out_path())
    }

    pub open spec fn at(self, phase: Phase) -> UnpackingView {
        UnpackingView { entries: self.entries, root: self.root, index: self.index, phase }
    }

    /// The work ends with a failure.
    pub open spec fn fail(self, kind: ErrorKindView) -> (UnpackingView, Result<
        StepView,
        ErrorKindView,
    >) {
        (self.at(Phase::Finished), Err(kind))
    }

    /// The caller is given a step for the entry that is worked on.
    pub open spec fn ask(self, phase: Phase, step: StepView) -> (UnpackingView, Result<
        StepView,
        ErrorKindView,
    >) {
        (self.at(phase), Ok(step))
    }

    /// The work on the entry at the index begins, or ends where no entry is left.
    pub open spec fn begin(self) -> (UnpackingView, Result<StepView, ErrorKindView>) {
        if self.index >= self.entries.len() {
            self.ask(Phase::Finished, StepView::Finished)
        } else {
            match self.entry().lost {
                Some(text) => self.fail(ErrorKindView::IoError(text)),
                None => if is_directory_name(self.entry().name) {
                    self.ask(Phase::AwaitDirectory, StepView::CreateDirectory(self.out_path()))
                } else {
                    self.ask(Phase::AwaitProbe, StepView::ProbeTarget(self.out_path()))
                },
            }
        }
    }

    /// The work goes on with the entry behind the current one.
    pub open spec fn begin_next(self) -> (UnpackingView, Result<StepView, ErrorKindView>) {
        UnpackingView {
            entries: self.entries,
            root: self.root,
            index: self.index + 1,
            phase: Phase::Idle,
        }.begin()
    }

    /// The entry is on disk: its permissions are set where it has any, else the next
    /// entry begins.
    pub open spec fn settle(self) -> (UnpackingView, Result<StepView, ErrorKindView>) {
        match mode_to_set(self.entry()) {
            Some(mode) => self.ask(
                Phase::AwaitPermissions(mode),
                StepView::SetPermissions(self.out_path(), mode),
            ),
            None => self.begin_next(),
        }
    }

    /// The state after a reply, and the next step or the failure that ends the work.
    pub open spec fn step(self, reply: Reply) -> (UnpackingView, Result<StepView, ErrorKindView>) {
        match self.phase {
            Phase::Idle => self.begin(),
            Phase::AwaitDirectory => match reply {
                Reply::Failed(_) => self.fail(ErrorKindView::CannotCreateDirectory(self.out_path())),
                _ => self.settle(),
            },
            Phase::AwaitProbe => match reply {
                Reply::Found => self.fail(ErrorKindView::TargetAlreadyExists(self.out_path())),
                _ => self.ask(Phase::AwaitParents, StepView::CreateParents(self.out_directory())),
            },
            Phase::AwaitParents => match reply {
                Reply::Failed(_) => self.fail(
                    ErrorKindView::CannotCreateDirectory(self.out_directory()),
                ),
                _ => self.ask(Phase::AwaitCreate, StepView::CreateFile(self.out_path())),
            },
            Phase::AwaitCreate => match reply {
                Reply::Failed(_) => self.fail(ErrorKindView::CannotCreateFile(self.out_path())),
                _ => match self.entry().content {
                    Err(text) => self.fail(ErrorKindView::IoError(text)),
                    Ok(bytes) => self.ask(
                        Phase::AwaitWrite,
                        StepView::WriteContents(self.out_path(), bytes),
                    ),
                },
            },
            Phase::AwaitWrite => match reply {
                Reply::Failed(text) => self.fail(ErrorKindView::IoError(text@)),
                _ => self.settle(),
            },
            Phase::AwaitPermissions(mode) => match reply {
                Reply::Failed(_) => self.fail(
                    ErrorKindView::CannotSetPermissions(mode, self.out_path()),
                ),
                _ => self.begin_next(),
            },
            Phase::Finished => self.ask(Phase::Finished, StepView::Finished),
        }
    }
}

/// An unpacking under way: the archive, the destination, and how far the work has come.
pub struct Unpacking {
    archive: ByteArchive,
    unpack_target: String,
    index: usize,
    phase: Phase,
    out_path: String,
    unix_mode: Option<u32>,
}

impl View for Unpacking {
    type V = UnpackingView;

    closed spec fn view(&self) -> UnpackingView {
        UnpackingView {
            entries: self.archive@,
            root: self.unpack_target@,
            index: self.index as nat,
            phase: self.phase,
        }
    }
}

/// Whether the name holds no plain name, so that the entry stands for the destination.
fn names_destination(entry: &Entry) -> (empty: bool)
    ensures
        empty == (sanitized(entry.name@).len() == 0),
{
    sanitize(entry.name.as_str()).as_str().is_empty()
}

impl Unpacking {
    /// While a step is out, the entry it belongs to opens, and the path and mode kept
    /// here are that entry's.
    #[verifier::type_invariant]
    spec fn well_formed(self) -> bool {
        &&& self.index <= self.archive@.len()
        &&& self.phase != Phase::Idle && self.phase != Phase::Finished ==> {
            &&& self.index < self.archive@.len()
            &&& self.archive@[self.index as int].lost is None
            &&& self.out_path@ == safe_path(self.unpack_target@, self.archive@[self.index as int].name)
            &&& self.unix_mode == mode_to_set(self.archive@[self.index as int])
        }
    }

    /// An unpacking of `archive` below `unpack_target` that has not begun.
    pub fn new(archive: ByteArchive, unpack_target: String) -> (unpacking: Unpacking)
        ensures
            unpacking@ == (UnpackingView {
                entries: archive@,
                root: unpack_target@,
                index: 0,
                phase: Phase::Idle,
            }),
    {
        Unpacking {
            archive,
            unpack_target,
            index: 0,
            phase: Phase::Idle,
            out_path: String::new(),
            unix_mode: None,
        }
    }

    fn fail(self, kind: ErrorKind) -> (next: Result<(Unpacking, Step), Error>)
        ensures
            next matches Err(error) && error@ == kind@,
    {
        Err(Error::from(kind))
    }

    /// Begins the entry at `index`.
    fn begin(archive: ByteArchive, unpack_target: String, index: usize) -> (next: Result<
        (Unpacking, Step),
        Error,
    >)
        requires
            index <= archive@.len(),
        ensures
            ({
                let before = UnpackingView {
                    entries: archive@,
                    root: unpack_target@,
                    index: index as nat,
                    phase: Phase::Idle,
                };
                match next {
                    Ok((unpacking, step)) => before.begin() == (unpacking@, Ok::<
                        StepView,
                        ErrorKindView,
                    >(step@)),
                    Err(error) => before.begin().1 == Err::<StepView, ErrorKindView>(error@),
                }
            }),
    {
        let mut archive = archive;
        if index >= archive.len() {
            let unpacking = Unpacking {
                archive,
                unpack_target,
                index,
                phase: Phase::Finished,
                out_path: String::new(),
                unix_mode: None,
            };
            return Ok((unpacking, Step::Finished));
        }
        let entry = match archive.read_entry_by_index(index) {
            Ok(entry) => entry,
            Err(error) => {
                return Err(error);
            },
        };
        let out_path = to_file_path(unpack_target.as_str(), entry.name.as_str());
        let destination = names_destination(&entry);
        let directory = destination || entry.is_directory();
        let unpacking = Unpacking {
            archive,
            unpack_target,
            index,
            phase: if directory {
                Phase::AwaitDirectory
            } else {
                Phase::AwaitProbe
            },
            out_path: out_path.clone(),
            unix_mode: if destination {
                None
            } else {
                entry.unix_mode
            },
        };
        if directory {
            Ok((unpacking, Step::CreateDirectory(out_path)))
        } else {
            Ok((unpacking, Step::ProbeTarget(out_path)))
        }
    }

    /// Leaves the current entry and begins the one behind it.
    fn begin_next(self) -> (next: Result<(Unpacking, Step), Error>)
        requires
            self@.phase != Phase::Idle,
            self@.phase != Phase::Finished,
        ensures
            match next {
                Ok((unpacking, step)) => self@.begin_next() == (unpacking@, Ok::<
                    StepView,
                    ErrorKindView,
                >(step@)),
                Err(error) => self@.begin_next().1 == Err::<StepView, ErrorKindView>(error@),
            },
    {
        proof {
            use_type_invariant(&self);
        }
        let Unpacking { archive, unpack_target, index, .. } = self;
        let count: usize = archive.len();
        let following: usize = if index < count {
            index + 1
        } else {
            count
        };
        Unpacking::begin(archive, unpack_target, following)
    }

    /// The current entry is on disk: asks for its permissions to be set, or goes on.
    fn settle(self) -> (next: Result<(Unpacking, Step), Error>)
        requires
            self@.phase != Phase::Idle,
            self@.phase != Phase::Finished,
        ensures
            match next {
                Ok((unpacking, step)) => self@.settle() == (unpacking@, Ok::<
                    StepView,
                    ErrorKindView,
                >(step@)),
                Err(error) => self@.settle().1 == Err::<StepView, ErrorKindView>(error@),
            },
    {
        proof {
            use_type_invariant(&self);
        }
        match self.unix_mode {
            Some(mode) => {
                let path = self.out_path.clone();
                Ok((self.at(Phase::AwaitPermissions(mode)), Step::SetPermissions(path, mode)))
            },
            None => self.begin_next(),
        }
    }

    /// The same unpacking in another phase of the same entry.
    fn at(self, phase: Phase) -> (unpacking: Unpacking)
        requires
            self@.phase != Phase::Idle,
            self@.phase != Phase::Finished,
        ensures
            unpacking@ == self@.at(phase),
            unpacking.out_path == self.out_path,
            unpacking.unix_mode == self.unix_mode,
    {
        proof {
            use_type_invariant(&self);
        }
        let Unpacking { archive, unpack_target, index, out_path, unix_mode, .. } = self;
        Unpacking { archive, unpack_target, index, phase, out_path, unix_mode }
    }

    /// Takes the reply on the last step and gives the next one, or the failure that ends
    /// the work. The first call begins the work; what it is told does not matter.
    pub fn advance(self, reply: Reply) -> (next: Result<(Unpacking, Step), Error>)
        ensures
            match next {
                Ok((unpacking, step)) => self@.step(reply) == (unpacking@, Ok::<
                    StepView,
                    ErrorKindView,
                >(step@)),
                Err(error) => self@.step(reply).1 == Err::<StepView, ErrorKindView>(error@),
            },
    {
        proof {
            use_type_invariant(&self);
        }
        match self.phase {
            Phase::Idle => {
                let Unpacking { archive, unpack_target, index, .. } = self;
                Unpacking::begin(archive, unpack_target, index)
            },
            Phase::AwaitDirectory => match reply {
                Reply::Failed(_) => {
                    let path = self.out_path.clone();
                    self.fail(ErrorKind::CannotCreateDirectory(path))
                },
                _ => self.settle(),
            },
            Phase::AwaitProbe => match reply {
                Reply::Found => {
                    let path = self.out_path.clone();
                    self.fail(ErrorKind::TargetAlreadyExists(path))
                },
                _ => {
                    let directory = parent(self.out_path.as_str());
                    Ok((self.at(Phase::AwaitParents), Step::CreateParents(directory)))
                },
            },
            Phase::AwaitParents => match reply {
                Reply::Failed(_) => {
                    let directory = parent(self.out_path.as_str());
                    self.fail(ErrorKind::CannotCreateDirectory(directory))
                },
                _ => {
                    let path = self.out_path.clone();
                    Ok((self.at(Phase::AwaitCreate), Step::CreateFile(path)))
                },
            },
            Phase::AwaitCreate => match reply {
                Reply::Failed(_) => {
                    let path = self.out_path.clone();
                    self.fail(ErrorKind::CannotCreateFile(path))
                },
                _ => {
                    let Unpacking { archive, unpack_target, index, out_path, unix_mode, .. } = self;
                    let mut archive = archive;
                    match archive.read_content_by_index(index) {
                        Err(error) => Err(error),
                        Ok(bytes) => {
                            let path = out_path.clone();
                            let unpacking = Unpacking {
                                archive,
                                unpack_target,
                                index,
                                phase: Phase::AwaitWrite,
                                out_path,
                                unix_mode,
                            };
                            Ok((unpacking, Step::WriteContents(path, bytes)))
                        },
                    }
                },
            },
            Phase::AwaitWrite => match reply {
                Reply::Failed(text) => self.fail(ErrorKind::IoError(text)),
                _ => self.settle(),
            },
            Phase::AwaitPermissions(mode) => match reply {
                Reply::Failed(_) => {
                    let path = self.out_path.clone();
                    self.fail(ErrorKind::CannotSetPermissions(mode, path))
                },
                _ => self.begin_next(),
            },
            Phase::Finished => Ok((self, Step::Finished)),
        }
    }
}

/// No overwriting: where the caller replies that something is at the path of a file
/// entry, the work ends there and the failure names that path.
pub proof fn lemma_found_target_is_refused(state: UnpackingView)
    requires
        state.phase == Phase::AwaitProbe,
    ensures
        state.step(Reply::Found) == state.fail(
            ErrorKindView::TargetAlreadyExists(state.out_path()),
        ),
{
}

/// A file entry begins with the probe of its path, and where the probe finds something,
/// nothing else is asked for the entry: nothing of it is created or written.
pub proof fn lemma_file_entry_begins_with_probe(state: UnpackingView, first: Reply)
    requires
        state.phase == Phase::Idle,
        state.index < state.entries.len(),
        state.entry().lost is None,
        !is_directory_name(state.entry().name),
    ensures
        state.step(first) == state.ask(Phase::AwaitProbe, StepView::ProbeTarget(state.out_path())),
        state.step(first).0.step(Reply::Found) == state.fail(
            ErrorKindView::TargetAlreadyExists(state.out_path()),
        ),
{
}

/// The steps that put a file on disk come one after the other and only after a probe of
/// the same path that found nothing: the ancestors after the probe, the file after the
/// ancestors, the content after the file.
pub proof fn lemma_file_steps_follow_probe(state: UnpackingView, reply: Reply)
    ensures
        state.step(reply).1 matches Ok(StepView::CreateParents(path)) ==> state.phase
            == Phase::AwaitProbe && !(reply is Found) && path == state.out_directory(),
        state.step(reply).1 matches Ok(StepView::CreateFile(path)) ==> state.phase
            == Phase::AwaitParents && !(reply is Failed) && path == state.out_path(),
        state.step(reply).1 matches Ok(StepView::WriteContents(path, bytes)) ==> state.phase
            == Phase::AwaitCreate && !(reply is Failed) && path == state.out_path()
            && state.entry().content == Ok::<Seq<u8>, Seq<char>>(bytes),
{
}

/// Entries are worked on in the order of the archive: a reply leaves the work at the
/// same entry or moves it to the next one, and changes neither archive nor destination.
pub proof fn lemma_entries_in_order(state: UnpackingView, reply: Reply)
    ensures
        state.step(reply).0.index == state.index || state.step(reply).0.index == state.index + 1,
        state.step(reply).0.entries == state.entries,
        state.step(reply).0.root == state.root,
{
}

} // verus!
