//! Whole runs of an unpacking, on a disk that exists only in the proofs.
//!
//! [`Unpacking`](crate::unpack::Unpacking) decides one step at a time. This module says
//! what all the steps of a run amount to when the caller does as it is told and nothing
//! on the disk fails. The disk is a model: the set of paths at which something is, and
//! the bytes of the files that were written. A directory is at a path once that very
//! path was made; the model does not follow ancestors further up.
use crate::archive::EntryView;
use crate::error::ErrorKindView;
use crate::path::{parent_of, safe_path};
use crate::unpack::{is_directory_name, Phase, Reply, StepView, UnpackingView};
use vstd::prelude::*;

verus! {

/// The disk of the model.
pub struct Disk {
    /// The paths at which something is, a file or a directory.
    pub occupied: Set<Seq<char>>,
    /// What was written, by path.
    pub files: Map<Seq<char>, Seq<u8>>,
}

/// How a run ends.
pub enum End {
    /// The steps that were allowed did not suffice.
    Unfinished,
    /// Every entry was unpacked.
    Through,
    /// The run ended with a failure.
    Failed(ErrorKindView),
}

/// What a caller that does as it is told replies to a step.
pub open spec fn reply_to(disk: Disk, step: StepView) -> Reply {
    match step {
        StepView::ProbeTarget(path) => if disk.occupied.contains(path) {
            Reply::Found
        } else {
            Reply::Absent
        },
        _ => Reply::Done,
    }
}

/// The disk after a step was carried out.
pub open spec fn carried_out(disk: Disk, step: StepView) -> Disk {
    match step {
        StepView::CreateDirectory(path) => Disk {
            occupied: disk.occupied.insert(path),
            files: disk.files,
        },
        StepView::CreateParents(directory) => Disk {
            occupied: disk.occupied.insert(directory),
            files: disk.files,
        },
        StepView::CreateFile(path) => Disk { occupied: disk.occupied.insert(path), files: disk.files },
        StepView::WriteContents(path, bytes) => Disk {
            occupied: disk.occupied,
            files: disk.files.insert(path, bytes),
        },
        _ => disk,
    }
}

/// A run of at most `turns` steps: how it ends, if it does, and what it leaves on the
/// disk.
pub open spec fn run(state: UnpackingView, reply: Reply, disk: Disk, turns: nat) -> (End, Disk)
    decreases turns,
{
    match state.step(reply).1 {
        Err(kind) => (End::Failed(kind), disk),
        Ok(StepView::Finished) => (End::Through, disk),
        Ok(step) => if turns == 0 {
            (End::Unfinished, disk)
        } else {
            run(state.step(reply).0, reply_to(disk, step), carried_out(disk, step), (turns - 1) as nat)
        },
    }
}

/// What unpacking one entry amounts to: the failure, if it fails, and the disk after it.
pub open spec fn entry_unpacked(entry: EntryView, root: Seq<char>, disk: Disk) -> (
    Option<ErrorKindView>,
    Disk,
) {
    let path = safe_path(root, entry.name);
    if entry.lost is Some {
        (Some(ErrorKindView::IoError(entry.lost->0)), disk)
    } else if is_directory_name(entry.name) {
        (None, Disk { occupied: disk.occupied.insert(path), files: disk.files })
    } else if disk.occupied.contains(path) {
        (Some(ErrorKindView::TargetAlreadyExists(path)), disk)
    } else {
        let occupied = disk.occupied.insert(parent_of(path)).insert(path);
        match entry.content {
            Err(text) => (Some(ErrorKindView::IoError(text)), Disk { occupied, files: disk.files }),
            Ok(bytes) => (None, Disk { occupied, files: disk.files.insert(path, bytes) }),
        }
    }
}

/// What unpacking the entries from `index` on amounts to, in the order of the archive:
/// the first failure ends it.
pub open spec fn unpacked_from(entries: Seq<EntryView>, root: Seq<char>, index: nat, disk: Disk) -> (
    End,
    Disk,
)
    decreases entries.len() - index,
{
    if index >= entries.len() {
        (End::Through, disk)
    } else {
        match entry_unpacked(entries[index as int], root, disk).0 {
            Some(kind) => (End::Failed(kind), entry_unpacked(entries[index as int], root, disk).1),
            None => unpacked_from(
                entries,
                root,
                index + 1,
                entry_unpacked(entries[index as int], root, disk).1,
            ),
        }
    }
}

/// The state in which the entry at `index` is the next to begin.
pub open spec fn ready(entries: Seq<EntryView>, root: Seq<char>, index: nat) -> UnpackingView {
    UnpackingView { entries, root, index, phase: Phase::Idle }
}

/// A run in which the caller does as it is told amounts to unpacking entry by entry. It
/// takes at most five steps for an entry.
pub proof fn lemma_run_unpacks_entry_by_entry(
    entries: Seq<EntryView>,
    root: Seq<char>,
    index: nat,
    reply: Reply,
    disk: Disk,
    turns: nat,
)
    requires
        index <= entries.len(),
        turns >= 5 * (entries.len() - index),
    ensures
        run(ready(entries, root, index), reply, disk, turns) == unpacked_from(
            entries,
            root,
            index,
            disk,
        ),
    decreases entries.len() - index,
{
    reveal_with_fuel(run, 6);
    if index < entries.len() {
        let entry = entries[index as int];
        let path = safe_path(root, entry.name);
        assert(ready(entries, root, index).entry() == entry);
        if entry.lost is None {
            // The run goes on with the next entry after the last step for this one: without
            // a mode that is one step earlier than with one.
            if is_directory_name(entry.name) {
                let made = Disk { occupied: disk.occupied.insert(path), files: disk.files };
                lemma_run_unpacks_entry_by_entry(entries, root, index + 1, Reply::Done, made, (turns - 1) as nat);
                lemma_run_unpacks_entry_by_entry(entries, root, index + 1, Reply::Done, made, (turns - 2) as nat);
            } else if !disk.occupied.contains(path) {
                let occupied = disk.occupied.insert(parent_of(path)).insert(path);
                match entry.content {
                    Err(_) => {},
                    Ok(bytes) => {
                        let made = Disk { occupied, files: disk.files.insert(path, bytes) };
                        lemma_run_unpacks_entry_by_entry(entries, root, index + 1, Reply::Done, made, (turns - 4) as nat);
                        lemma_run_unpacks_entry_by_entry(entries, root, index + 1, Reply::Done, made, (turns - 5) as nat);
                    },
                }
            }
        }
    }
}

/// Where the entry at `index` goes.
pub open spec fn path_of(entries: Seq<EntryView>, root: Seq<char>, index: int) -> Seq<char> {
    safe_path(root, entries[index].name)
}

/// The bytes that were written at a path, if any were.
pub open spec fn written(disk: Disk, path: Seq<char>) -> Option<Seq<u8>> {
    if disk.files.dom().contains(path) {
        Some(disk.files[path])
    } else {
        None
    }
}

/// Every path that a file entry from `index` on goes to is free when the turn of the
/// entry comes: nothing is there on the disk, no entry before it goes to the same path,
/// and no file before it lies in a directory of that path.
pub open spec fn paths_are_free(entries: Seq<EntryView>, root: Seq<char>, index: nat, disk: Disk) -> bool {
    forall|file: int|
        index <= file < entries.len() && !is_directory_name((#[trigger] entries[file]).name) ==> {
            &&& !disk.occupied.contains(path_of(entries, root, file))
            &&& forall|earlier: int|
                index <= earlier < file ==> {
                    &&& path_of(entries, root, earlier) != path_of(entries, root, file)
                    &&& !is_directory_name((#[trigger] entries[earlier]).name) ==> parent_of(
                        path_of(entries, root, earlier),
                    ) != path_of(entries, root, file)
                }
        }
}

proof fn lemma_unpacked_entries_are_on_disk(
    entries: Seq<EntryView>,
    root: Seq<char>,
    index: nat,
    disk: Disk,
)
    requires
        index <= entries.len(),
        unpacked_from(entries, root, index, disk).0 is Through,
    ensures
        ({
            let after = unpacked_from(entries, root, index, disk).1;
            &&& forall|path: Seq<char>| #[trigger]
                disk.occupied.contains(path) ==> after.occupied.contains(path) && written(
                    after,
                    path,
                ) == written(disk, path)
            &&& forall|entry: int|
                index <= entry < entries.len() ==> {
                    &&& (#[trigger] entries[entry]).lost is None
                    &&& after.occupied.contains(path_of(entries, root, entry))
                    &&& !is_directory_name(entries[entry].name) ==> entries[entry].content is Ok
                        && written(after, path_of(entries, root, entry)) == Some(
                        entries[entry].content->Ok_0,
                    )
                }
        }),
    decreases entries.len() - index,
{
    if index < entries.len() {
        let made = entry_unpacked(entries[index as int], root, disk).1;
        lemma_unpacked_entries_are_on_disk(entries, root, index + 1, made);
        assert(made.occupied.contains(path_of(entries, root, index as int)));
        assert forall|other: Seq<char>| #[trigger] disk.occupied.contains(other) implies written(
            made,
            other,
        ) == written(disk, other) && made.occupied.contains(other) by {}
    }
}

proof fn lemma_occupied_file_is_refused(
    entries: Seq<EntryView>,
    root: Seq<char>,
    index: nat,
    target: nat,
    disk: Disk,
)
    requires
        index <= target < entries.len(),
        forall|earlier: int|
            index <= earlier < target ==> (#[trigger] entries[earlier]).lost is None
                && is_directory_name(entries[earlier].name),
        entries[target as int].lost is None,
        !is_directory_name(entries[target as int].name),
        disk.occupied.contains(path_of(entries, root, target as int)),
    ensures
        unpacked_from(entries, root, index, disk).0 == End::Failed(
            ErrorKindView::TargetAlreadyExists(path_of(entries, root, target as int)),
        ),
        unpacked_from(entries, root, index, disk).1.files == disk.files,
    decreases target - index,
{
    if index < target {
        assert(entries[index as int].lost is None && is_directory_name(entries[index as int].name));
        let made = entry_unpacked(entries[index as int], root, disk).1;
        lemma_occupied_file_is_refused(entries, root, index + 1, target, made);
    }
}

proof fn lemma_free_paths_are_unpacked(entries: Seq<EntryView>, root: Seq<char>, index: nat, disk: Disk)
    requires
        index <= entries.len(),
        forall|entry: int|
            index <= entry < entries.len() ==> (#[trigger] entries[entry]).lost is None && (
            !is_directory_name(entries[entry].name) ==> entries[entry].content is Ok),
        paths_are_free(entries, root, index, disk),
    ensures
        unpacked_from(entries, root, index, disk).0 is Through,
    decreases entries.len() - index,
{
    if index < entries.len() {
        let entry = entries[index as int];
        let path = path_of(entries, root, index as int);
        assert(entry.lost is None);
        let made = entry_unpacked(entry, root, disk).1;
        assert forall|file: int|
            index + 1 <= file < entries.len() && !is_directory_name(
                (#[trigger] entries[file]).name,
            ) implies !made.occupied.contains(path_of(entries, root, file)) by {
            assert(!disk.occupied.contains(path_of(entries, root, file)));
            assert(path_of(entries, root, index as int) != path_of(entries, root, file));
            if !is_directory_name(entries[index as int].name) {
                assert(parent_of(path_of(entries, root, index as int)) != path_of(entries, root, file));
            }
        }
        assert(paths_are_free(entries, root, index + 1, made));
        lemma_free_paths_are_unpacked(entries, root, index + 1, made);
    }
}

/// A run into free paths goes through. Afterwards the bytes of every file entry are at
/// its path, something is at the path of every entry, and what was on the disk before is
/// as it was.
pub proof fn lemma_run_into_free_paths_goes_through(
    entries: Seq<EntryView>,
    root: Seq<char>,
    first: Reply,
    disk: Disk,
)
    requires
        forall|entry: int|
            0 <= entry < entries.len() ==> (#[trigger] entries[entry]).lost is None && (
            !is_directory_name(entries[entry].name) ==> entries[entry].content is Ok),
        paths_are_free(entries, root, 0, disk),
    ensures
        ({
            let (end, after) = run(ready(entries, root, 0), first, disk, 5 * entries.len());
            &&& end == End::Through
            &&& forall|path: Seq<char>| #[trigger]
                disk.occupied.contains(path) ==> after.occupied.contains(path) && written(
                    after,
                    path,
                ) == written(disk, path)
            &&& forall|entry: int|
                0 <= entry < entries.len() ==> {
                    &&& after.occupied.contains(path_of(entries, root, entry))
                    &&& !is_directory_name((#[trigger] entries[entry]).name) ==> written(
                        after,
                        path_of(entries, root, entry),
                    ) == Some(entries[entry].content->Ok_0)
                }
        }),
{
    lemma_run_unpacks_entry_by_entry(entries, root, 0, first, disk, 5 * entries.len());
    lemma_free_paths_are_unpacked(entries, root, 0, disk);
    lemma_unpacked_entries_are_on_disk(entries, root, 0, disk);
}

/// No overwriting: a run onto a disk where something is at the path of the first file
/// entry ends there with that path, and writes nothing.
pub proof fn lemma_run_onto_occupied_path_is_refused(
    entries: Seq<EntryView>,
    root: Seq<char>,
    first: Reply,
    disk: Disk,
    target: nat,
)
    requires
        target < entries.len(),
        forall|earlier: int|
            0 <= earlier < target ==> (#[trigger] entries[earlier]).lost is None
                && is_directory_name(entries[earlier].name),
        entries[target as int].lost is None,
        !is_directory_name(entries[target as int].name),
        disk.occupied.contains(path_of(entries, root, target as int)),
    ensures
        run(ready(entries, root, 0), first, disk, 5 * entries.len()).0 == End::Failed(
            ErrorKindView::TargetAlreadyExists(path_of(entries, root, target as int)),
        ),
        run(ready(entries, root, 0), first, disk, 5 * entries.len()).1.files == disk.files,
{
    lemma_run_unpacks_entry_by_entry(entries, root, 0, first, disk, 5 * entries.len());
    lemma_occupied_file_is_refused(entries, root, 0, target, disk);
}

proof fn lemma_unpacked_in_two(
    entries: Seq<EntryView>,
    root: Seq<char>,
    index: nat,
    upto: nat,
    disk: Disk,
)
    requires
        index <= upto <= entries.len(),
        unpacked_from(entries.take(upto as int), root, index, disk).0 is Through,
    ensures
        unpacked_from(entries, root, index, disk) == unpacked_from(
            entries,
            root,
            upto,
            unpacked_from(entries.take(upto as int), root, index, disk).1,
        ),
    decreases upto - index,
{
    if index < upto {
        assert(entries.take(upto as int)[index as int] == entries[index as int]);
        let made = entry_unpacked(entries[index as int], root, disk).1;
        lemma_unpacked_in_two(entries, root, index + 1, upto, made);
    }
}

/// No overwriting, wherever the file lies in the archive: where the entries in front of a
/// file entry unpack and something was on the disk at the path of that entry, the run
/// ends at that entry with its path. Neither that entry nor any entry behind it leaves a
/// trace, and what was at the path is as it was.
pub proof fn lemma_run_stops_at_occupied_path(
    entries: Seq<EntryView>,
    root: Seq<char>,
    first: Reply,
    disk: Disk,
    target: nat,
)
    requires
        target < entries.len(),
        run(ready(entries.take(target as int), root, 0), first, disk, 5 * target).0 == End::Through,
        entries[target as int].lost is None,
        !is_directory_name(entries[target as int].name),
        disk.occupied.contains(path_of(entries, root, target as int)),
    ensures
        run(ready(entries, root, 0), first, disk, 5 * entries.len()).0 == End::Failed(
            ErrorKindView::TargetAlreadyExists(path_of(entries, root, target as int)),
        ),
        run(ready(entries, root, 0), first, disk, 5 * entries.len()).1 == run(
            ready(entries.take(target as int), root, 0),
            first,
            disk,
            5 * target,
        ).1,
        written(
            run(ready(entries, root, 0), first, disk, 5 * entries.len()).1,
            path_of(entries, root, target as int),
        ) == written(disk, path_of(entries, root, target as int)),
{
    let front = entries.take(target as int);
    lemma_run_unpacks_entry_by_entry(entries, root, 0, first, disk, 5 * entries.len());
    lemma_run_unpacks_entry_by_entry(front, root, 0, first, disk, 5 * target);
    lemma_unpacked_entries_are_on_disk(front, root, 0, disk);
    lemma_unpacked_in_two(entries, root, 0, target, disk);
    let made = unpacked_from(front, root, 0, disk).1;
    assert(made.occupied.contains(path_of(entries, root, target as int)));
}

/// Twice in a row: after a run that went through, a second run onto what the first one
/// left ends at the first file entry of the archive, with the path of that entry, and
/// writes nothing.
pub proof fn lemma_second_run_is_refused(
    entries: Seq<EntryView>,
    root: Seq<char>,
    first: Reply,
    disk: Disk,
    target: nat,
)
    requires
        run(ready(entries, root, 0), first, disk, 5 * entries.len()).0 == End::Through,
        target < entries.len(),
        !is_directory_name(entries[target as int].name),
        forall|earlier: int| 0 <= earlier < target ==> is_directory_name((#[trigger] entries[earlier]).name),
    ensures
        ({
            let left = run(ready(entries, root, 0), first, disk, 5 * entries.len()).1;
            let again = run(ready(entries, root, 0), first, left, 5 * entries.len());
            &&& again.0 == End::Failed(
                ErrorKindView::TargetAlreadyExists(path_of(entries, root, target as int)),
            )
            &&& again.1.files == left.files
        }),
{
    lemma_run_unpacks_entry_by_entry(entries, root, 0, first, disk, 5 * entries.len());
    lemma_unpacked_entries_are_on_disk(entries, root, 0, disk);
    let left = unpacked_from(entries, root, 0, disk).1;
    assert(entries[target as int].lost is None);
    lemma_run_onto_occupied_path_is_refused(entries, root, first, left, target);
}

} // verus!
