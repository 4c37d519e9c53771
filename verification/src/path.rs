//! Paths as text: how a member name becomes a path below the destination.
//!
//! A member name is not trusted. It is cut into segments at every separator, `/` or `\`,
//! and of its segments only the plain names are kept: no empty segment, no `.`, no `..`,
//! no drive marker such as `C:`. The names that are kept are written behind the
//! destination with `/` between them. So whatever the name was, and whichever of the two
//! separators a platform reads, the path made from it lies below the destination.
use crate::text::last_char;
use vstd::prelude::*;

verus! {

/// The characters that separate the segments of a member name.
pub open spec fn is_separator(c: char) -> bool {
    c == '/' || c == '\\'
}

/// The segments of a name: the stretches between separators, in order. A name without a
/// separator is one segment; one that ends in a separator has an empty last segment.
pub open spec fn segments(path: Seq<char>) -> Seq<Seq<char>>
    decreases path.len(),
{
    if path.len() == 0 {
        seq![Seq::empty()]
    } else {
        let before = segments(path.drop_last());
        if is_separator(path.last()) {
            before.push(Seq::empty())
        } else {
            before.drop_last().push(before.last().push(path.last()))
        }
    }
}

pub open spec fn is_letter(c: char) -> bool {
    ('a' <= c && c <= 'z') || ('A' <= c && c <= 'Z')
}

/// A letter and a colon: the name of a drive.
pub open spec fn is_drive_marker(segment: Seq<char>) -> bool {
    segment.len() == 2 && is_letter(segment[0]) && segment[1] == ':'
}

/// A segment that names something: not empty, not the current directory, not the parent,
/// not a drive.
pub open spec fn is_normal(segment: Seq<char>) -> bool {
    segment.len() > 0 && segment != seq!['.'] && segment != seq!['.', '.'] && !is_drive_marker(
        segment,
    )
}

/// A normal segment that holds no separator: the name of one file or directory.
pub open spec fn is_plain_name(segment: Seq<char>) -> bool {
    is_normal(segment) && forall|i: int| 0 <= i < segment.len() ==> !is_separator(#[trigger] segment[i])
}

/// The normal ones among the given segments, in their order.
pub open spec fn keep_normal(segments: Seq<Seq<char>>) -> Seq<Seq<char>> {
    segments.filter(|segment: Seq<char>| is_normal(segment))
}

/// The segments written out with `/` between neighbours.
pub open spec fn joined(segments: Seq<Seq<char>>) -> Seq<char>
    decreases segments.len(),
{
    if segments.len() == 0 {
        Seq::empty()
    } else if segments.len() == 1 {
        segments[0]
    } else {
        joined(segments.drop_last()) + seq!['/'] + segments.last()
    }
}

/// A member name with everything but its plain names dropped.
pub open spec fn sanitized(name: Seq<char>) -> Seq<char> {
    joined(keep_normal(segments(name)))
}

/// A directory path in the form that a name can be appended to.
pub open spec fn as_directory(base: Seq<char>) -> Seq<char> {
    if base.len() == 0 || base.last() == '/' {
        base
    } else {
        base.push('/')
    }
}

/// The path below `root` at which the member called `name` is written.
pub open spec fn safe_path(root: Seq<char>, name: Seq<char>) -> Seq<char> {
    as_directory(root) + sanitized(name)
}

/// The text in front of the last `/` of a path; nothing where the path holds none.
pub open spec fn before_last_slash(path: Seq<char>) -> Seq<char>
    decreases path.len(),
{
    if path.len() == 0 {
        Seq::empty()
    } else if path.last() == '/' {
        path.drop_last()
    } else {
        before_last_slash(path.drop_last())
    }
}

/// The directory that a path lies in: the text in front of its last `/`, and `/` itself
/// for a path directly below it.
pub open spec fn parent_of(path: Seq<char>) -> Seq<char> {
    if before_last_slash(path).len() == 0 && path.len() > 0 && path[0] == '/' {
        seq!['/']
    } else {
        before_last_slash(path)
    }
}

proof fn lemma_segments_nonempty(path: Seq<char>)
    ensures
        segments(path).len() >= 1,
    decreases path.len(),
{
    if path.len() > 0 {
        lemma_segments_nonempty(path.drop_last());
    }
}

proof fn lemma_segments_push(path: Seq<char>, c: char)
    ensures
        segments(path).len() >= 1,
        is_separator(c) ==> segments(path.push(c)) == segments(path).push(Seq::empty()),
        !is_separator(c) ==> segments(path.push(c)) == segments(path).drop_last().push(
            segments(path).last().push(c),
        ),
{
    lemma_segments_nonempty(path);
    assert(path.push(c).drop_last() == path);
}

proof fn lemma_keep_normal_push(segments: Seq<Seq<char>>, segment: Seq<char>)
    ensures
        keep_normal(segments.push(segment)) == if is_normal(segment) {
            keep_normal(segments).push(segment)
        } else {
            keep_normal(segments)
        },
{
    reveal(Seq::filter);
    assert(segments.push(segment).drop_last() == segments);
}

proof fn lemma_joined_push(segments: Seq<Seq<char>>, segment: Seq<char>)
    ensures
        joined(segments.push(segment)) == if segments.len() == 0 {
            segment
        } else {
            joined(segments) + seq!['/'] + segment
        },
{
    assert(segments.push(segment).drop_last() == segments);
}

fn is_letter_char(c: char) -> (letter: bool)
    ensures
        letter == is_letter(c),
{
    ('a' <= c && c <= 'z') || ('A' <= c && c <= 'Z')
}

fn is_drive_marker_segment(segment: &String) -> (marker: bool)
    ensures
        marker == is_drive_marker(segment@),
{
    let mut rest = segment.as_str().chars();
    let first = rest.next();
    let second = rest.next();
    let third = rest.next();
    match (first, second, third) {
        (Some(letter), Some(colon), None) => is_letter_char(letter) && colon == ':',
        _ => false,
    }
}

fn is_normal_segment(segment: &String) -> (normal: bool)
    ensures
        normal == is_normal(segment@),
{
    proof {
        reveal_strlit(".");
        reveal_strlit("..");
    }
    let current = String::from_str(".");
    let parent = String::from_str("..");
    assert(current@ == seq!['.']);
    assert(parent@ == seq!['.', '.']);
    !segment.as_str().is_empty() && !(*segment == current) && !(*segment == parent)
        && !is_drive_marker_segment(segment)
}

/// Appends a finished segment to the clean path if it is a normal one.
fn keep_if_normal(clean: &mut String, Ghost(kept): Ghost<Seq<Seq<char>>>, segment: &String)
    requires
        old(clean)@ == joined(keep_normal(kept)),
        old(clean)@.len() == 0 <==> keep_normal(kept).len() == 0,
    ensures
        final(clean)@ == joined(keep_normal(kept.push(segment@))),
        final(clean)@.len() == 0 <==> keep_normal(kept.push(segment@)).len() == 0,
{
    proof {
        lemma_keep_normal_push(kept, segment@);
        lemma_joined_push(keep_normal(kept), segment@);
    }
    if is_normal_segment(segment) {
        if !clean.as_str().is_empty() {
            clean.push('/');
        }
        clean.append(segment.as_str());
    }
}

/// Drops from a member name every segment that is not a plain name: empty segments, `.`,
/// `..`, drive markers, and with them any leading separator.
pub fn sanitize(path: &str) -> (clean: String)
    ensures
        clean@ == sanitized(path@),
{
    let mut clean = String::new();
    let mut segment = String::new();
    for c in it: path.chars()
        invariant
            it.seq() == path@,
            segments(path@.take(it.index() as int)).len() >= 1,
            segment@ == segments(path@.take(it.index() as int)).last(),
            clean@ == joined(keep_normal(segments(path@.take(it.index() as int)).drop_last())),
            clean@.len() == 0 <==> keep_normal(
                segments(path@.take(it.index() as int)).drop_last(),
            ).len() == 0,
    {
        let ghost read = path@.take(it.index() as int);
        proof {
            assert(path@.take(it.index() + 1) == read.push(c));
            lemma_segments_push(read, c);
        }
        if c == '/' || c == '\\' {
            keep_if_normal(&mut clean, Ghost(segments(read).drop_last()), &segment);
            segment = String::new();
            assert(segments(read).drop_last().push(segments(read).last()) == segments(read));
            assert(segments(read.push(c)).drop_last() == segments(read));
        } else {
            segment.push(c);
            assert(segments(read.push(c)).drop_last() == segments(read).drop_last());
        }
    }
    assert(path@.take(path@.len() as int) == path@);
    keep_if_normal(&mut clean, Ghost(segments(path@).drop_last()), &segment);
    assert(segments(path@).drop_last().push(segments(path@).last()) == segments(path@));
    clean
}

/// The path below `base` at which the member called `filename` is written.
pub fn to_file_path(base: &str, filename: &str) -> (path: String)
    ensures
        path@ == safe_path(base@, filename@),
{
    let clean = sanitize(filename);
    let mut path = String::from_str(base);
    match last_char(base) {
        None => {},
        Some(c) => {
            if c != '/' {
                path.push('/');
            }
        },
    }
    path.append(clean.as_str());
    path
}

/// The path below `base` at which the member called `filename` is written: the same as
/// [`to_file_path`].
pub fn abs_filename(base: &String, filename: &str) -> (path: String)
    ensures
        path@ == safe_path(base@, filename@),
{
    to_file_path(base.as_str(), filename)
}

/// The directory that a path lies in.
pub fn parent(path: &str) -> (directory: String)
    ensures
        directory@ == parent_of(path@),
{
    let mut before = String::new();
    let mut since = String::new();
    for c in it: path.chars()
        invariant
            it.seq() == path@,
            before@ == before_last_slash(path@.take(it.index() as int)),
            before@ + since@ == path@.take(it.index() as int),
    {
        let ghost read = path@.take(it.index() as int);
        assert(path@.take(it.index() + 1) == read.push(c));
        assert(read.push(c).drop_last() == read);
        if c == '/' {
            before.append(since.as_str());
            since = String::new();
        }
        since.push(c);
    }
    assert(path@.take(path@.len() as int) == path@);
    if before.as_str().is_empty() && crate::text::first_char(path) == Some('/') {
        before.push('/');
    }
    before
}

proof fn lemma_segments_hold_no_separator(path: Seq<char>)
    ensures
        forall|i: int, j: int|
            0 <= i < segments(path).len() && 0 <= j < segments(path)[i].len() ==> !is_separator(
                #[trigger] segments(path)[i][j],
            ),
    decreases path.len(),
{
    if path.len() > 0 {
        lemma_segments_hold_no_separator(path.drop_last());
        lemma_segments_nonempty(path.drop_last());
    }
}

proof fn lemma_kept_are_plain_names(path: Seq<char>)
    ensures
        forall|i: int|
            0 <= i < keep_normal(segments(path)).len() ==> is_plain_name(
                #[trigger] keep_normal(segments(path))[i],
            ),
{
    let all = segments(path);
    let normal = |segment: Seq<char>| is_normal(segment);
    let kept = keep_normal(all);
    lemma_segments_hold_no_separator(path);
    assert forall|i: int| 0 <= i < kept.len() implies is_plain_name(#[trigger] kept[i]) by {
        all.lemma_filter_pred(normal, i);
        all.lemma_filter_contains_rev(normal, kept[i]);
        let k = choose|k: int| 0 <= k < all.len() && all[k] == kept[i];
        assert forall|j: int| 0 <= j < kept[i].len() implies !is_separator(#[trigger] kept[i][j]) by {
            assert(!is_separator(segments(path)[k][j]));
        }
    }
}

/// Appending text without a separator to a name lengthens its last segment.
proof fn lemma_segments_extend(path: Seq<char>, name: Seq<char>)
    requires
        forall|j: int| 0 <= j < name.len() ==> !is_separator(#[trigger] name[j]),
    ensures
        segments(path).len() >= 1,
        segments(path + name) == segments(path).drop_last().push(segments(path).last() + name),
    decreases name.len(),
{
    lemma_segments_nonempty(path);
    if name.len() == 0 {
        assert(path + name == path);
        assert(segments(path).last() + name == segments(path).last());
        assert(segments(path).drop_last().push(segments(path).last()) == segments(path));
    } else {
        let shorter = name.drop_last();
        assert forall|j: int| 0 <= j < shorter.len() implies !is_separator(#[trigger] shorter[j]) by {
            assert(shorter[j] == name[j]);
        }
        lemma_segments_extend(path, shorter);
        assert(path + name == (path + shorter).push(name.last()));
        assert(!is_separator(name[name.len() - 1]));
        lemma_segments_push(path + shorter, name.last());
        assert(segments(path).last() + name == (segments(path).last() + shorter).push(name.last()));
    }
}

/// Cutting what was joined gives the segments back, where none of them holds a
/// separator.
pub proof fn lemma_segments_of_joined(names: Seq<Seq<char>>)
    requires
        names.len() >= 1,
        forall|i: int, j: int|
            0 <= i < names.len() && 0 <= j < names[i].len() ==> !is_separator(#[trigger] names[i][j]),
    ensures
        segments(joined(names)) == names,
    decreases names.len(),
{
    let empty = Seq::<char>::empty();
    if names.len() == 1 {
        assert(empty + names[0] == names[0]);
        lemma_segments_extend(empty, names[0]);
        assert(segments(empty) == seq![empty]);
    } else {
        let before = names.drop_last();
        assert forall|i: int, j: int|
            0 <= i < before.len() && 0 <= j < before[i].len() implies !is_separator(
            #[trigger] before[i][j],
        ) by {
            assert(before[i] == names[i]);
        }
        lemma_segments_of_joined(before);
        lemma_segments_push(joined(before), '/');
        assert(joined(before) + seq!['/'] == joined(before).push('/'));
        assert forall|j: int| 0 <= j < names.last().len() implies !is_separator(
            #[trigger] names.last()[j],
        ) by {
            assert(names.last() == names[names.len() - 1]);
        }
        lemma_segments_extend(joined(before).push('/'), names.last());
        assert(empty + names.last() == names.last());
        assert(before.push(names.last()) == names);
    }
}

/// Confinement: whatever the member name holds, the path made from it is the destination
/// directory followed by plain names only, so it cannot lie outside the destination,
/// whichever of the two separators is read as one. Where the name holds no plain name at
/// all, the path is the destination itself.
pub proof fn lemma_safe_path_is_confined(root: Seq<char>, name: Seq<char>)
    ensures
        safe_path(root, name) == as_directory(root) + sanitized(name),
        root.is_prefix_of(safe_path(root, name)),
        sanitized(name).len() == 0 || forall|i: int|
            0 <= i < segments(sanitized(name)).len() ==> is_plain_name(
                #[trigger] segments(sanitized(name))[i],
            ),
{
    let kept = keep_normal(segments(name));
    lemma_kept_are_plain_names(name);
    if kept.len() >= 1 {
        assert forall|i: int, j: int|
            0 <= i < kept.len() && 0 <= j < kept[i].len() implies !is_separator(
            #[trigger] kept[i][j],
        ) by {
            assert(is_plain_name(kept[i]));
        }
        lemma_segments_of_joined(kept);
    }
    assert(root.is_prefix_of(as_directory(root) + sanitized(name))) by {
        let whole = as_directory(root) + sanitized(name);
        assert(whole.subrange(0, root.len() as int) == root);
    }
}

proof fn lemma_before_last_slash_extend(path: Seq<char>, name: Seq<char>)
    requires
        forall|j: int| 0 <= j < name.len() ==> !is_separator(#[trigger] name[j]),
    ensures
        before_last_slash(path + name) == before_last_slash(path),
    decreases name.len(),
{
    if name.len() == 0 {
        assert(path + name == path);
    } else {
        let shorter = name.drop_last();
        assert forall|j: int| 0 <= j < shorter.len() implies !is_separator(#[trigger] shorter[j]) by {
            assert(shorter[j] == name[j]);
        }
        lemma_before_last_slash_extend(path, shorter);
        assert(!is_separator(name[name.len() - 1]));
        assert((path + name).drop_last() == path + shorter);
    }
}

/// The directory of an unpacked file: the destination followed by all the plain names of
/// the member but the last. Where the member has one plain name only, the file lies in
/// the destination itself.
pub proof fn lemma_parent_of_safe_path(root: Seq<char>, name: Seq<char>)
    ensures
        keep_normal(segments(name)).len() >= 2 ==> parent_of(safe_path(root, name)) == as_directory(
            root,
        ) + joined(keep_normal(segments(name)).drop_last()),
        keep_normal(segments(name)).len() == 1 ==> before_last_slash(safe_path(root, name))
            == before_last_slash(as_directory(root)),
{
    let kept = keep_normal(segments(name));
    lemma_kept_are_plain_names(name);
    if kept.len() >= 1 {
        let last = kept.last();
        assert(is_plain_name(kept[kept.len() - 1]));
        if kept.len() >= 2 {
            let front = as_directory(root) + joined(kept.drop_last());
            assert(safe_path(root, name) == front.push('/') + last);
            lemma_before_last_slash_extend(front.push('/'), last);
            assert(front.push('/').drop_last() == front);
            assert(is_plain_name(kept[0]));
            assert(kept.drop_last()[0] == kept[0]);
            lemma_joined_holds_first(kept.drop_last());
        } else {
            assert(joined(kept) == last);
            lemma_before_last_slash_extend(as_directory(root), last);
        }
    }
}

proof fn lemma_joined_holds_first(names: Seq<Seq<char>>)
    requires
        names.len() >= 1,
        names[0].len() >= 1,
    ensures
        joined(names).len() >= 1,
    decreases names.len(),
{
    if names.len() > 1 {
        assert(names.drop_last()[0] == names[0]);
        lemma_joined_holds_first(names.drop_last());
    }
}

} // verus!
