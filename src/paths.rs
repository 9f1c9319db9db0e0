//! The parts of a path that the matchers read: its file name, extension
//! and stem, as std's `Path` splits them.

use vstd::prelude::*;

use crate::files::opt_view;

verus! {

/// The characters of `p` after its last `/` (all of `p` if it has none).
pub open spec fn last_segment(p: Seq<char>) -> Seq<char>
    decreases p.len(),
{
    if p.len() == 0 || p.last() == '/' {
        Seq::empty()
    } else {
        last_segment(p.drop_last()).push(p.last())
    }
}

/// The final component of a Unix path when that is a normal file name:
/// trailing slashes and `.` segments are passed over; a path that then
/// ends in `..`, or has no segment left but the root or a leading `.`,
/// has none.
pub open spec fn file_name_of(path: Seq<char>) -> Option<Seq<char>>
    decreases path.len(),
{
    if path.len() == 0 {
        None
    } else if path.last() == '/' {
        file_name_of(path.drop_last())
    } else if last_segment(path) == seq!['.'] {
        if path.len() == 1 {
            None
        } else {
            file_name_of(path.drop_last())
        }
    } else if last_segment(path) == seq!['.', '.'] {
        None
    } else {
        Some(last_segment(path))
    }
}

/// The index of the last `.` in `name`, or -1 when it has none.
pub open spec fn last_dot(name: Seq<char>) -> int
    decreases name.len(),
{
    if name.len() == 0 {
        -1
    } else if name.last() == '.' {
        name.len() - 1
    } else {
        last_dot(name.drop_last())
    }
}

/// The extension of a file name: what follows its final `.`, unless that
/// dot is the name's first character or there is none.
pub open spec fn extension_of_name(name: Seq<char>) -> Option<Seq<char>> {
    if last_dot(name) > 0 {
        Some(name.skip(last_dot(name) + 1))
    } else {
        None
    }
}

/// The stem of a file name: what precedes its final `.`, or the whole
/// name when `extension_of_name` finds no extension.
pub open spec fn stem_of_name(name: Seq<char>) -> Seq<char> {
    if last_dot(name) > 0 {
        name.take(last_dot(name))
    } else {
        name
    }
}

pub open spec fn extension_of(path: Seq<char>) -> Option<Seq<char>> {
    match file_name_of(path) {
        Some(n) => extension_of_name(n),
        None => None,
    }
}

pub open spec fn stem_of(path: Seq<char>) -> Option<Seq<char>> {
    match file_name_of(path) {
        Some(n) => Some(stem_of_name(n)),
        None => None,
    }
}

/// Relies on std's `Path::file_name` on Unix: the final component of the
/// path when it is a normal one, none when the path ends in `..` or has no
/// normal component.
#[verifier::external_body]
pub(crate) fn path_file_name(path: &str) -> (r: Option<String>)
    ensures
        opt_view(r) == file_name_of(path@),
{
    match std::path::Path::new(path).file_name() {
        Some(n) => n.to_str().map(String::from),
        None => None,
    }
}

/// Relies on std's `Path::extension`: documented as none without a file
/// name, none without an embedded `.`, none when the name's only `.` is its
/// first character, and otherwise the part of the name after the final `.`.
#[verifier::external_body]
pub(crate) fn path_extension(path: &str) -> (r: Option<String>)
    ensures
        opt_view(r) == extension_of(path@),
{
    match std::path::Path::new(path).extension() {
        Some(n) => n.to_str().map(String::from),
        None => None,
    }
}

/// Relies on std's `Path::file_stem`: documented as none without a file
/// name, the whole name without an embedded `.` or when its only `.` is its
/// first character, and otherwise the part of the name before the final `.`.
#[verifier::external_body]
pub(crate) fn path_file_stem(path: &str) -> (r: Option<String>)
    ensures
        opt_view(r) == stem_of(path@),
{
    match std::path::Path::new(path).file_stem() {
        Some(n) => n.to_str().map(String::from),
        None => None,
    }
}

} // verus!
