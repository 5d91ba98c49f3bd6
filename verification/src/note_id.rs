//! Note ids: the grammar of a note's file name, and the path that an id
//! resolves to inside the notes directory.

use vstd::prelude::*;
use crate::clock::{current_timestamp, Timestamp, TimestampView};
use crate::notes_fs::{outcome, NotesError};
use crate::paths::{
    file_name_of, join_path, path_file_name, path_join, path_starts_with, starts_with_path,
};
use crate::pattern::{
    pattern_first_group, pattern_is_match, regex_compiles, regex_first_group, regex_matches,
};
use crate::text::{chars_of, contains_char, ends_with, has_char, has_suffix};

verus! {

/// The shape of a note id, as a regular expression: day, month and year,
/// hour and minute, two hyphens, a slug, and `.md`.
pub const NOTE_ID_PATTERN: &'static str = r"^\d{2}-\d{2}-\d{4}_\d{2}-\d{2}--[a-zA-Z0-9_\-]+(?:_\d+)?\.md$";

/// The shape of a note id.
pub open spec fn note_id_pattern() -> Seq<char> {
    NOTE_ID_PATTERN@
}

/// The date and time that a note id begins with, as a regular expression
/// whose group 1 holds them.
pub const PREFIX_PATTERN: &'static str = r"^(\d{2}-\d{2}-\d{4}_\d{2}-\d{2})--";

/// The pattern of the date and time that a note id begins with.
pub open spec fn prefix_pattern() -> Seq<char> {
    PREFIX_PATTERN@
}

/// Whether two full stops stand side by side in `s`.
pub open spec fn has_dot_dot(s: Seq<char>) -> bool {
    exists|i: int| 0 <= i < s.len() - 1 && (#[trigger] s[i]) == '.' && s[i + 1] == '.'
}

fn contains_dot_dot(v: &Vec<char>) -> (r: bool)
    ensures
        r == has_dot_dot(v@),
{
    if v.len() < 2 {
        return false;
    }
    let mut i: usize = 0;
    while i < v.len() - 1
        invariant
            i <= v.len() - 1,
            v.len() >= 2,
            forall|j: int| 0 <= j < i ==> !((#[trigger] v@[j]) == '.' && v@[j + 1] == '.'),
        decreases v.len() - i,
    {
        if v[i] == '.' && v[i + 1] == '.' {
            return true;
        }
        i += 1;
    }
    false
}

/// The first rule that `id` breaks, by its message; `None` where it breaks
/// none. `shape` is what matching `id` against the id's pattern gave: `None`
/// where the pattern did not compile.
pub open spec fn note_id_fault(id: Seq<char>, shape: Option<bool>) -> Option<Seq<char>> {
    if has_char(id, '/') || has_char(id, '\\') {
        Some("Invalid note ID: contains path separators"@)
    } else if has_dot_dot(id) {
        Some("Invalid note ID: contains relative path"@)
    } else if !ends_with(id, ".md"@) {
        Some("Invalid note ID: must be a markdown file"@)
    } else {
        match shape {
            None => Some("Regex compilation failed"@),
            Some(false) => Some("Invalid note ID format"@),
            Some(true) => None,
        }
    }
}

/// What matching `id` against the id's pattern gives.
pub open spec fn shape_of(id: Seq<char>) -> Option<bool> {
    if regex_compiles(note_id_pattern()) {
        Some(regex_matches(note_id_pattern(), id))
    } else {
        None
    }
}

/// Whether `id` is a note id: it holds no path separator and no `..`, ends
/// in `.md` and has the shape of the id's pattern.
pub open spec fn valid_note_id(id: Seq<char>) -> bool {
    note_id_fault(id, shape_of(id)) is None
}

/// Judges a candidate id, given what matching it against the id's pattern
/// gave.
pub fn check_note_id(id: &str, shape: Option<bool>) -> (r: Result<(), NotesError>)
    ensures
        match r {
            Ok(_) => note_id_fault(id@, shape) is None,
            Err(e) => note_id_fault(id@, shape) == Some(e@),
        },
{
    let chars = chars_of(id);
    if contains_char(&chars, '/') || contains_char(&chars, '\\') {
        return Err(NotesError::new("Invalid note ID: contains path separators"));
    }
    if contains_dot_dot(&chars) {
        return Err(NotesError::new("Invalid note ID: contains relative path"));
    }
    if !has_suffix(&chars, &chars_of(".md")) {
        return Err(NotesError::new("Invalid note ID: must be a markdown file"));
    }
    match shape {
        None => Err(NotesError::new("Regex compilation failed")),
        Some(false) => Err(NotesError::new("Invalid note ID format")),
        Some(true) => Ok(()),
    }
}

/// Judges a candidate id: no path separator, no `..`, the extension `.md`
/// and the shape of the id's pattern.
pub fn validate_note_id(id: &str) -> (r: Result<(), NotesError>)
    ensures
        match r {
            Ok(_) => valid_note_id(id@),
            Err(e) => note_id_fault(id@, shape_of(id@)) == Some(e@),
        },
{
    let shape = match pattern_is_match(NOTE_ID_PATTERN, id) {
        Ok(b) => Some(b),
        Err(_) => None,
    };
    check_note_id(id, shape)
}

/// Whether `name` has the extension of a note: it ends in `.md`, and more
/// than a full stop stands before the `md`.
pub open spec fn has_note_extension(name: Seq<char>) -> bool {
    name.len() > 3 && ends_with(name, ".md"@)
}

/// The note id that a path's final component gives: the component itself
/// where it has the extension of a note.
pub open spec fn note_id_of(file_name: Option<Seq<char>>) -> Option<Seq<char>> {
    match file_name {
        Some(n) => if has_note_extension(n) {
            Some(n)
        } else {
            None
        },
        None => None,
    }
}

/// The view of an optional text.
pub open spec fn opt_text(s: Option<String>) -> Option<Seq<char>> {
    match s {
        Some(t) => Some(t@),
        None => None,
    }
}

/// The note id that a path's final component gives, if any.
pub fn note_id_from_file_name(file_name: Option<String>) -> (r: Option<String>)
    ensures
        opt_text(r) == note_id_of(opt_text(file_name)),
{
    match file_name {
        Some(name) => {
            let chars = chars_of(name.as_str());
            if chars.len() > 3 && has_suffix(&chars, &chars_of(".md")) {
                Some(name)
            } else {
                None
            }
        },
        None => None,
    }
}

/// The note id that `path` names: its final component, where that has the
/// extension of a note. No file is read.
pub fn note_id_from_path(path: &str) -> (r: Option<String>)
    ensures
        opt_text(r) == note_id_of(path_file_name(path@)),
{
    note_id_from_file_name(file_name_of(path))
}

/// The final component of a path, or the failure that says it has none.
pub open spec fn named(file_name: Option<Seq<char>>) -> Result<Seq<char>, Seq<char>> {
    match file_name {
        Some(n) => Ok(n),
        None => Err("Invalid file name"@),
    }
}

/// The final component of a path, given what the path gave for it.
pub fn require_file_name(file_name: Option<String>) -> (r: Result<String, NotesError>)
    ensures
        outcome(r) == named(opt_text(file_name)),
{
    match file_name {
        Some(n) => Ok(n),
        None => Err(NotesError::new("Invalid file name")),
    }
}

/// The final component of `path`.
pub fn file_name(path: &str) -> (r: Result<String, NotesError>)
    ensures
        outcome(r) == named(path_file_name(path@)),
{
    require_file_name(file_name_of(path))
}

/// The prefix of a file name, made of the date and time that were found at
/// its start.
pub open spec fn prefix_from(group: Option<Seq<char>>) -> Option<Seq<char>> {
    match group {
        Some(g) => Some(g + "--"@),
        None => None,
    }
}

/// The date and time that the prefix's pattern finds at the start of
/// `name`.
pub open spec fn prefix_group(name: Seq<char>) -> Option<Seq<char>> {
    if regex_compiles(prefix_pattern()) {
        regex_first_group(prefix_pattern(), name)
    } else {
        None
    }
}

/// Makes a prefix of the date and time that were found at the start of a
/// file name.
pub fn prefix_from_group(group: Option<String>) -> (r: Option<String>)
    ensures
        opt_text(r) == prefix_from(opt_text(group)),
{
    match group {
        Some(g) => {
            let mut p = g;
            p.append("--");
            Some(p)
        },
        None => None,
    }
}

/// The date and time that `file_name` begins with, followed by two hyphens;
/// `None` where it does not begin with them.
pub fn extract_prefix(file_name: &str) -> (r: Option<String>)
    ensures
        opt_text(r) == prefix_from(prefix_group(file_name@)),
{
    let group = match pattern_first_group(PREFIX_PATTERN, file_name) {
        Ok(g) => g,
        Err(_) => None,
    };
    prefix_from_group(group)
}

/// The prefix that a file name gets from a clock's reading.
pub open spec fn prefix_text(now: TimestampView) -> Seq<char> {
    now.date + "_"@ + now.time + "--"@
}

/// Makes the prefix of a file name from a clock's reading.
pub fn prefix_of(now: &Timestamp) -> (r: String)
    ensures
        r@ == prefix_text(now@),
{
    let mut r = now.date.clone();
    r.append("_");
    r.append(now.time.as_str());
    r.append("--");
    r
}

/// The prefix that a file name gets now.
pub fn current_prefix() -> (r: String)
    ensures
        exists|now: TimestampView| now.usable() && r@ == prefix_text(now),
{
    let now = current_timestamp();
    let r = prefix_of(&now);
    assert(now@.usable() && r@ == prefix_text(now@));
    r
}

/// What resolving the notes directory and a note's path to their canonical
/// forms gave; `None` where a path could not be resolved.
#[derive(Debug, Clone)]
pub struct PathResolution {
    /// The notes directory.
    pub canonical_dir: Option<String>,
    /// The note's path.
    pub canonical_note: Option<String>,
    /// The directory that holds the note's path.
    pub canonical_parent: Option<String>,
}

/// What a `PathResolution` holds, as plain sequences.
pub struct PathResolutionView {
    pub canonical_dir: Option<Seq<char>>,
    pub canonical_note: Option<Seq<char>>,
    pub canonical_parent: Option<Seq<char>>,
}

impl View for PathResolution {
    type V = PathResolutionView;

    open spec fn view(&self) -> PathResolutionView {
        PathResolutionView {
            canonical_dir: opt_text(self.canonical_dir),
            canonical_note: opt_text(self.canonical_note),
            canonical_parent: opt_text(self.canonical_parent),
        }
    }
}

/// The path that is held against the notes directory: the note's canonical
/// path; where the note does not exist yet, its directory's; else the path
/// as it was made.
pub open spec fn resolved_note(resolution: PathResolutionView, path: Seq<char>) -> Seq<char> {
    match resolution.canonical_note {
        Some(p) => p,
        None => match resolution.canonical_parent {
            Some(p) => p,
            None => path,
        },
    }
}

/// The first reason to refuse a note's path, by its message: the id's
/// fault, a notes directory that does not resolve, or a resolved path that
/// does not lie inside it.
pub open spec fn path_fault(
    id_fault: Option<Seq<char>>,
    dir_resolves: bool,
    inside: bool,
) -> Option<Seq<char>> {
    match id_fault {
        Some(m) => Some(m),
        None => if !dir_resolves {
            Some("Cannot resolve notes directory"@)
        } else if !inside {
            Some("Note path outside allowed directory"@)
        } else {
            None
        },
    }
}

/// Whether the path that `id` resolves to lies inside the canonical notes
/// directory.
pub open spec fn lies_inside(
    notes_dir: Seq<char>,
    id: Seq<char>,
    resolution: PathResolutionView,
) -> bool {
    match resolution.canonical_dir {
        Some(dir) => path_starts_with(resolved_note(resolution, path_join(notes_dir, id)), dir),
        None => false,
    }
}

/// The first reason to refuse the path of `id` in `notes_dir`, if any.
pub open spec fn safe_path_fault(
    notes_dir: Seq<char>,
    id: Seq<char>,
    resolution: PathResolutionView,
) -> Option<Seq<char>> {
    path_fault(
        note_id_fault(id, shape_of(id)),
        resolution.canonical_dir is Some,
        lies_inside(notes_dir, id, resolution),
    )
}

/// Decides on a note's path, given the verdict on its id, whether the notes
/// directory resolved, and whether the resolved path lies inside it.
pub fn check_note_path(
    checked: Result<(), NotesError>,
    path: String,
    dir_resolves: bool,
    inside: bool,
) -> (r: Result<String, NotesError>)
    ensures
        match r {
            Ok(p) => p@ == path@ && path_fault(fault_of(checked), dir_resolves, inside) is None,
            Err(e) => path_fault(fault_of(checked), dir_resolves, inside) == Some(e@),
        },
{
    match checked {
        Err(e) => Err(e),
        Ok(_) => {
            if !dir_resolves {
                Err(NotesError::new("Cannot resolve notes directory"))
            } else if !inside {
                Err(NotesError::new("Note path outside allowed directory"))
            } else {
                Ok(path)
            }
        },
    }
}

/// The message of a failed check.
pub open spec fn fault_of(checked: Result<(), NotesError>) -> Option<Seq<char>> {
    match checked {
        Ok(_) => None,
        Err(e) => Some(e@),
    }
}

/// Resolves `id` to its path in `notes_dir`, and refuses it unless the id is
/// a note id and the canonical form of the path lies inside the canonical
/// notes directory.
pub fn safe_note_path(notes_dir: &str, id: &str, resolution: &PathResolution) -> (r: Result<
    String,
    NotesError,
>)
    ensures
        match r {
            Ok(p) => p@ == path_join(notes_dir@, id@) && safe_path_fault(
                notes_dir@,
                id@,
                resolution@,
            ) is None,
            Err(e) => safe_path_fault(notes_dir@, id@, resolution@) == Some(e@),
        },
{
    let checked = validate_note_id(id);
    let path = join_path(notes_dir, id);
    let (dir_resolves, inside) = match &resolution.canonical_dir {
        Some(dir) => {
            let inside = match &resolution.canonical_note {
                Some(p) => starts_with_path(p.as_str(), dir.as_str()),
                None => match &resolution.canonical_parent {
                    Some(p) => starts_with_path(p.as_str(), dir.as_str()),
                    None => starts_with_path(path.as_str(), dir.as_str()),
                },
            };
            (true, inside)
        },
        None => (false, false),
    };
    check_note_path(checked, path, dir_resolves, inside)
}

/// A path that is accepted stays inside the notes directory: its id is a
/// note id, which holds no path separator and no `..`, and the canonical form
/// of the path lies inside the canonical notes directory.
pub proof fn law_safe_path_stays_inside(
    notes_dir: Seq<char>,
    id: Seq<char>,
    resolution: PathResolutionView,
)
    requires
        safe_path_fault(notes_dir, id, resolution) is None,
    ensures
        valid_note_id(id),
        !has_char(id, '/'),
        !has_char(id, '\\'),
        !has_dot_dot(id),
        ends_with(id, ".md"@),
        resolution.canonical_dir is Some,
        path_starts_with(
            resolved_note(resolution, path_join(notes_dir, id)),
            resolution.canonical_dir->Some_0,
        ),
{
}

} // verus!
