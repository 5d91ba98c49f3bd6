//! The note store: what each of its operations decides and returns, given
//! what was read from the notes directory.

use vstd::prelude::*;
pub use crate::filename::slugify_title;
pub use crate::note_id::note_id_from_path;
use crate::clock::{
    current_timestamp, date_format, parse_date_with, parsed_date, Timestamp, TimestampView,
    DATE_FORMAT,
};
use crate::filename::{
    build_filename, ensure_unique_filename, filename_of, slug_of, text_of, unique_name,
};
use crate::frontmatter::{
    build_content, content_text, decoded_view, default_layout, default_statut, parse_frontmatter,
    parsed, Frontmatter, FrontmatterView, DEFAULT_LAYOUT, DEFAULT_STATUT,
};
use crate::listing::{dated_views, listed, note_views, sort_notes, Dated, DatedNote};
use crate::models::{
    copy_texts, same_texts, texts, NoteDetail, NoteDetailView, NoteMetadata, NoteMetadataView,
};
use crate::note_id::{
    extract_prefix, has_note_extension, note_id_of, opt_text, prefix_from, prefix_group, prefix_of,
    prefix_text, safe_note_path, safe_path_fault, PathResolution, PathResolutionView,
};
use crate::paths::{join_path, path_file_name, path_join};
use crate::text::{chars_of, has_suffix, same_text};

verus! {

/// A failure of the store, with its description.
#[derive(Debug)]
pub struct NotesError {
    details: String,
}

impl View for NotesError {
    type V = Seq<char>;

    closed spec fn view(&self) -> Seq<char> {
        self.details@
    }
}

impl NotesError {
    /// A failure described by `details`.
    pub fn new(details: &str) -> (e: Self)
        ensures
            e@ == details@,
    {
        NotesError { details: String::from_str(details) }
    }

    /// The description.
    pub fn message(&self) -> (s: String)
        ensures
            s@ == self@,
    {
        self.details.clone()
    }
}

/// What an operation gave, as plain sequences: the value's model, or the
/// failure's message.
pub open spec fn outcome<T: View>(r: Result<T, NotesError>) -> Result<T::V, Seq<char>> {
    match r {
        Ok(v) => Ok(v@),
        Err(e) => Err(e@),
    }
}

/// Where the notes lie under the home directory `home`: the path of the
/// notes directory, or a failure where no home directory is known.
pub open spec fn notes_path(home: Option<Seq<char>>) -> Result<Seq<char>, Seq<char>> {
    match home {
        None => Err("HOME not set"@),
        Some(h) => Ok(path_join(path_join(h, "Notes"@), "Velocitext"@)),
    }
}

/// The path of the notes directory, given the home directory.
pub fn notes_dir(home: Option<&str>) -> (r: Result<String, NotesError>)
    ensures
        outcome(r) == notes_path(text_of(home)),
{
    match home {
        None => Err(NotesError::new("HOME not set")),
        Some(h) => {
            let notes = join_path(h, "Notes");
            Ok(join_path(notes.as_str(), "Velocitext"))
        },
    }
}

/// The text of a note file, with what decoding its header's text gave: the
/// fields, or the decoder's message.
#[derive(Debug)]
pub struct NoteSource {
    pub raw: String,
    pub decoded: Result<Frontmatter, String>,
}

/// What a `NoteSource` holds, as plain sequences.
pub struct NoteSourceView {
    pub raw: Seq<char>,
    pub decoded: Result<FrontmatterView, Seq<char>>,
}

impl View for NoteSource {
    type V = NoteSourceView;

    open spec fn view(&self) -> NoteSourceView {
        NoteSourceView { raw: self.raw@, decoded: decoded_view(self.decoded) }
    }
}

/// What was found at a note's path.
#[derive(Debug)]
pub enum FileState {
    /// No file.
    Missing,
    /// A file that could not be read, with the reason.
    Unreadable(String),
    /// A file, with its text.
    Read(NoteSource),
}

/// What a `FileState` holds, as plain sequences.
pub enum FileStateView {
    Missing,
    Unreadable(Seq<char>),
    Read(NoteSourceView),
}

impl View for FileState {
    type V = FileStateView;

    open spec fn view(&self) -> FileStateView {
        match self {
            FileState::Missing => FileStateView::Missing,
            FileState::Unreadable(m) => FileStateView::Unreadable(m@),
            FileState::Read(s) => FileStateView::Read(s@),
        }
    }
}

/// A note's header and body, with the text they were read from.
#[derive(Debug, Clone)]
pub struct ParsedNote {
    pub frontmatter: Frontmatter,
    pub body: String,
    pub raw: String,
}

/// What a `ParsedNote` holds, as plain sequences.
pub struct ParsedNoteView {
    pub frontmatter: FrontmatterView,
    pub body: Seq<char>,
    pub raw: Seq<char>,
}

impl View for ParsedNote {
    type V = ParsedNoteView;

    open spec fn view(&self) -> ParsedNoteView {
        ParsedNoteView { frontmatter: self.frontmatter@, body: self.body@, raw: self.raw@ }
    }
}

/// A note as the index takes it: its metadata and its body.
#[derive(Debug, Clone)]
pub struct NoteIndexEntry {
    pub metadata: NoteMetadata,
    pub body: String,
}

/// What a `NoteIndexEntry` holds, as plain sequences.
pub struct NoteIndexEntryView {
    pub metadata: NoteMetadataView,
    pub body: Seq<char>,
}

impl View for NoteIndexEntry {
    type V = NoteIndexEntryView;

    open spec fn view(&self) -> NoteIndexEntryView {
        NoteIndexEntryView { metadata: self.metadata@, body: self.body@ }
    }
}

/// What an operation asks of the notes directory, with the note that it
/// returns: whether to write the note's content under the note's id, and
/// which file to remove after that.
#[derive(Debug, Clone)]
pub struct StoreChange {
    pub detail: NoteDetail,
    pub write: bool,
    pub remove: Option<String>,
}

/// What a `StoreChange` holds, as plain sequences.
pub struct StoreChangeView {
    pub detail: NoteDetailView,
    pub write: bool,
    pub remove: Option<Seq<char>>,
}

impl View for StoreChange {
    type V = StoreChangeView;

    open spec fn view(&self) -> StoreChangeView {
        StoreChangeView {
            detail: self.detail@,
            write: self.write,
            remove: opt_text(self.remove),
        }
    }
}

/// The metadata of the note `id` whose header is `f`.
pub open spec fn metadata_of(id: Seq<char>, f: FrontmatterView) -> NoteMetadataView {
    NoteMetadataView {
        id,
        title: f.title,
        layout: f.layout,
        date: f.date,
        description: f.description,
        statut: f.statut,
        tags: f.tags,
        updated: f.updated,
        archived: f.archived,
    }
}

/// Makes the metadata of the note `id` from its header.
pub fn metadata_from_frontmatter(id: String, frontmatter: &Frontmatter) -> (m: NoteMetadata)
    ensures
        m@ == metadata_of(id@, frontmatter@),
{
    NoteMetadata {
        id,
        title: frontmatter.title.clone(),
        layout: frontmatter.layout.clone(),
        date: frontmatter.date.clone(),
        description: frontmatter.description.clone(),
        statut: frontmatter.statut.clone(),
        tags: copy_texts(&frontmatter.tags),
        updated: frontmatter.updated.clone(),
        archived: frontmatter.archived,
    }
}

/// What parsing the text of a note file gives.
pub open spec fn parsed_source(source: NoteSourceView) -> Result<ParsedNoteView, Seq<char>> {
    match parsed(source.raw, source.decoded) {
        Ok(p) => Ok(ParsedNoteView { frontmatter: p.0, body: p.1, raw: source.raw }),
        Err(m) => Err(m),
    }
}

/// The failure of reading a file for the reason `m`.
pub open spec fn read_failure(m: Seq<char>) -> Seq<char> {
    "Read file failed: "@ + m
}

/// What reading a note file gives, given what reading its text gave.
pub open spec fn read_note(read: Result<NoteSourceView, Seq<char>>) -> Result<
    ParsedNoteView,
    Seq<char>,
> {
    match read {
        Ok(source) => parsed_source(source),
        Err(m) => Err(read_failure(m)),
    }
}

/// The model of what reading a file's text gave.
pub open spec fn read_view(read: Result<NoteSource, String>) -> Result<NoteSourceView, Seq<char>> {
    match read {
        Ok(s) => Ok(s@),
        Err(m) => Err(m@),
    }
}

fn parse_source(source: &NoteSource) -> (r: Result<ParsedNote, NotesError>)
    ensures
        outcome(r) == parsed_source(source@),
{
    match parse_frontmatter(source.raw.as_str(), &source.decoded) {
        Ok(p) => {
            let (frontmatter, body) = p;
            Ok(ParsedNote { frontmatter, body, raw: source.raw.clone() })
        },
        Err(e) => Err(e),
    }
}

fn failed_read(m: &str) -> (e: NotesError)
    ensures
        e@ == read_failure(m@),
{
    let mut text = String::from_str("Read file failed: ");
    text.append(m);
    NotesError::new(text.as_str())
}

/// Reads a note file, given what reading its text gave: a text that was not
/// read is a failure, and a text that was read is parsed.
pub fn read_note_file(read: &Result<NoteSource, String>) -> (r: Result<ParsedNote, NotesError>)
    ensures
        outcome(r) == read_note(read_view(*read)),
{
    match read {
        Ok(source) => parse_source(source),
        Err(m) => Err(failed_read(m.as_str())),
    }
}

/// What reading the note at a path gives, given what was found there.
pub open spec fn found_note(state: FileStateView) -> Result<ParsedNoteView, Seq<char>> {
    match state {
        FileStateView::Missing => Err("Note not found"@),
        FileStateView::Unreadable(m) => Err(read_failure(m)),
        FileStateView::Read(source) => parsed_source(source),
    }
}

fn find_note(state: &FileState) -> (r: Result<ParsedNote, NotesError>)
    ensures
        outcome(r) == found_note(state@),
{
    match state {
        FileState::Missing => Err(NotesError::new("Note not found")),
        FileState::Unreadable(m) => Err(failed_read(m.as_str())),
        FileState::Read(source) => parse_source(source),
    }
}

/// The note `id` as it is opened, given what was found at its path.
pub open spec fn opened(id: Seq<char>, state: FileStateView) -> Result<NoteDetailView, Seq<char>> {
    match found_note(state) {
        Ok(p) => Ok(NoteDetailView { metadata: metadata_of(id, p.frontmatter), content: p.raw }),
        Err(m) => Err(m),
    }
}

/// Opens the note `id`, given what was found at its path: a missing file is
/// "not found", a text that does not parse is its parse failure, and a note
/// is returned with its metadata and the text as it was read.
pub fn open_note(id: &str, state: &FileState) -> (r: Result<NoteDetail, NotesError>)
    ensures
        outcome(r) == opened(id@, state@),
{
    match find_note(state) {
        Ok(p) => Ok(
            NoteDetail {
                metadata: metadata_from_frontmatter(String::from_str(id), &p.frontmatter),
                content: p.raw,
            },
        ),
        Err(e) => Err(e),
    }
}

/// What `get_note` gives: the failure of the id or of its path, else the note
/// as it is opened.
pub open spec fn got(fault: Option<Seq<char>>, id: Seq<char>, state: FileStateView) -> Result<
    NoteDetailView,
    Seq<char>,
> {
    match fault {
        Some(m) => Err(m),
        None => opened(id, state),
    }
}

/// Returns the note `id` of `notes_dir`. `resolution` and `state` are what
/// resolving the note's path and reading it gave. An id that is no note id,
/// or whose path leaves the notes directory, is refused whatever was read.
pub fn get_note(notes_dir: &str, id: &str, resolution: &PathResolution, state: &FileState) -> (r:
    Result<NoteDetail, NotesError>)
    ensures
        outcome(r) == got(safe_path_fault(notes_dir@, id@, resolution@), id@, state@),
{
    match safe_note_path(notes_dir, id, resolution) {
        Ok(_) => open_note(id, state),
        Err(e) => Err(e),
    }
}

/// The header of a note that is made for `title` at `now`.
pub open spec fn new_frontmatter(title: Seq<char>, now: TimestampView) -> FrontmatterView {
    FrontmatterView {
        title,
        layout: default_layout(),
        date: now.date,
        description: Seq::empty(),
        statut: default_statut(),
        tags: Seq::empty(),
        updated: now.updated,
        archived: false,
    }
}

/// The note that is made for `title` at `now` among the files `names`: its
/// name is the first free one for the date, the time and the title's slug; its
/// body is empty.
pub open spec fn created(
    title: Seq<char>,
    names: Seq<Seq<char>>,
    now: TimestampView,
) -> StoreChangeView {
    let f = new_frontmatter(title, now);
    let name = unique_name(names, filename_of(prefix_text(now), slug_of(title)), None);
    StoreChangeView {
        detail: NoteDetailView {
            metadata: metadata_of(name, f),
            content: content_text(f, Seq::empty()),
        },
        write: true,
        remove: None,
    }
}

/// Makes a new note for `title` from the clock's reading `now`. `names` are
/// the names of the files in the notes directory.
pub fn create_note_at(title: &str, names: &Vec<String>, now: &Timestamp) -> (r: StoreChange)
    ensures
        r@ == created(title@, texts(names@), now@),
{
    let slug = slugify_title(title);
    let prefix = prefix_of(now);
    let base_name = build_filename(prefix.as_str(), slug.as_str());
    let file_name = ensure_unique_filename(names, base_name.as_str(), None);
    let tags: Vec<String> = Vec::new();
    assert(texts(tags@) =~= Seq::<Seq<char>>::empty());
    let frontmatter = Frontmatter {
        title: String::from_str(title),
        layout: String::from_str(DEFAULT_LAYOUT),
        date: now.date.clone(),
        description: String::new(),
        statut: String::from_str(DEFAULT_STATUT),
        tags,
        updated: now.updated.clone(),
        archived: false,
    };
    proof {
        reveal_strlit("");
        assert(""@ =~= Seq::<char>::empty());
    }
    let content = build_content(&frontmatter, "");
    StoreChange {
        detail: NoteDetail {
            metadata: metadata_from_frontmatter(file_name, &frontmatter),
            content,
        },
        write: true,
        remove: None,
    }
}

/// Makes a new note for `title`, with the date and time that the clock
/// gives. `names` are the names of the files in the notes directory.
pub fn create_note(title: &str, names: &Vec<String>) -> (r: StoreChange)
    ensures
        exists|now: TimestampView| now.usable() && r@ == created(title@, texts(names@), now),
{
    let now = current_timestamp();
    let r = create_note_at(title, names, &now);
    assert(now@.usable() && r@ == created(title@, texts(names@), now@));
    r
}

/// `f` with `updated` set to `stamp`.
pub open spec fn stamped(f: FrontmatterView, stamp: Seq<char>) -> FrontmatterView {
    FrontmatterView { updated: stamp, ..f }
}

/// What is saved for the note `id`, whose file held `existing`, where the
/// new text holds the header `f` and `body`. The note gets the stamp `stamp`
/// if anything but the stamp differs and the new header did not change the
/// stamp itself. A changed title gives the note a new name: the first free one
/// for `prefix` and the new title's slug; the old file is then removed.
pub open spec fn saved(
    id: Seq<char>,
    existing: ParsedNoteView,
    f: FrontmatterView,
    body: Seq<char>,
    names: Seq<Seq<char>>,
    prefix: Seq<char>,
    stamp: Seq<char>,
) -> StoreChangeView {
    let changed = existing.body != body || stamped(existing.frontmatter, Seq::empty()) != stamped(
        f,
        Seq::empty(),
    );
    let g = if changed && f.updated == existing.frontmatter.updated {
        stamped(f, stamp)
    } else {
        f
    };
    let target = if g.title != existing.frontmatter.title {
        unique_name(names, filename_of(prefix, slug_of(g.title)), Some(id))
    } else {
        id
    };
    StoreChangeView {
        detail: NoteDetailView { metadata: metadata_of(target, g), content: content_text(g, body) },
        write: true,
        remove: if target != id {
            Some(id)
        } else {
            None
        },
    }
}

/// The prefix of a renamed note's file: the one found in its id, else the
/// one of the clock's reading.
pub open spec fn prefix_or(prefix: Option<Seq<char>>, now: TimestampView) -> Seq<char> {
    match prefix {
        Some(p) => p,
        None => prefix_text(now),
    }
}

/// What saving `content` as the note `id` gives: a failure where the note
/// is missing, where its file does not parse or where `content` does not;
/// else what is saved.
pub open spec fn save_plan(
    id: Seq<char>,
    state: FileStateView,
    content: Seq<char>,
    incoming: Result<FrontmatterView, Seq<char>>,
    names: Seq<Seq<char>>,
    prefix: Option<Seq<char>>,
    now: TimestampView,
) -> Result<StoreChangeView, Seq<char>> {
    match found_note(state) {
        Err(m) => Err(m),
        Ok(existing) => match parsed(content, incoming) {
            Err(m) => Err(m),
            Ok(p) => Ok(saved(id, existing, p.0, p.1, names, prefix_or(prefix, now), now.updated)),
        },
    }
}

fn same_but_stamp(a: &Frontmatter, b: &Frontmatter) -> (r: bool)
    ensures
        r == (stamped(a@, Seq::empty()) == stamped(b@, Seq::empty())),
{
    a.title == b.title && a.layout == b.layout && a.date == b.date && a.description
        == b.description && a.statut == b.statut && same_texts(&a.tags, &b.tags) && a.archived
        == b.archived
}

/// Saves `content` as the note `id`, given what was found at the note's
/// path, what decoding the header's text of `content` gave (`incoming`), the
/// names of the files in the notes directory, the prefix found in the id, and
/// the clock's reading.
pub fn plan_save(
    id: &str,
    state: &FileState,
    content: &str,
    incoming: &Result<Frontmatter, String>,
    names: &Vec<String>,
    prefix: Option<String>,
    now: &Timestamp,
) -> (r: Result<StoreChange, NotesError>)
    ensures
        outcome(r) == save_plan(
            id@,
            state@,
            content@,
            decoded_view(*incoming),
            texts(names@),
            opt_text(prefix),
            now@,
        ),
{
    let existing = match find_note(state) {
        Ok(p) => p,
        Err(e) => { return Err(e); },
    };
    let (mut frontmatter, body) = match parse_frontmatter(content, incoming) {
        Ok(p) => p,
        Err(e) => { return Err(e); },
    };
    let ghost f = frontmatter@;
    let content_changed = existing.body != body || !same_but_stamp(
        &existing.frontmatter,
        &frontmatter,
    );
    if content_changed && frontmatter.updated == existing.frontmatter.updated {
        frontmatter.updated = now.updated.clone();
    }
    let prefix = match prefix {
        Some(p) => p,
        None => prefix_of(now),
    };
    let renamed = frontmatter.title != existing.frontmatter.title;
    let target_name = if renamed {
        let slug = slugify_title(frontmatter.title.as_str());
        let base = build_filename(prefix.as_str(), slug.as_str());
        ensure_unique_filename(names, base.as_str(), Some(id))
    } else {
        String::from_str(id)
    };
    let normalized_content = build_content(&frontmatter, body.as_str());
    let remove = if same_text(target_name.as_str(), id) {
        None
    } else {
        Some(String::from_str(id))
    };
    Ok(
        StoreChange {
            detail: NoteDetail {
                metadata: metadata_from_frontmatter(target_name, &frontmatter),
                content: normalized_content,
            },
            write: true,
            remove,
        },
    )
}

/// What `save_note` gives: the failure of the id or of its path, else what
/// saving gives.
pub open spec fn save_outcome(
    fault: Option<Seq<char>>,
    plan: Result<StoreChangeView, Seq<char>>,
) -> Result<StoreChangeView, Seq<char>> {
    match fault {
        Some(m) => Err(m),
        None => plan,
    }
}

/// Saves `content` as the note `id` of `notes_dir`. `resolution` and `state`
/// are what resolving the note's path and reading it gave, `incoming` is
/// what decoding the header's text of `content` gave, and `names` are the
/// names of the files in the notes directory. An id that is no note id, or
/// whose path leaves the notes directory, is refused whatever was read. The
/// stamp comes from the clock.
pub fn save_note(
    notes_dir: &str,
    id: &str,
    content: &str,
    resolution: &PathResolution,
    state: &FileState,
    incoming: &Result<Frontmatter, String>,
    names: &Vec<String>,
) -> (r: Result<StoreChange, NotesError>)
    ensures
        exists|now: TimestampView|
            now.usable() && outcome(r) == save_outcome(
                safe_path_fault(notes_dir@, id@, resolution@),
                save_plan(
                    id@,
                    state@,
                    content@,
                    decoded_view(*incoming),
                    texts(names@),
                    prefix_from(prefix_group(id@)),
                    now,
                ),
            ),
{
    let checked = safe_note_path(notes_dir, id, resolution);
    let now = current_timestamp();
    let r = match checked {
        Ok(_) => plan_save(id, state, content, incoming, names, extract_prefix(id), &now),
        Err(e) => Err(e),
    };
    assert(now@.usable() && outcome(r) == save_outcome(
        safe_path_fault(notes_dir@, id@, resolution@),
        save_plan(
            id@,
            state@,
            content@,
            decoded_view(*incoming),
            texts(names@),
            prefix_from(prefix_group(id@)),
            now@,
        ),
    ));
    r
}

/// What setting the flag of the note `id` gives: a failure where the note
/// is missing or its file does not parse; the note as it is, and nothing to
/// write, where the flag is set already; else the note with the flag and a new
/// stamp, to be written in place.
pub open spec fn archive_plan(
    id: Seq<char>,
    state: FileStateView,
    archived: bool,
    now: TimestampView,
) -> Result<StoreChangeView, Seq<char>> {
    match found_note(state) {
        Err(m) => Err(m),
        Ok(existing) => if existing.frontmatter.archived == archived {
            Ok(
                StoreChangeView {
                    detail: NoteDetailView {
                        metadata: metadata_of(id, existing.frontmatter),
                        content: existing.raw,
                    },
                    write: false,
                    remove: None,
                },
            )
        } else {
            let g = FrontmatterView { archived, updated: now.updated, ..existing.frontmatter };
            Ok(
                StoreChangeView {
                    detail: NoteDetailView {
                        metadata: metadata_of(id, g),
                        content: content_text(g, existing.body),
                    },
                    write: true,
                    remove: None,
                },
            )
        },
    }
}

/// Sets the archive flag of the note `id`, given what was found at the
/// note's path and the clock's reading.
pub fn plan_archive(id: &str, state: &FileState, archived: bool, now: &Timestamp) -> (r: Result<
    StoreChange,
    NotesError,
>)
    ensures
        outcome(r) == archive_plan(id@, state@, archived, now@),
{
    let existing = match find_note(state) {
        Ok(p) => p,
        Err(e) => { return Err(e); },
    };
    let mut frontmatter = existing.frontmatter.duplicate();
    if frontmatter.archived == archived {
        return Ok(
            StoreChange {
                detail: NoteDetail {
                    metadata: metadata_from_frontmatter(String::from_str(id), &frontmatter),
                    content: existing.raw,
                },
                write: false,
                remove: None,
            },
        );
    }
    frontmatter.archived = archived;
    frontmatter.updated = now.updated.clone();
    let normalized_content = build_content(&frontmatter, existing.body.as_str());
    Ok(
        StoreChange {
            detail: NoteDetail {
                metadata: metadata_from_frontmatter(String::from_str(id), &frontmatter),
                content: normalized_content,
            },
            write: true,
            remove: None,
        },
    )
}

/// Sets the archive flag of the note `id` of `notes_dir`. `resolution` and
/// `state` are what resolving the note's path and reading it gave. An id that
/// is no note id, or whose path leaves the notes directory, is refused
/// whatever was read. The stamp comes from the clock.
pub fn set_archived(
    notes_dir: &str,
    id: &str,
    archived: bool,
    resolution: &PathResolution,
    state: &FileState,
) -> (r: Result<StoreChange, NotesError>)
    ensures
        exists|now: TimestampView|
            now.usable() && outcome(r) == save_outcome(
                safe_path_fault(notes_dir@, id@, resolution@),
                archive_plan(id@, state@, archived, now),
            ),
{
    let checked = safe_note_path(notes_dir, id, resolution);
    let now = current_timestamp();
    let r = match checked {
        Ok(_) => plan_archive(id, state, archived, &now),
        Err(e) => Err(e),
    };
    assert(now@.usable() && outcome(r) == save_outcome(
        safe_path_fault(notes_dir@, id@, resolution@),
        archive_plan(id@, state@, archived, now@),
    ));
    r
}

/// A file of the notes directory: its name, and what reading its text
/// gave: the text, or the reason why it could not be read.
#[derive(Debug)]
pub struct NoteFile {
    pub name: String,
    pub read: Result<NoteSource, String>,
}

/// What a `NoteFile` holds, as plain sequences.
pub struct NoteFileView {
    pub name: Seq<char>,
    pub read: Result<NoteSourceView, Seq<char>>,
}

impl View for NoteFile {
    type V = NoteFileView;

    open spec fn view(&self) -> NoteFileView {
        NoteFileView { name: self.name@, read: read_view(self.read) }
    }
}

/// The models of the files of `v`, in order.
pub open spec fn file_views(v: Seq<NoteFile>) -> Seq<NoteFileView> {
    v.map_values(|f: NoteFile| f@)
}

/// The models of the entries of `v`, in order.
pub open spec fn entry_views(v: Seq<NoteIndexEntry>) -> Seq<NoteIndexEntryView> {
    v.map_values(|e: NoteIndexEntry| e@)
}

/// The entry of the note `id` that was parsed to `p`.
pub open spec fn entry_of(id: Seq<char>, p: ParsedNoteView) -> NoteIndexEntryView {
    NoteIndexEntryView { metadata: metadata_of(id, p.frontmatter), body: p.body }
}

/// The entries of the notes among `files`, in the order of the files. A
/// file without the extension of a note is passed over. The first note that
/// cannot be read makes the whole a failure.
pub open spec fn collected(files: Seq<NoteFileView>) -> Result<Seq<NoteIndexEntryView>, Seq<char>>
    decreases files.len(),
{
    if files.len() == 0 {
        Ok(Seq::empty())
    } else {
        match collected(files.drop_last()) {
            Err(m) => Err(m),
            Ok(entries) => {
                let f = files.last();
                if !has_note_extension(f.name) {
                    Ok(entries)
                } else {
                    match read_note(f.read) {
                        Err(m) => Err(m),
                        Ok(p) => Ok(entries.push(entry_of(f.name, p))),
                    }
                }
            },
        }
    }
}

fn is_note_name(name: &str) -> (r: bool)
    ensures
        r == has_note_extension(name@),
{
    let chars = chars_of(name);
    chars.len() > 3 && has_suffix(&chars, &chars_of(".md"))
}

/// Reads every note of the notes directory, in the order of `files`. One
/// note that cannot be read fails the whole.
pub fn list_note_entries(files: &Vec<NoteFile>) -> (r: Result<Vec<NoteIndexEntry>, NotesError>)
    ensures
        match r {
            Ok(v) => collected(file_views(files@)) == Ok::<Seq<NoteIndexEntryView>, Seq<char>>(
                entry_views(v@),
            ),
            Err(e) => collected(file_views(files@)) == Err::<Seq<NoteIndexEntryView>, Seq<char>>(
                e@,
            ),
        },
{
    let ghost all = file_views(files@);
    let mut notes: Vec<NoteIndexEntry> = Vec::new();
    let mut i: usize = 0;
    assert(all.take(0) =~= Seq::<NoteFileView>::empty());
    assert(entry_views(notes@) =~= Seq::<NoteIndexEntryView>::empty());
    while i < files.len()
        invariant
            i <= files.len(),
            all == file_views(files@),
            collected(all.take(i as int)) == Ok::<Seq<NoteIndexEntryView>, Seq<char>>(
                entry_views(notes@),
            ),
        decreases files.len() - i,
    {
        let file = &files[i];
        proof {
            let next = all.take(i + 1);
            assert(next.drop_last() =~= all.take(i as int));
            assert(next.last() == file@);
        }
        if is_note_name(file.name.as_str()) {
            match read_note_file(&file.read) {
                Ok(p) => {
                    let ghost before = entry_views(notes@);
                    let entry = NoteIndexEntry {
                        metadata: metadata_from_frontmatter(file.name.clone(), &p.frontmatter),
                        body: p.body,
                    };
                    notes.push(entry);
                    assert(entry_views(notes@) =~= before.push(entry@));
                },
                Err(e) => {
                    proof {
                        lemma_collected_fails(all, i + 1);
                    }
                    return Err(e);
                },
            }
        }
        i += 1;
    }
    assert(all.take(files.len() as int) =~= all);
    Ok(notes)
}

/// A failure among the first files is the failure of the whole.
pub proof fn lemma_collected_fails(files: Seq<NoteFileView>, n: int)
    requires
        0 <= n <= files.len(),
        collected(files.take(n)) is Err,
    ensures
        collected(files) == collected(files.take(n)),
    decreases files.len() - n,
{
    if n < files.len() {
        let next = files.take(n + 1);
        assert(next.drop_last() =~= files.take(n));
        lemma_collected_fails(files, n + 1);
    } else {
        assert(files.take(n) =~= files);
    }
}

/// The metadata of `entries`, each with the date that `key` reads from its
/// `date`.
pub open spec fn dated_entries(
    entries: Seq<NoteIndexEntryView>,
    key: spec_fn(Seq<char>) -> Option<(i32, u32)>,
) -> Seq<Dated> {
    entries.map_values(
        |e: NoteIndexEntryView| Dated { key: key(e.metadata.date), note: e.metadata },
    )
}

/// The date that a note's `date` stands for, as the calendar reads it.
pub open spec fn date_key(date: Seq<char>) -> Option<(i32, u32)> {
    parsed_date(date, date_format())
}

/// The listing of the notes among `files`: their metadata, newest date
/// first, and among notes of one date the title that stands last in the order
/// of texts first. The first note that cannot be read makes it a failure.
pub open spec fn listing(files: Seq<NoteFileView>) -> Result<Seq<NoteMetadataView>, Seq<char>> {
    match collected(files) {
        Err(m) => Err(m),
        Ok(entries) => Ok(listed(dated_entries(entries, |d: Seq<char>| date_key(d)))),
    }
}

/// Lists the notes of the notes directory, given its files. One note that
/// cannot be read fails the whole listing.
pub fn list_notes(files: &Vec<NoteFile>) -> (r: Result<Vec<NoteMetadata>, NotesError>)
    ensures
        match r {
            Ok(v) => listing(file_views(files@)) == Ok::<Seq<NoteMetadataView>, Seq<char>>(
                note_views(v@),
            ),
            Err(e) => listing(file_views(files@)) == Err::<Seq<NoteMetadataView>, Seq<char>>(e@),
        },
{
    let entries = match list_note_entries(files) {
        Ok(v) => v,
        Err(e) => { return Err(e); },
    };
    let ghost all = entry_views(entries@);
    let ghost key = |d: Seq<char>| date_key(d);
    let mut items: Vec<DatedNote> = Vec::new();
    let mut i: usize = 0;
    while i < entries.len()
        invariant
            i <= entries.len(),
            items.len() == i,
            forall|k: int|
                0 <= k < i ==> (#[trigger] items@[k])@ == (Dated {
                    key: date_key(entries@[k]@.metadata.date),
                    note: entries@[k]@.metadata,
                }),
        decreases entries.len() - i,
    {
        let note = entries[i].metadata.duplicate();
        let key = parse_date_with(note.date.as_str(), DATE_FORMAT);
        items.push(DatedNote { key, note });
        i += 1;
    }
    assert(dated_views(items@) =~= dated_entries(all, key));
    Ok(sort_notes(&items))
}

/// What the index takes of the note at a path: nothing where no file is
/// there or the path names no note, else the note's entry, or the failure of
/// reading it.
pub open spec fn entry_for(id: Option<Seq<char>>, state: FileStateView) -> Result<
    Option<NoteIndexEntryView>,
    Seq<char>,
> {
    match state {
        FileStateView::Missing => Ok(None),
        _ => match id {
            None => Ok(None),
            Some(name) => match found_note(state) {
                Err(m) => Err(m),
                Ok(p) => Ok(Some(entry_of(name, p))),
            },
        },
    }
}

/// The model of an entry that may be there.
pub open spec fn opt_entry(e: Option<NoteIndexEntry>) -> Option<NoteIndexEntryView> {
    match e {
        Some(x) => Some(x@),
        None => None,
    }
}

/// The model of what looking for an entry gave.
pub open spec fn entry_outcome(r: Result<Option<NoteIndexEntry>, NotesError>) -> Result<
    Option<NoteIndexEntryView>,
    Seq<char>,
> {
    match r {
        Ok(e) => Ok(opt_entry(e)),
        Err(e) => Err(e@),
    }
}

/// Makes the entry of the note that a path names, given the note id that
/// the path gives and what was found at the path.
pub fn note_entry_for(id: Option<String>, state: &FileState) -> (r: Result<
    Option<NoteIndexEntry>,
    NotesError,
>)
    ensures
        entry_outcome(r) == entry_for(opt_text(id), state@),
{
    match state {
        FileState::Missing => { return Ok(None); },
        _ => {},
    }
    let name = match id {
        Some(n) => n,
        None => { return Ok(None); },
    };
    match find_note(state) {
        Ok(p) => Ok(
            Some(
                NoteIndexEntry {
                    metadata: metadata_from_frontmatter(name, &p.frontmatter),
                    body: p.body,
                },
            ),
        ),
        Err(e) => Err(e),
    }
}

/// Makes the entry of the note at `path`, given what was found there.
/// Nothing comes of a path that is gone or that names no note.
pub fn note_entry_from_path(path: &str, state: &FileState) -> (r: Result<
    Option<NoteIndexEntry>,
    NotesError,
>)
    ensures
        entry_outcome(r) == entry_for(note_id_of(path_file_name(path@)), state@),
{
    match state {
        FileState::Missing => Ok(None),
        _ => note_entry_for(note_id_from_path(path), state),
    }
}

} // verus!
