//! The full-text index as a mirror of the store: the rows that notes are
//! written as, and the commands that bring the index up to date.

use vstd::prelude::*;
use crate::frontmatter::bool_text;
use crate::listing::{lemma_sort_keeps, sort_dated};
use crate::models::NoteMetadataView;
use crate::note_id::{note_id_from_path, note_id_of, opt_text};
use crate::notes_fs::{
    collected, date_key, dated_entries, entry_for, entry_outcome, entry_views, file_views,
    list_note_entries, listing, note_entry_from_path, FileState, NoteFile, NoteFileView,
    NoteIndexEntry, NoteIndexEntryView, NotesError,
};
use crate::filename::text_of;
use crate::paths::{join_path, path_file_name, path_join};
use crate::text::{join, join_texts};

verus! {

/// A failure of the indexer, with its description.
#[derive(Debug)]
pub struct IndexerError {
    details: String,
}

impl View for IndexerError {
    type V = Seq<char>;

    closed spec fn view(&self) -> Seq<char> {
        self.details@
    }
}

impl IndexerError {
    /// A failure described by `details`.
    pub fn new(details: &str) -> (e: Self)
        ensures
            e@ == details@,
    {
        IndexerError { details: String::from_str(details) }
    }

    /// The description.
    pub fn message(&self) -> (s: String)
        ensures
            s@ == self@,
    {
        self.details.clone()
    }
}

/// Where the index lies under the home directory `home`: the path of its
/// one file, or a failure where no home directory is known.
pub open spec fn index_path(home: Option<Seq<char>>) -> Result<Seq<char>, Seq<char>> {
    match home {
        None => Err("HOME not set"@),
        Some(h) => Ok(
            path_join(
                path_join(path_join(path_join(h, ".local"@), "share"@), "velocitext"@),
                "velocitext.db"@,
            ),
        ),
    }
}

/// The path of the index's file, given the home directory.
pub fn db_path(home: Option<&str>) -> (r: Result<String, IndexerError>)
    ensures
        match r {
            Ok(p) => index_path(text_of(home)) == Ok::<Seq<char>, Seq<char>>(p@),
            Err(e) => index_path(text_of(home)) == Err::<Seq<char>, Seq<char>>(e@),
        },
{
    match home {
        None => Err(IndexerError::new("HOME not set")),
        Some(h) => {
            let local = join_path(h, ".local");
            let share = join_path(local.as_str(), "share");
            let dir = join_path(share.as_str(), "velocitext");
            Ok(join_path(dir.as_str(), "velocitext.db"))
        },
    }
}

/// A note as the index stores it: every column is text.
#[derive(Debug, Clone)]
pub struct IndexRow {
    pub id: String,
    pub title: String,
    pub layout: String,
    pub date: String,
    pub description: String,
    pub statut: String,
    /// The tags, joined by a comma and a space.
    pub tags: String,
    pub updated: String,
    /// The flag, as `true` or `false`.
    pub archived: String,
    pub body: String,
}

/// What an `IndexRow` holds, as plain sequences.
pub struct IndexRowView {
    pub id: Seq<char>,
    pub title: Seq<char>,
    pub layout: Seq<char>,
    pub date: Seq<char>,
    pub description: Seq<char>,
    pub statut: Seq<char>,
    pub tags: Seq<char>,
    pub updated: Seq<char>,
    pub archived: Seq<char>,
    pub body: Seq<char>,
}

impl View for IndexRow {
    type V = IndexRowView;

    open spec fn view(&self) -> IndexRowView {
        IndexRowView {
            id: self.id@,
            title: self.title@,
            layout: self.layout@,
            date: self.date@,
            description: self.description@,
            statut: self.statut@,
            tags: self.tags@,
            updated: self.updated@,
            archived: self.archived@,
            body: self.body@,
        }
    }
}

/// The row that `entry` is stored as.
pub open spec fn row_of(entry: NoteIndexEntryView) -> IndexRowView {
    IndexRowView {
        id: entry.metadata.id,
        title: entry.metadata.title,
        layout: entry.metadata.layout,
        date: entry.metadata.date,
        description: entry.metadata.description,
        statut: entry.metadata.statut,
        tags: join(entry.metadata.tags, ", "@),
        updated: entry.metadata.updated,
        archived: bool_text(entry.metadata.archived),
        body: entry.body,
    }
}

/// Makes the row that `entry` is stored as: the tags are joined by a comma
/// and a space, and the flag is written as `true` or `false`.
pub fn index_row(entry: &NoteIndexEntry) -> (row: IndexRow)
    ensures
        row@ == row_of(entry@),
{
    IndexRow {
        id: entry.metadata.id.clone(),
        title: entry.metadata.title.clone(),
        layout: entry.metadata.layout.clone(),
        date: entry.metadata.date.clone(),
        description: entry.metadata.description.clone(),
        statut: entry.metadata.statut.clone(),
        tags: join_texts(&entry.metadata.tags, ", "),
        updated: entry.metadata.updated.clone(),
        archived: String::from_str(
            if entry.metadata.archived {
                "true"
            } else {
                "false"
            },
        ),
        body: entry.body.clone(),
    }
}

/// One step of bringing the index up to date.
#[derive(Debug, Clone)]
pub enum IndexCommand {
    /// Create the table of notes unless it is there.
    EnsureSchema,
    /// Take every row out.
    Clear,
    /// Take out every row of this id.
    Delete(String),
    /// Put this row in.
    Insert(IndexRow),
}

/// What an `IndexCommand` holds, as plain sequences.
pub enum IndexCommandView {
    EnsureSchema,
    Clear,
    Delete(Seq<char>),
    Insert(IndexRowView),
}

impl View for IndexCommand {
    type V = IndexCommandView;

    open spec fn view(&self) -> IndexCommandView {
        match self {
            IndexCommand::EnsureSchema => IndexCommandView::EnsureSchema,
            IndexCommand::Clear => IndexCommandView::Clear,
            IndexCommand::Delete(id) => IndexCommandView::Delete(id@),
            IndexCommand::Insert(row) => IndexCommandView::Insert(row@),
        }
    }
}

/// The models of the commands of `v`, in order.
pub open spec fn command_views(v: Seq<IndexCommand>) -> Seq<IndexCommandView> {
    v.map_values(|c: IndexCommand| c@)
}

/// The commands to run against the index, in order, and what the operation
/// returns once they have run. A command that fails ends the run, and its
/// failure is returned in place of `result`.
#[derive(Debug)]
pub struct IndexPlan {
    pub commands: Vec<IndexCommand>,
    pub result: Result<(), IndexerError>,
}

/// What an `IndexPlan` holds, as plain sequences: `result` is the failure's
/// message, if any.
pub struct IndexPlanView {
    pub commands: Seq<IndexCommandView>,
    pub result: Option<Seq<char>>,
}

impl View for IndexPlan {
    type V = IndexPlanView;

    open spec fn view(&self) -> IndexPlanView {
        IndexPlanView {
            commands: command_views(self.commands@),
            result: match self.result {
                Ok(_) => None,
                Err(e) => Some(e@),
            },
        }
    }
}

/// The rows of `rows` that are not of the note `id`, in their order.
pub open spec fn without_id(rows: Seq<IndexRowView>, id: Seq<char>) -> Seq<IndexRowView> {
    rows.filter(|r: IndexRowView| r.id != id)
}

/// The rows of the index after `command`.
pub open spec fn applied(rows: Seq<IndexRowView>, command: IndexCommandView) -> Seq<IndexRowView> {
    match command {
        IndexCommandView::EnsureSchema => rows,
        IndexCommandView::Clear => Seq::empty(),
        IndexCommandView::Delete(id) => without_id(rows, id),
        IndexCommandView::Insert(row) => rows.push(row),
    }
}

/// The rows of the index after `commands`, run in order.
pub open spec fn applied_all(rows: Seq<IndexRowView>, commands: Seq<IndexCommandView>) -> Seq<
    IndexRowView,
>
    decreases commands.len(),
{
    if commands.len() == 0 {
        rows
    } else {
        applied(applied_all(rows, commands.drop_last()), commands.last())
    }
}

/// The commands that put `entries` in, in order.
pub open spec fn inserts(entries: Seq<NoteIndexEntryView>) -> Seq<IndexCommandView> {
    entries.map_values(|e: NoteIndexEntryView| IndexCommandView::Insert(row_of(e)))
}

/// The model of what reading the notes directory gave.
pub open spec fn files_view(files: Result<Vec<NoteFile>, NotesError>) -> Result<
    Seq<NoteFileView>,
    Seq<char>,
> {
    match files {
        Ok(v) => Ok(file_views(v@)),
        Err(e) => Err(e@),
    }
}

/// What reading every note gives, given what reading the directory gave.
pub open spec fn store_entries(files: Result<Seq<NoteFileView>, Seq<char>>) -> Result<
    Seq<NoteIndexEntryView>,
    Seq<char>,
> {
    match files {
        Ok(v) => collected(v),
        Err(m) => Err(m),
    }
}

/// The plan of a rebuild: the index is emptied; then every note of the
/// store is put in, or the failure of reading the store is returned.
pub open spec fn rebuild_plan(files: Result<Seq<NoteFileView>, Seq<char>>) -> IndexPlanView {
    let start = seq![IndexCommandView::EnsureSchema, IndexCommandView::Clear];
    match store_entries(files) {
        Ok(entries) => IndexPlanView { commands: start + inserts(entries), result: None },
        Err(m) => IndexPlanView { commands: start, result: Some("Read notes failed: "@ + m) },
    }
}

/// Appends `c` to `v`.
fn push_command(v: &mut Vec<IndexCommand>, c: IndexCommand)
    ensures
        command_views(final(v)@) == command_views(old(v)@).push(c@),
{
    let ghost before = command_views(v@);
    v.push(c);
    assert(command_views(v@) =~= before.push(c@));
}

fn start_plan() -> (v: Vec<IndexCommand>)
    ensures
        command_views(v@) == Seq::<IndexCommandView>::empty(),
{
    let v: Vec<IndexCommand> = Vec::new();
    assert(command_views(v@) =~= Seq::<IndexCommandView>::empty());
    v
}

fn failure(context: &str, e: &NotesError) -> (r: IndexerError)
    ensures
        r@ == context@ + e@,
{
    let mut text = String::from_str(context);
    text.append(e.message().as_str());
    IndexerError::new(text.as_str())
}

/// Plans a rebuild of the index from the store, given what reading the
/// notes directory gave: its files, or the failure of reading it.
pub fn rebuild_index(files: &Result<Vec<NoteFile>, NotesError>) -> (plan: IndexPlan)
    ensures
        plan@ == rebuild_plan(files_view(*files)),
{
    let mut commands = start_plan();
    push_command(&mut commands, IndexCommand::EnsureSchema);
    push_command(&mut commands, IndexCommand::Clear);
    let ghost start = seq![IndexCommandView::EnsureSchema, IndexCommandView::Clear];
    assert(command_views(commands@) =~= start);
    let read = match files {
        Ok(v) => list_note_entries(v),
        Err(e) => Err(NotesError::new(e.message().as_str())),
    };
    match read {
        Ok(entries) => {
            let ghost all = entry_views(entries@);
            let mut i: usize = 0;
            assert(inserts(all.take(0)) =~= Seq::<IndexCommandView>::empty());
            assert(start + Seq::<IndexCommandView>::empty() =~= start);
            while i < entries.len()
                invariant
                    i <= entries.len(),
                    all == entry_views(entries@),
                    command_views(commands@) == start + inserts(all.take(i as int)),
                decreases entries.len() - i,
            {
                let row = index_row(&entries[i]);
                push_command(&mut commands, IndexCommand::Insert(row));
                i += 1;
                assert(command_views(commands@) =~= start + inserts(all.take(i as int)));
            }
            assert(all.take(entries.len() as int) =~= all);
            IndexPlan { commands, result: Ok(()) }
        },
        Err(e) => IndexPlan { commands, result: Err(failure("Read notes failed: ", &e)) },
    }
}

/// The plan of an upsert, given what looking for the note's entry gave:
/// nothing to do where there is no entry; else the rows of the note's id are
/// taken out and the entry's row is put in.
pub open spec fn upsert_plan(
    entry: Result<Option<NoteIndexEntryView>, Seq<char>>,
) -> IndexPlanView {
    match entry {
        Err(m) => IndexPlanView { commands: Seq::empty(), result: Some("Read note failed: "@ + m) },
        Ok(None) => IndexPlanView { commands: Seq::empty(), result: None },
        Ok(Some(e)) => IndexPlanView {
            commands: seq![
                IndexCommandView::EnsureSchema,
                IndexCommandView::Delete(e.metadata.id),
                IndexCommandView::Insert(row_of(e)),
            ],
            result: None,
        },
    }
}

/// Plans the upsert of a note, given what looking for its entry gave.
pub fn upsert_entry(entry: Result<Option<NoteIndexEntry>, NotesError>) -> (plan: IndexPlan)
    ensures
        plan@ == upsert_plan(entry_outcome(entry)),
{
    let mut commands = start_plan();
    match entry {
        Err(e) => IndexPlan { commands, result: Err(failure("Read note failed: ", &e)) },
        Ok(None) => IndexPlan { commands, result: Ok(()) },
        Ok(Some(e)) => {
            push_command(&mut commands, IndexCommand::EnsureSchema);
            push_command(&mut commands, IndexCommand::Delete(e.metadata.id.clone()));
            push_command(&mut commands, IndexCommand::Insert(index_row(&e)));
            assert(command_views(commands@) =~= upsert_plan(entry_outcome(entry)).commands);
            IndexPlan { commands, result: Ok(()) }
        },
    }
}

/// Plans the upsert of the note at `path`, given what was found there. A
/// path that is gone or that names no note leaves the index as it is.
pub fn upsert_note_by_path(path: &str, state: &FileState) -> (plan: IndexPlan)
    ensures
        plan@ == upsert_plan(entry_for(note_id_of(path_file_name(path@)), state@)),
{
    upsert_entry(note_entry_from_path(path, state))
}

/// The plan of a delete, given the note id that the path gives: nothing to
/// do without an id; else the rows of the id are taken out.
pub open spec fn delete_plan(id: Option<Seq<char>>) -> IndexPlanView {
    match id {
        None => IndexPlanView { commands: Seq::empty(), result: None },
        Some(i) => IndexPlanView {
            commands: seq![IndexCommandView::EnsureSchema, IndexCommandView::Delete(i)],
            result: None,
        },
    }
}

/// Plans the delete of a note, given the note id that its path gives.
pub fn delete_entry(id: Option<String>) -> (plan: IndexPlan)
    ensures
        plan@ == delete_plan(opt_text(id)),
{
    let mut commands = start_plan();
    match id {
        None => IndexPlan { commands, result: Ok(()) },
        Some(i) => {
            push_command(&mut commands, IndexCommand::EnsureSchema);
            push_command(&mut commands, IndexCommand::Delete(i));
            assert(command_views(commands@) =~= delete_plan(opt_text(id)).commands);
            IndexPlan { commands, result: Ok(()) }
        },
    }
}

/// Plans the delete of the note at `path`. The id comes from the path
/// alone: no file is read. A path that names no note leaves the index as it
/// is.
pub fn delete_note_by_path(path: &str) -> (plan: IndexPlan)
    ensures
        plan@ == delete_plan(note_id_of(path_file_name(path@))),
{
    delete_entry(note_id_from_path(path))
}

/// The ids of the rows of an index.
pub open spec fn row_ids(rows: Seq<IndexRowView>) -> Set<Seq<char>> {
    rows.map_values(|r: IndexRowView| r.id).to_set()
}

/// The ids of the notes of a listing.
pub open spec fn note_ids(notes: Seq<NoteMetadataView>) -> Set<Seq<char>> {
    notes.map_values(|m: NoteMetadataView| m.id).to_set()
}

/// After the commands of a rebuild the index holds the rows of the store's
/// entries and nothing else, whatever it held before.
pub proof fn lemma_rebuild_rows(rows: Seq<IndexRowView>, entries: Seq<NoteIndexEntryView>)
    ensures
        applied_all(
            rows,
            seq![IndexCommandView::EnsureSchema, IndexCommandView::Clear] + inserts(entries),
        ) == entries.map_values(|e: NoteIndexEntryView| row_of(e)),
    decreases entries.len(),
{
    let start = seq![IndexCommandView::EnsureSchema, IndexCommandView::Clear];
    let commands = start + inserts(entries);
    if entries.len() == 0 {
        assert(commands =~= start);
        assert(start.drop_last() =~= seq![IndexCommandView::EnsureSchema]);
        assert(seq![IndexCommandView::EnsureSchema].drop_last() =~= Seq::<
            IndexCommandView,
        >::empty());
        reveal_with_fuel(applied_all, 3);
        assert(applied_all(rows, start) =~= Seq::<IndexRowView>::empty());
        assert(entries.map_values(|e: NoteIndexEntryView| row_of(e)) =~= Seq::<
            IndexRowView,
        >::empty());
    } else {
        let front = entries.drop_last();
        lemma_rebuild_rows(rows, front);
        assert(commands.drop_last() =~= start + inserts(front));
        assert(commands.last() == IndexCommandView::Insert(row_of(entries.last())));
        assert(front.map_values(|e: NoteIndexEntryView| row_of(e)).push(row_of(entries.last()))
            =~= entries.map_values(|e: NoteIndexEntryView| row_of(e)));
    }
}

/// After a rebuild the index mirrors the store: where the store can be
/// read, the rebuild succeeds, and the index then holds as many rows as the
/// store's listing holds notes, under exactly the ids of the listing, whatever
/// it held before.
pub proof fn law_rebuild_mirrors_store(files: Seq<NoteFileView>, rows: Seq<IndexRowView>)
    requires
        collected(files) is Ok,
    ensures
        ({
            let plan = rebuild_plan(Ok(files));
            let after = applied_all(rows, plan.commands);
            let notes = listing(files)->Ok_0;
            &&& plan.result is None
            &&& listing(files) is Ok
            &&& after.len() == notes.len()
            &&& row_ids(after) == note_ids(notes)
        }),
{
    let entries = collected(files)->Ok_0;
    let plan = rebuild_plan(Ok(files));
    let after = applied_all(rows, plan.commands);
    let notes = listing(files)->Ok_0;
    lemma_rebuild_rows(rows, entries);
    let dated = dated_entries(
        entries,
        |d: Seq<char>| date_key(d),
    );
    let sorted = sort_dated(dated);
    lemma_sort_keeps(dated);
    let a = after.map_values(|r: IndexRowView| r.id);
    let b = notes.map_values(|m: NoteMetadataView| m.id);
    assert forall|id: Seq<char>| a.to_set().contains(id) <==> b.to_set().contains(id) by {
        if a.contains(id) {
            let i = choose|i: int| 0 <= i < a.len() && a[i] == id;
            assert(dated[i].note.id == id);
            assert(dated.contains(dated[i]));
            assert(sorted.contains(dated[i]));
            let j = choose|j: int| 0 <= j < sorted.len() && sorted[j] == dated[i];
            assert(b[j] == id);
        }
        if b.contains(id) {
            let j = choose|j: int| 0 <= j < b.len() && b[j] == id;
            assert(sorted[j].note.id == id);
            assert(sorted.contains(sorted[j]));
            assert(dated.contains(sorted[j]));
            let i = choose|i: int| 0 <= i < dated.len() && dated[i] == sorted[j];
            assert(a[i] == id);
        }
    }
    assert(a.to_set() =~= b.to_set());
}

proof fn lemma_kept_rows(rows: Seq<IndexRowView>, id: Seq<char>)
    ensures
        forall|i: int|
            0 <= i < without_id(rows, id).len() ==> (#[trigger] without_id(rows, id)[i]).id != id,
{
    let pred = |r: IndexRowView| r.id != id;
    assert forall|i: int| 0 <= i < without_id(rows, id).len() implies (#[trigger] without_id(
        rows,
        id,
    )[i]).id != id by {
        rows.lemma_filter_pred(pred, i);
    }
}

/// An upsert leaves one row for the note: the rows of other ids stay as
/// they are, in their order, and the note's new row follows them.
pub proof fn law_upsert_replaces_rows(rows: Seq<IndexRowView>, entry: NoteIndexEntryView)
    ensures
        ({
            let after = applied_all(rows, upsert_plan(Ok(Some(entry))).commands);
            let id = entry.metadata.id;
            &&& after == without_id(rows, id).push(row_of(entry))
            &&& forall|i: int| 0 <= i < after.len() - 1 ==> (#[trigger] after[i]).id != id
            &&& after.last() == row_of(entry)
        }),
{
    let id = entry.metadata.id;
    let commands = upsert_plan(Ok(Some(entry))).commands;
    let kept = without_id(rows, id);
    assert(commands.drop_last() =~= seq![
        IndexCommandView::EnsureSchema,
        IndexCommandView::Delete(id),
    ]);
    assert(commands.drop_last().drop_last() =~= seq![IndexCommandView::EnsureSchema]);
    assert(commands.drop_last().drop_last().drop_last() =~= Seq::<IndexCommandView>::empty());
    reveal_with_fuel(applied_all, 4);
    assert(applied_all(rows, commands) == kept.push(row_of(entry)));
    lemma_kept_rows(rows, id);
}

/// A delete leaves no row of the note: the rows of other ids stay as they
/// are, in their order.
pub proof fn law_delete_removes_rows(rows: Seq<IndexRowView>, id: Seq<char>)
    ensures
        ({
            let after = applied_all(rows, delete_plan(Some(id)).commands);
            &&& after == without_id(rows, id)
            &&& forall|i: int| 0 <= i < after.len() ==> (#[trigger] after[i]).id != id
        }),
{
    let commands = delete_plan(Some(id)).commands;
    assert(commands.drop_last() =~= seq![IndexCommandView::EnsureSchema]);
    assert(commands.drop_last().drop_last() =~= Seq::<IndexCommandView>::empty());
    reveal_with_fuel(applied_all, 3);
    lemma_kept_rows(rows, id);
}

} // verus!
