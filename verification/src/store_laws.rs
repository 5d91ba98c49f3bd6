//! What holds of the store's operations taken together: what is written is
//! read back, and what is done twice is done once.

use vstd::prelude::*;
use crate::clock::TimestampView;
use crate::filename::{
    candidate, filename_of, is_first_free, is_free, lemma_unique_name, slug_of, suffixed,
    unique_name,
};
use crate::frontmatter::{
    content_text, frontmatter_fault, frames_cleanly, law_round_trip, lemma_one_line_fields_frame,
    lemma_written_frames, one_line_fields, parsed, plain_text, FrontmatterView,
};
use crate::models::{NoteDetailView, NoteMetadataView};
use crate::note_id::{prefix_text, safe_path_fault, valid_note_id, PathResolutionView};
use crate::notes_fs::{
    archive_plan, created, found_note, got, metadata_of, new_frontmatter, opened, save_outcome,
    save_plan, stamped, FileStateView, NoteSourceView, ParsedNoteView, StoreChangeView,
};
use crate::text::{is_blank, join, lines, single_line};

verus! {

/// The header that metadata was made of.
pub open spec fn frontmatter_of(m: NoteMetadataView) -> FrontmatterView {
    FrontmatterView {
        title: m.title,
        layout: m.layout,
        date: m.date,
        description: m.description,
        statut: m.statut,
        tags: m.tags,
        updated: m.updated,
        archived: m.archived,
    }
}

/// What is found at a note's path after `change`, where `state` was found
/// there before: the content that was written, which decodes to the fields
/// that were written; or what was there, where nothing was written.
pub open spec fn state_after(state: FileStateView, change: StoreChangeView) -> FileStateView {
    if change.write {
        FileStateView::Read(
            NoteSourceView {
                raw: change.detail.content,
                decoded: Ok(frontmatter_of(change.detail.metadata)),
            },
        )
    } else {
        state
    }
}

/// An id that is no note id is refused by every operation that takes one,
/// with the id's fault, whatever the notes directory holds.
pub proof fn law_invalid_id_refused(
    notes_dir: Seq<char>,
    id: Seq<char>,
    resolution: PathResolutionView,
    state: FileStateView,
    plan: Result<StoreChangeView, Seq<char>>,
)
    requires
        !valid_note_id(id),
    ensures
        safe_path_fault(notes_dir, id, resolution) is Some,
        got(safe_path_fault(notes_dir, id, resolution), id, state) is Err,
        save_outcome(safe_path_fault(notes_dir, id, resolution), plan) is Err,
{
}

/// Setting the archive flag twice is setting it once: the second call
/// returns the note that the first returned, with the same stamp, and writes
/// nothing.
pub proof fn law_archive_idempotent(
    id: Seq<char>,
    state: FileStateView,
    archived: bool,
    first: TimestampView,
    second: TimestampView,
)
    requires
        first.usable(),
    ensures
        match archive_plan(id, state, archived, first) {
            Err(_) => true,
            Ok(change) => archive_plan(id, state_after(state, change), archived, second) == Ok::<
                StoreChangeView,
                Seq<char>,
            >(StoreChangeView { detail: change.detail, write: false, remove: None }),
        },
{
    match archive_plan(id, state, archived, first) {
        Err(_) => {},
        Ok(change) => {
            let existing = found_note(state)->Ok_0;
            if change.write {
                let g = FrontmatterView {
                    archived,
                    updated: first.updated,
                    ..existing.frontmatter
                };
                assert(frontmatter_of(change.detail.metadata) == g);
                lemma_written_frames(g, existing.body);
                assert(frontmatter_fault(existing.frontmatter) is None);
                assert(frontmatter_fault(g) is None);
            }
        },
    }
}

/// Two notes that are made for one title within one minute get two names:
/// the second is not the first, and carries a number.
pub proof fn law_created_twice(title: Seq<char>, names: Seq<Seq<char>>, now: TimestampView)
    ensures
        ({
            let first = created(title, names, now).detail.metadata.id;
            let second = created(title, names.push(first), now).detail.metadata.id;
            &&& !names.contains(first)
            &&& second != first
            &&& exists|n: nat|
                n >= 2 && second == suffixed(filename_of(prefix_text(now), slug_of(title)), n)
        }),
{
    let base = filename_of(prefix_text(now), slug_of(title));
    let first = unique_name(names, base, None);
    let after = names.push(first);
    let second = unique_name(after, base, None);
    lemma_unique_name(names, base, None);
    lemma_unique_name(after, base, None);
    assert(after[names.len() as int] == first);
    assert(after.contains(first));
    let n = choose|n: nat| is_first_free(after, base, None, n) && second == candidate(base, n);
    if n <= 1 {
        assert(second == base);
        assert(!after.contains(base));
        if names.contains(base) {
            let i = choose|i: int| 0 <= i < names.len() && names[i] == base;
            assert(after[i] == base);
        }
        let m = choose|m: nat|
            is_first_free(names, base, None, m) && first == candidate(base, m);
        if m > 1 {
            assert(!is_free(names, None, candidate(base, 1)));
        }
        assert(first == base);
    }
    assert(n >= 2 && second == suffixed(base, n));
}

/// What the store writes, it reads back: where the fields of `f` obey the
/// rules, the header is framed as it is written, and `body` is the text that
/// its lines make, the file written for them opens as the note that was
/// written.
pub proof fn law_written_note_opens(id: Seq<char>, f: FrontmatterView, body: Seq<char>)
    requires
        frontmatter_fault(f) is None,
        frames_cleanly(f),
        plain_text(body),
    ensures
        ({
            let raw = content_text(f, body);
            let state = FileStateView::Read(NoteSourceView { raw, decoded: Ok(f) });
            &&& found_note(state) == Ok::<ParsedNoteView, Seq<char>>(
                ParsedNoteView { frontmatter: f, body, raw },
            )
            &&& opened(id, state) == Ok::<NoteDetailView, Seq<char>>(
                NoteDetailView { metadata: metadata_of(id, f), content: raw },
            )
        }),
{
    law_round_trip(f, body);
}

/// A note that was made can be opened: where the title is not blank and
/// holds no line break, the file written for the new note opens as the note
/// that `create` returned.
pub proof fn law_created_note_opens(title: Seq<char>, names: Seq<Seq<char>>, now: TimestampView)
    requires
        !is_blank(title),
        single_line(title),
        now.usable(),
    ensures
        ({
            let change = created(title, names, now);
            opened(change.detail.metadata.id, state_after(FileStateView::Missing, change)) == Ok::<
                NoteDetailView,
                Seq<char>,
            >(change.detail)
        }),
{
    reveal_strlit("note.njk");
    reveal_strlit("idee");
    reveal_strlit("\n");
    let f = new_frontmatter(title, now);
    let change = created(title, names, now);
    let empty = Seq::<char>::empty();
    assert(frontmatter_of(change.detail.metadata) == f);
    assert(single_line(empty));
    assert(lines(empty) =~= Seq::<Seq<char>>::empty());
    assert(join(Seq::<Seq<char>>::empty(), "\n"@) =~= empty);
    lemma_one_line_fields_frame(f);
    law_written_note_opens(change.detail.metadata.id, f, empty);
}

/// A note that was saved can be opened: where the header of the saved text
/// holds no line breaks and its body is the text that its lines make, the file
/// written by the save opens as the note that the save returned.
pub proof fn law_saved_note_opens(
    id: Seq<char>,
    state: FileStateView,
    content: Seq<char>,
    incoming: Result<FrontmatterView, Seq<char>>,
    names: Seq<Seq<char>>,
    prefix: Option<Seq<char>>,
    now: TimestampView,
)
    requires
        now.usable(),
        save_plan(id, state, content, incoming, names, prefix, now) is Ok,
        one_line_fields(parsed(content, incoming)->Ok_0.0),
        plain_text(parsed(content, incoming)->Ok_0.1),
    ensures
        ({
            let change = save_plan(id, state, content, incoming, names, prefix, now)->Ok_0;
            opened(change.detail.metadata.id, state_after(state, change)) == Ok::<
                NoteDetailView,
                Seq<char>,
            >(change.detail)
        }),
{
    let change = save_plan(id, state, content, incoming, names, prefix, now)->Ok_0;
    let p = parsed(content, incoming)->Ok_0;
    let g = frontmatter_of(change.detail.metadata);
    assert(g == p.0 || g == stamped(p.0, now.updated));
    assert(frontmatter_fault(p.0) is None);
    lemma_one_line_fields_frame(g);
    law_written_note_opens(change.detail.metadata.id, g, p.1);
}

} // verus!
