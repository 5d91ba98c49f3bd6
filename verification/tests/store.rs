use velocitext::clock::{current_timestamp, Timestamp};
use velocitext::frontmatter::{build_content, Frontmatter};
use velocitext::note_id::{extract_prefix, validate_note_id, PathResolution};
use velocitext::notes_fs::{
    create_note, create_note_at, get_note, list_note_entries, list_notes, metadata_from_frontmatter,
    note_entry_for, note_entry_from_path, open_note, plan_archive, plan_save, read_note_file,
    save_note, set_archived, FileState, NoteFile, NoteSource, NotesError,
};
use velocitext::listing::{sort_notes, DatedNote};
use velocitext::models::NoteMetadata;

const DIR: &str = "/home/u/Notes/Velocitext";

fn at(date: &str, time: &str) -> Timestamp {
    Timestamp {
        date: date.to_string(),
        time: time.to_string(),
        updated: format!("{} {}", date, time.replace('-', ":")),
    }
}

fn header(title: &str, date: &str) -> Frontmatter {
    Frontmatter {
        title: title.to_string(),
        layout: "note.njk".to_string(),
        date: date.to_string(),
        description: String::new(),
        statut: "idee".to_string(),
        tags: Vec::new(),
        updated: format!("{} 10:00", date),
        archived: false,
    }
}

fn stored(f: &Frontmatter, body: &str) -> NoteSource {
    NoteSource { raw: build_content(f, body), decoded: Ok(f.duplicate()) }
}

fn fields_of(m: &NoteMetadata) -> Frontmatter {
    Frontmatter {
        title: m.title.clone(),
        layout: m.layout.clone(),
        date: m.date.clone(),
        description: m.description.clone(),
        statut: m.statut.clone(),
        tags: m.tags.clone(),
        updated: m.updated.clone(),
        archived: m.archived,
    }
}

fn inside(id: &str) -> PathResolution {
    PathResolution {
        canonical_dir: Some(DIR.to_string()),
        canonical_note: Some(format!("{}/{}", DIR, id)),
        canonical_parent: Some(DIR.to_string()),
    }
}

fn file(name: &str, f: &Frontmatter, body: &str) -> NoteFile {
    NoteFile { name: name.to_string(), read: Ok(stored(f, body)) }
}

#[test]
fn errors_carry_their_description() {
    assert_eq!(NotesError::new("Note not found").message(), "Note not found");
    assert_eq!(NotesError::new("").message(), "");
}

#[test]
fn metadata_takes_the_id_and_every_field() {
    let mut f = header("T", "01-02-2024");
    f.tags = vec!["a".to_string(), "b".to_string()];
    f.description = "d".to_string();
    f.archived = true;
    let m = metadata_from_frontmatter("x.md".to_string(), &f);
    assert_eq!(m.id, "x.md");
    assert_eq!(m.title, "T");
    assert_eq!(m.layout, "note.njk");
    assert_eq!(m.date, "01-02-2024");
    assert_eq!(m.description, "d");
    assert_eq!(m.statut, "idee");
    assert_eq!(m.tags, vec!["a".to_string(), "b".to_string()]);
    assert_eq!(m.updated, "01-02-2024 10:00");
    assert!(m.archived);
    let d = m.duplicate();
    assert_eq!(d.id, m.id);
    assert_eq!(d.tags, m.tags);
}

#[test]
fn read_note_file_parses_or_reports() {
    let f = header("T", "01-02-2024");
    let p = read_note_file(&Ok(stored(&f, "body"))).ok().unwrap();
    assert_eq!(p.frontmatter.title, "T");
    assert_eq!(p.body, "body");
    assert_eq!(p.raw, build_content(&f, "body"));
    let e = read_note_file(&Err("permission denied".to_string())).err().unwrap();
    assert_eq!(e.message(), "Read file failed: permission denied");
    let e = read_note_file(&Ok(NoteSource { raw: "junk".to_string(), decoded: Ok(f) })).err().unwrap();
    assert_eq!(e.message(), "Missing frontmatter");
}

#[test]
fn create_grocery_list() {
    let now = at("28-10-2026", "22-09");
    let change = create_note_at("Grocery List", &Vec::new(), &now);
    let m = &change.detail.metadata;
    assert_eq!(m.id, "28-10-2026_22-09--Grocery_List.md");
    assert!(validate_note_id(&m.id).is_ok());
    assert_eq!(m.title, "Grocery List");
    assert_eq!(m.layout, "note.njk");
    assert_eq!(m.statut, "idee");
    assert_eq!(m.date, "28-10-2026");
    assert_eq!(m.updated, "28-10-2026 22:09");
    assert_eq!(m.description, "");
    assert!(m.tags.is_empty());
    assert!(!m.archived);
    assert!(change.write);
    assert_eq!(change.remove, None);
    assert_eq!(
        change.detail.content,
        "---\ntitle: \"Grocery List\"\nlayout: note.njk\ndate: \"28-10-2026\"\ndescription: \"\"\nstatut: idee\ntags: []\nupdated: \"28-10-2026 22:09\"\narchived: false\n---\n"
    );
    let opened = open_note(&m.id, &FileState::Read(NoteSource {
        raw: change.detail.content.clone(),
        decoded: Ok(fields_of(m)),
    })).ok().unwrap();
    assert_eq!(opened.content, change.detail.content);
    assert_eq!(opened.metadata.title, "Grocery List");
}

#[test]
fn create_with_the_clock_gives_a_note_id() {
    let change = create_note("Grocery List", &Vec::new());
    let m = &change.detail.metadata;
    assert!(validate_note_id(&m.id).is_ok());
    assert!(m.id.ends_with("--Grocery_List.md"));
    assert_eq!(m.id.chars().count(), "DD-MM-YYYY_HH-MM--Grocery_List.md".chars().count());
    assert_eq!(m.statut, "idee");
    assert!(!m.archived);
    assert_eq!(extract_prefix(&m.id), Some(format!("{}_{}--", m.date, &m.updated[11..].replace(':', "-"))));
    assert!(m.updated.starts_with(&m.date));
    assert!(change.detail.content.ends_with("archived: false\n---\n"));
}

#[test]
fn clock_reading_is_usable() {
    let now = current_timestamp();
    assert_eq!(now.date.chars().count(), 10);
    assert_eq!(now.time.chars().count(), 5);
    assert_eq!(now.updated, format!("{} {}", now.date, now.time.replace('-', ":")));
    assert!(now.date.chars().all(|c| c.is_ascii_digit() || c == '-'));
}

#[test]
fn same_title_in_the_same_minute_gets_a_number() {
    let now = at("28-10-2026", "22-09");
    let first = create_note_at("Grocery List", &Vec::new(), &now);
    let names = vec![first.detail.metadata.id.clone()];
    let second = create_note_at("Grocery List", &names, &now);
    assert_eq!(first.detail.metadata.id, "28-10-2026_22-09--Grocery_List.md");
    assert_eq!(second.detail.metadata.id, "28-10-2026_22-09--Grocery_List_2.md");
    assert!(validate_note_id(&second.detail.metadata.id).is_ok());
    let names = vec![first.detail.metadata.id.clone(), second.detail.metadata.id.clone()];
    let third = create_note_at("Grocery List", &names, &now);
    assert_eq!(third.detail.metadata.id, "28-10-2026_22-09--Grocery_List_3.md");
}

#[test]
fn open_reports_missing_and_unreadable_notes() {
    let id = "28-10-2026_22-09--a.md";
    assert_eq!(open_note(id, &FileState::Missing).err().unwrap().message(), "Note not found");
    assert_eq!(
        open_note(id, &FileState::Unreadable("disk".to_string())).err().unwrap().message(),
        "Read file failed: disk"
    );
    let bad = FileState::Read(NoteSource { raw: "---\nx".to_string(), decoded: Err("e".to_string()) });
    assert_eq!(open_note(id, &bad).err().unwrap().message(), "Frontmatter not closed");
}

#[test]
fn get_returns_metadata_and_raw_text() {
    let id = "28-10-2026_22-09--a.md";
    let f = header("A", "28-10-2026");
    let state = FileState::Read(stored(&f, "text"));
    let d = get_note(DIR, id, &inside(id), &state).ok().unwrap();
    assert_eq!(d.metadata.id, id);
    assert_eq!(d.metadata.title, "A");
    assert_eq!(d.content, build_content(&f, "text"));
}

#[test]
fn rejected_ids_never_reach_the_store() {
    let f = header("A", "28-10-2026");
    for id in ["not-a-note.txt", "../escape.md", "a/b.md", "..", "28-10-2026_22-09--a b.md"] {
        let state = FileState::Read(stored(&f, "text"));
        assert!(validate_note_id(id).is_err());
        let expected = validate_note_id(id).err().unwrap().message();
        assert_eq!(get_note(DIR, id, &inside(id), &state).err().unwrap().message(), expected);
        let content = build_content(&f, "new");
        let r = save_note(DIR, id, &content, &inside(id), &state, &Ok(f.duplicate()), &Vec::new());
        assert_eq!(r.err().unwrap().message(), expected);
        let r = set_archived(DIR, id, true, &inside(id), &state);
        assert_eq!(r.err().unwrap().message(), expected);
    }
}

#[test]
fn paths_outside_the_directory_are_refused() {
    let id = "28-10-2026_22-09--a.md";
    let f = header("A", "28-10-2026");
    let state = FileState::Read(stored(&f, "text"));
    let outside = PathResolution {
        canonical_dir: Some(DIR.to_string()),
        canonical_note: Some("/etc/secret.md".to_string()),
        canonical_parent: Some(DIR.to_string()),
    };
    assert_eq!(
        get_note(DIR, id, &outside, &state).err().unwrap().message(),
        "Note path outside allowed directory"
    );
    assert_eq!(
        set_archived(DIR, id, true, &outside, &state).err().unwrap().message(),
        "Note path outside allowed directory"
    );
}

#[test]
fn save_renames_when_the_title_changes() {
    let created = create_note_at("Grocery List", &Vec::new(), &at("28-10-2026", "22-09"));
    let id = created.detail.metadata.id.clone();
    let state = FileState::Read(NoteSource {
        raw: created.detail.content.clone(),
        decoded: Ok(fields_of(&created.detail.metadata)),
    });
    let mut edited = fields_of(&created.detail.metadata);
    edited.title = "Groceries".to_string();
    let content = build_content(&edited, "milk");
    let later = at("29-10-2026", "08-30");
    let change = plan_save(
        &id,
        &state,
        &content,
        &Ok(edited.duplicate()),
        &vec![id.clone()],
        extract_prefix(&id),
        &later,
    ).ok().unwrap();
    assert_eq!(change.detail.metadata.id, "28-10-2026_22-09--Groceries.md");
    assert_eq!(change.detail.metadata.title, "Groceries");
    assert_eq!(change.detail.metadata.updated, "29-10-2026 08:30");
    assert_eq!(change.detail.metadata.date, "28-10-2026");
    assert!(change.write);
    assert_eq!(change.remove, Some(id));
    let mut written = edited.duplicate();
    written.updated = "29-10-2026 08:30".to_string();
    assert_eq!(change.detail.content, build_content(&written, "milk"));
}

#[test]
fn save_in_place_when_the_title_stays() {
    let id = "28-10-2026_22-09--a.md";
    let f = header("A", "28-10-2026");
    let state = FileState::Read(stored(&f, "old"));
    let content = build_content(&f, "new body");
    let now = at("30-10-2026", "09-00");
    let change = plan_save(id, &state, &content, &Ok(f.duplicate()), &vec![id.to_string()], None, &now).ok().unwrap();
    assert_eq!(change.detail.metadata.id, id);
    assert_eq!(change.remove, None);
    assert!(change.write);
    assert_eq!(change.detail.metadata.updated, "30-10-2026 09:00");
    assert!(change.detail.content.ends_with("---\n\nnew body"));
}

#[test]
fn save_without_change_keeps_the_stamp() {
    let id = "28-10-2026_22-09--a.md";
    let f = header("A", "28-10-2026");
    let state = FileState::Read(stored(&f, "same"));
    let content = build_content(&f, "same");
    let now = at("30-10-2026", "09-00");
    let change = plan_save(id, &state, &content, &Ok(f.duplicate()), &Vec::new(), None, &now).ok().unwrap();
    assert_eq!(change.detail.metadata.updated, "28-10-2026 10:00");
    assert_eq!(change.detail.content, content);
    assert!(change.write);
}

#[test]
fn save_keeps_a_stamp_that_the_caller_changed() {
    let id = "28-10-2026_22-09--a.md";
    let f = header("A", "28-10-2026");
    let state = FileState::Read(stored(&f, "old"));
    let mut g = f.duplicate();
    g.updated = "01-01-2030 00:00".to_string();
    g.description = "changed".to_string();
    let content = build_content(&g, "old");
    let now = at("30-10-2026", "09-00");
    let change = plan_save(id, &state, &content, &Ok(g), &Vec::new(), None, &now).ok().unwrap();
    assert_eq!(change.detail.metadata.updated, "01-01-2030 00:00");
    assert_eq!(change.detail.metadata.description, "changed");
}

#[test]
fn save_falls_back_to_the_clock_for_the_prefix() {
    let id = "odd-name.md";
    let f = header("A", "28-10-2026");
    let state = FileState::Read(stored(&f, ""));
    let mut g = f.duplicate();
    g.title = "B C".to_string();
    let content = build_content(&g, "");
    let now = at("30-10-2026", "09-00");
    let change = plan_save(id, &state, &content, &Ok(g), &Vec::new(), None, &now).ok().unwrap();
    assert_eq!(change.detail.metadata.id, "30-10-2026_09-00--B_C.md");
    assert_eq!(change.remove, Some(id.to_string()));
}

#[test]
fn save_avoids_names_that_are_taken() {
    let id = "28-10-2026_22-09--a.md";
    let f = header("a", "28-10-2026");
    let state = FileState::Read(stored(&f, ""));
    let mut g = f.duplicate();
    g.title = "b".to_string();
    let content = build_content(&g, "");
    let names = vec![id.to_string(), "28-10-2026_22-09--b.md".to_string()];
    let now = at("30-10-2026", "09-00");
    let change = plan_save(id, &state, &content, &Ok(g), &names, extract_prefix(id), &now).ok().unwrap();
    assert_eq!(change.detail.metadata.id, "28-10-2026_22-09--b_2.md");
}

#[test]
fn save_reports_failures_in_order() {
    let id = "28-10-2026_22-09--a.md";
    let f = header("A", "28-10-2026");
    let now = at("30-10-2026", "09-00");
    let content = build_content(&f, "");
    let r = plan_save(id, &FileState::Missing, &content, &Ok(f.duplicate()), &Vec::new(), None, &now);
    assert_eq!(r.err().unwrap().message(), "Note not found");
    let broken = FileState::Read(NoteSource { raw: "x".to_string(), decoded: Ok(f.duplicate()) });
    let r = plan_save(id, &broken, &content, &Ok(f.duplicate()), &Vec::new(), None, &now);
    assert_eq!(r.err().unwrap().message(), "Missing frontmatter");
    let state = FileState::Read(stored(&f, ""));
    let r = plan_save(id, &state, "---\nnope", &Ok(f.duplicate()), &Vec::new(), None, &now);
    assert_eq!(r.err().unwrap().message(), "Frontmatter not closed");
    let r = plan_save(id, &state, &content, &Err("bad yaml".to_string()), &Vec::new(), None, &now);
    assert_eq!(r.err().unwrap().message(), "Invalid frontmatter: bad yaml");
}

#[test]
fn save_through_the_store_stamps_with_the_clock() {
    let id = "28-10-2026_22-09--a.md";
    let f = header("A", "01-01-2001");
    let state = FileState::Read(stored(&f, "old"));
    let content = build_content(&f, "new");
    let change = save_note(DIR, id, &content, &inside(id), &state, &Ok(f.duplicate()), &Vec::new()).ok().unwrap();
    assert_eq!(change.detail.metadata.id, id);
    assert_ne!(change.detail.metadata.updated, "01-01-2001 10:00");
    assert_eq!(change.detail.metadata.updated.chars().count(), 16);
    assert_eq!(change.detail.metadata.date, "01-01-2001");
}

#[test]
fn archive_sets_the_flag_and_stamps() {
    let id = "28-10-2026_22-09--a.md";
    let f = header("A", "28-10-2026");
    let state = FileState::Read(stored(&f, "body"));
    let now = at("30-10-2026", "09-00");
    let change = plan_archive(id, &state, true, &now).ok().unwrap();
    assert!(change.detail.metadata.archived);
    assert_eq!(change.detail.metadata.updated, "30-10-2026 09:00");
    assert_eq!(change.detail.metadata.id, id);
    assert!(change.write);
    assert_eq!(change.remove, None);
    let mut g = f.duplicate();
    g.archived = true;
    g.updated = "30-10-2026 09:00".to_string();
    assert_eq!(change.detail.content, build_content(&g, "body"));
}

#[test]
fn archive_twice_changes_nothing_the_second_time() {
    let id = "28-10-2026_22-09--a.md";
    let f = header("A", "28-10-2026");
    let state = FileState::Read(stored(&f, "body"));
    let first = plan_archive(id, &state, true, &at("30-10-2026", "09-00")).ok().unwrap();
    let after = FileState::Read(NoteSource {
        raw: first.detail.content.clone(),
        decoded: Ok(fields_of(&first.detail.metadata)),
    });
    let second = plan_archive(id, &after, true, &at("31-10-2026", "11-11")).ok().unwrap();
    assert!(!second.write);
    assert_eq!(second.remove, None);
    assert_eq!(second.detail.content, first.detail.content);
    assert_eq!(second.detail.metadata.updated, first.detail.metadata.updated);
    assert_eq!(second.detail.metadata.archived, first.detail.metadata.archived);
    assert_eq!(second.detail.metadata.title, first.detail.metadata.title);
    assert_eq!(second.detail.metadata.id, first.detail.metadata.id);
}

#[test]
fn archive_with_the_same_flag_returns_the_file_as_it_is() {
    let id = "28-10-2026_22-09--a.md";
    let f = header("A", "28-10-2026");
    let raw = format!("{}\n\n", build_content(&f, "body"));
    let state = FileState::Read(NoteSource { raw: raw.clone(), decoded: Ok(f.duplicate()) });
    let change = plan_archive(id, &state, false, &at("30-10-2026", "09-00")).ok().unwrap();
    assert!(!change.write);
    assert_eq!(change.detail.content, raw);
    assert_eq!(change.detail.metadata.updated, "28-10-2026 10:00");
}

#[test]
fn archive_reports_missing_notes() {
    let id = "28-10-2026_22-09--a.md";
    let r = plan_archive(id, &FileState::Missing, true, &at("30-10-2026", "09-00"));
    assert_eq!(r.err().unwrap().message(), "Note not found");
    let r = set_archived(DIR, id, true, &inside(id), &FileState::Missing);
    assert_eq!(r.err().unwrap().message(), "Note not found");
}

#[test]
fn entries_come_in_the_order_of_the_files() {
    let files = vec![
        file("b.md", &header("B", "01-01-2024"), "bb"),
        NoteFile { name: "notes.txt".to_string(), read: Err("not read".to_string()) },
        file("a.md", &header("A", "02-01-2024"), ""),
    ];
    let entries = list_note_entries(&files).ok().unwrap();
    assert_eq!(entries.len(), 2);
    assert_eq!(entries[0].metadata.id, "b.md");
    assert_eq!(entries[0].body, "bb");
    assert_eq!(entries[1].metadata.id, "a.md");
    assert_eq!(entries[1].body, "");
    assert!(list_note_entries(&Vec::new()).ok().unwrap().is_empty());
}

#[test]
fn one_bad_note_fails_the_whole_listing() {
    let mut bad = header("B", "01-01-2024");
    bad.layout = "other".to_string();
    let files = vec![
        file("a.md", &header("A", "02-01-2024"), ""),
        file("b.md", &bad, ""),
        NoteFile { name: "c.md".to_string(), read: Err("gone".to_string()) },
    ];
    assert_eq!(list_note_entries(&files).err().unwrap().message(), "Invalid layout");
    assert_eq!(list_notes(&files).err().unwrap().message(), "Invalid layout");
    let files = vec![
        NoteFile { name: "c.md".to_string(), read: Err("gone".to_string()) },
        file("b.md", &bad, ""),
    ];
    assert_eq!(list_notes(&files).err().unwrap().message(), "Read file failed: gone");
}

#[test]
fn listing_is_newest_first_then_title_descending() {
    let files = vec![
        file("1.md", &header("Alpha", "02-01-2024"), ""),
        file("2.md", &header("Zeta", "01-02-2024"), ""),
        file("3.md", &header("Beta", "02-01-2024"), ""),
        file("4.md", &header("Old", "31-12-2023"), ""),
        file("5.md", &header("Undated", "someday"), ""),
        file("6.md", &header("Beta", "02-01-2024"), ""),
        file("7.md", &header("Leap", "29-02-2024"), ""),
        file("8.md", &header("NoLeap", "29-02-2023"), ""),
    ];
    let notes = list_notes(&files).ok().unwrap();
    let ids: Vec<&str> = notes.iter().map(|n| n.id.as_str()).collect();
    assert_eq!(ids, vec!["7.md", "2.md", "3.md", "6.md", "1.md", "4.md", "5.md", "8.md"]);
}

#[test]
fn sort_takes_the_dates_it_is_given() {
    let note = |id: &str, title: &str| NoteMetadata {
        id: id.to_string(),
        title: title.to_string(),
        layout: String::new(),
        date: String::new(),
        description: String::new(),
        statut: String::new(),
        tags: Vec::new(),
        updated: String::new(),
        archived: false,
    };
    let items = vec![
        DatedNote { key: None, note: note("a", "x") },
        DatedNote { key: Some((2024, 2)), note: note("b", "x") },
        DatedNote { key: Some((2024, 33)), note: note("c", "a") },
        DatedNote { key: Some((2024, 33)), note: note("d", "b") },
        DatedNote { key: Some((-5, 400)), note: note("e", "x") },
        DatedNote { key: Some((2024, 33)), note: note("f", "a") },
    ];
    let ids: Vec<String> = sort_notes(&items).into_iter().map(|n| n.id).collect();
    assert_eq!(ids, vec!["d", "c", "f", "b", "e", "a"]);
    assert!(sort_notes(&Vec::new()).is_empty());
}

#[test]
fn entry_of_a_path_needs_a_file_and_a_note_name() {
    let f = header("A", "02-01-2024");
    let state = FileState::Read(stored(&f, "body"));
    let e = note_entry_from_path("/n/a--b.md", &state).ok().unwrap().unwrap();
    assert_eq!(e.metadata.id, "a--b.md");
    assert_eq!(e.body, "body");
    assert!(note_entry_from_path("/n/a--b.md", &FileState::Missing).ok().unwrap().is_none());
    assert!(note_entry_from_path("/n/a--b.txt", &state).ok().unwrap().is_none());
    let e = note_entry_from_path("/n/a--b.md", &FileState::Unreadable("io".to_string())).err().unwrap();
    assert_eq!(e.message(), "Read file failed: io");
    assert!(note_entry_for(None, &FileState::Unreadable("io".to_string())).ok().unwrap().is_none());
    assert!(note_entry_for(Some("x.md".to_string()), &FileState::Missing).ok().unwrap().is_none());
    let e = note_entry_for(Some("x.md".to_string()), &state).ok().unwrap().unwrap();
    assert_eq!(e.metadata.id, "x.md");
}

#[test]
fn saved_note_opens_as_it_was_returned() {
    let id = "28-10-2026_22-09--a.md";
    let f = header("A", "28-10-2026");
    let state = FileState::Read(stored(&f, "old"));
    let mut g = f.duplicate();
    g.title = "New title".to_string();
    g.tags = vec!["t".to_string()];
    let content = build_content(&g, "first\nsecond");
    let now = at("30-10-2026", "09-00");
    let change = plan_save(id, &state, &content, &Ok(g), &vec![id.to_string()], extract_prefix(id), &now)
        .ok()
        .unwrap();
    let after = FileState::Read(NoteSource {
        raw: change.detail.content.clone(),
        decoded: Ok(fields_of(&change.detail.metadata)),
    });
    let opened = open_note(&change.detail.metadata.id, &after).ok().unwrap();
    assert_eq!(opened.content, change.detail.content);
    assert_eq!(opened.metadata.id, "28-10-2026_22-09--New_title.md");
    assert_eq!(opened.metadata.title, "New title");
    assert_eq!(opened.metadata.tags, vec!["t".to_string()]);
    assert_eq!(opened.metadata.updated, "30-10-2026 09:00");
    let parsed = read_note_file(&Ok(NoteSource {
        raw: change.detail.content.clone(),
        decoded: Ok(fields_of(&change.detail.metadata)),
    })).ok().unwrap();
    assert_eq!(parsed.body, "first\nsecond");
}

#[test]
fn store_functions_are_reachable_under_their_module() {
    assert_eq!(velocitext::notes_fs::slugify_title("a b"), "a_b");
    assert_eq!(velocitext::notes_fs::note_id_from_path("/n/x.md"), Some("x.md".to_string()));
}

#[test]
fn notes_directory_lies_under_home() {
    assert_eq!(velocitext::notes_fs::notes_dir(Some("/home/u")).ok().unwrap(), "/home/u/Notes/Velocitext");
    assert_eq!(velocitext::notes_fs::notes_dir(Some("/home/u/")).ok().unwrap(), "/home/u/Notes/Velocitext");
    assert_eq!(velocitext::notes_fs::notes_dir(None).err().unwrap().message(), "HOME not set");
}
