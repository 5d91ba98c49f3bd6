use velocitext::frontmatter::{build_content, Frontmatter};
use velocitext::indexer::{
    delete_entry, delete_note_by_path, index_row, rebuild_index, upsert_entry,
    upsert_note_by_path, IndexCommand, IndexRow, IndexerError,
};
use velocitext::models::NoteMetadata;
use velocitext::notes_fs::{
    list_notes, FileState, NoteFile, NoteIndexEntry, NoteSource, NotesError,
};

fn header(title: &str, date: &str, tags: &[&str]) -> Frontmatter {
    Frontmatter {
        title: title.to_string(),
        layout: "note.njk".to_string(),
        date: date.to_string(),
        description: "about".to_string(),
        statut: "chantier".to_string(),
        tags: tags.iter().map(|t| t.to_string()).collect(),
        updated: format!("{} 10:00", date),
        archived: false,
    }
}

fn file(name: &str, f: &Frontmatter, body: &str) -> NoteFile {
    NoteFile {
        name: name.to_string(),
        read: Ok(NoteSource { raw: build_content(f, body), decoded: Ok(f.duplicate()) }),
    }
}

fn entry(id: &str, tags: &[&str], archived: bool) -> NoteIndexEntry {
    NoteIndexEntry {
        metadata: NoteMetadata {
            id: id.to_string(),
            title: "T".to_string(),
            layout: "note.njk".to_string(),
            date: "01-01-2024".to_string(),
            description: "D".to_string(),
            statut: "idee".to_string(),
            tags: tags.iter().map(|t| t.to_string()).collect(),
            updated: "01-01-2024 10:00".to_string(),
            archived,
        },
        body: "B".to_string(),
    }
}

fn run(rows: &mut Vec<IndexRow>, commands: &Vec<IndexCommand>) {
    for c in commands {
        match c {
            IndexCommand::EnsureSchema => {}
            IndexCommand::Clear => rows.clear(),
            IndexCommand::Delete(id) => rows.retain(|r| &r.id != id),
            IndexCommand::Insert(row) => rows.push(row.clone()),
        }
    }
}

fn kinds(commands: &Vec<IndexCommand>) -> Vec<String> {
    commands
        .iter()
        .map(|c| match c {
            IndexCommand::EnsureSchema => "schema".to_string(),
            IndexCommand::Clear => "clear".to_string(),
            IndexCommand::Delete(id) => format!("delete {}", id),
            IndexCommand::Insert(row) => format!("insert {}", row.id),
        })
        .collect()
}

#[test]
fn indexer_errors_carry_their_description() {
    assert_eq!(IndexerError::new("Open db failed: x").message(), "Open db failed: x");
}

#[test]
fn row_flattens_tags_and_flag() {
    let row = index_row(&entry("a.md", &["x", "y z", "w"], true));
    assert_eq!(row.id, "a.md");
    assert_eq!(row.title, "T");
    assert_eq!(row.layout, "note.njk");
    assert_eq!(row.date, "01-01-2024");
    assert_eq!(row.description, "D");
    assert_eq!(row.statut, "idee");
    assert_eq!(row.tags, "x, y z, w");
    assert_eq!(row.updated, "01-01-2024 10:00");
    assert_eq!(row.archived, "true");
    assert_eq!(row.body, "B");
    let row = index_row(&entry("a.md", &[], false));
    assert_eq!(row.tags, "");
    assert_eq!(row.archived, "false");
}

#[test]
fn rebuild_clears_then_inserts_every_note() {
    let files = vec![
        file("b.md", &header("B", "01-01-2024", &["t"]), "bb"),
        file("skip.txt", &header("S", "01-01-2024", &[]), ""),
        file("a.md", &header("A", "02-01-2024", &[]), "aa"),
    ];
    let plan = rebuild_index(&Ok(files));
    assert!(plan.result.is_ok());
    assert_eq!(kinds(&plan.commands), vec!["schema", "clear", "insert b.md", "insert a.md"]);
    match &plan.commands[2] {
        IndexCommand::Insert(row) => {
            assert_eq!(row.body, "bb");
            assert_eq!(row.tags, "t");
            assert_eq!(row.statut, "chantier");
        }
        _ => panic!("an insert was expected"),
    }
}

#[test]
fn rebuild_of_an_empty_store_only_clears() {
    let plan = rebuild_index(&Ok(Vec::new()));
    assert!(plan.result.is_ok());
    assert_eq!(kinds(&plan.commands), vec!["schema", "clear"]);
}

#[test]
fn rebuild_clears_even_when_the_store_cannot_be_read() {
    let mut bad = header("B", "01-01-2024", &[]);
    bad.title = String::new();
    let files = vec![file("a.md", &header("A", "02-01-2024", &[]), ""), file("b.md", &bad, "")];
    let plan = rebuild_index(&Ok(files));
    assert_eq!(plan.result.err().unwrap().message(), "Read notes failed: Missing title");
    assert_eq!(kinds(&plan.commands), vec!["schema", "clear"]);
    let plan = rebuild_index(&Err(NotesError::new("Cannot read notes dir: denied")));
    assert_eq!(
        plan.result.err().unwrap().message(),
        "Read notes failed: Cannot read notes dir: denied"
    );
    assert_eq!(kinds(&plan.commands), vec!["schema", "clear"]);
}

#[test]
fn rebuilt_index_holds_the_ids_of_the_listing() {
    let files = vec![
        file("b.md", &header("B", "01-01-2024", &["t"]), "bb"),
        file("c.md", &header("C", "05-01-2024", &[]), ""),
        file("a.md", &header("A", "02-01-2024", &[]), "aa"),
    ];
    let mut rows = vec![index_row(&entry("stale.md", &[], false)), index_row(&entry("b.md", &[], true))];
    let listed = list_notes(&files).ok().unwrap();
    let plan = rebuild_index(&Ok(files));
    run(&mut rows, &plan.commands);
    let mut in_index: Vec<String> = rows.iter().map(|r| r.id.clone()).collect();
    let mut in_store: Vec<String> = listed.iter().map(|n| n.id.clone()).collect();
    in_index.sort();
    in_store.sort();
    assert_eq!(in_index, in_store);
    assert_eq!(in_index, vec!["a.md", "b.md", "c.md"]);
}

#[test]
fn upsert_replaces_the_rows_of_the_note() {
    let plan = upsert_entry(Ok(Some(entry("a.md", &["n"], false))));
    assert!(plan.result.is_ok());
    assert_eq!(kinds(&plan.commands), vec!["schema", "delete a.md", "insert a.md"]);
    let mut rows = vec![index_row(&entry("a.md", &["old"], true)), index_row(&entry("b.md", &[], false))];
    run(&mut rows, &plan.commands);
    let ids: Vec<&str> = rows.iter().map(|r| r.id.as_str()).collect();
    assert_eq!(ids, vec!["b.md", "a.md"]);
    assert_eq!(rows[1].tags, "n");
    assert_eq!(rows[1].archived, "false");
}

#[test]
fn upsert_without_entry_does_nothing() {
    let plan = upsert_entry(Ok(None));
    assert!(plan.result.is_ok());
    assert!(plan.commands.is_empty());
    let plan = upsert_entry(Err(NotesError::new("Missing frontmatter")));
    assert_eq!(plan.result.err().unwrap().message(), "Read note failed: Missing frontmatter");
    assert!(plan.commands.is_empty());
}

#[test]
fn upsert_by_path_reads_the_id_from_the_path() {
    let f = header("A", "02-01-2024", &["x"]);
    let state = FileState::Read(NoteSource { raw: build_content(&f, "body"), decoded: Ok(f.duplicate()) });
    let plan = upsert_note_by_path("/notes/28-10-2026_22-09--a.md", &state);
    assert_eq!(
        kinds(&plan.commands),
        vec!["schema", "delete 28-10-2026_22-09--a.md", "insert 28-10-2026_22-09--a.md"]
    );
    let plan = upsert_note_by_path("/notes/28-10-2026_22-09--a.md", &FileState::Missing);
    assert!(plan.commands.is_empty() && plan.result.is_ok());
    let plan = upsert_note_by_path("/notes/readme.txt", &state);
    assert!(plan.commands.is_empty() && plan.result.is_ok());
    let plan = upsert_note_by_path("/notes/a.md", &FileState::Unreadable("busy".to_string()));
    assert_eq!(plan.result.err().unwrap().message(), "Read note failed: Read file failed: busy");
}

#[test]
fn delete_takes_out_the_rows_of_the_id() {
    let plan = delete_note_by_path("/notes/28-10-2026_22-09--a.md");
    assert!(plan.result.is_ok());
    assert_eq!(kinds(&plan.commands), vec!["schema", "delete 28-10-2026_22-09--a.md"]);
    let plan = delete_note_by_path("/notes/readme.txt");
    assert!(plan.commands.is_empty() && plan.result.is_ok());
    let plan = delete_entry(None);
    assert!(plan.commands.is_empty());
    let plan = delete_entry(Some("x.md".to_string()));
    assert_eq!(kinds(&plan.commands), vec!["schema", "delete x.md"]);
}

#[test]
fn index_file_lies_under_home() {
    assert_eq!(
        velocitext::indexer::db_path(Some("/home/u")).ok().unwrap(),
        "/home/u/.local/share/velocitext/velocitext.db"
    );
    assert_eq!(velocitext::indexer::db_path(None).err().unwrap().message(), "HOME not set");
}

#[test]
fn delete_leaves_no_row_of_the_note() {
    let mut rows = vec![
        index_row(&entry("a.md", &[], false)),
        index_row(&entry("b.md", &[], false)),
        index_row(&entry("a.md", &["again"], true)),
    ];
    run(&mut rows, &delete_entry(Some("a.md".to_string())).commands);
    let ids: Vec<&str> = rows.iter().map(|r| r.id.as_str()).collect();
    assert_eq!(ids, vec!["b.md"]);
}
