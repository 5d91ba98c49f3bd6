use velocitext::frontmatter::{build_content, Frontmatter};
use velocitext::notes_fs::{list_notes, NoteFile, NoteSource};
use velocitext::search::{
    metadata_from_row, search_notes, search_route, split_tags, SearchError, SearchHit, SearchRoute,
};

fn header(title: &str, date: &str) -> Frontmatter {
    Frontmatter {
        title: title.to_string(),
        layout: "note.njk".to_string(),
        date: date.to_string(),
        description: String::new(),
        statut: "idee".to_string(),
        tags: Vec::new(),
        updated: format!("{} 10:00", date),
        archived: false,
    }
}

fn file(name: &str, f: &Frontmatter) -> NoteFile {
    NoteFile {
        name: name.to_string(),
        read: Ok(NoteSource { raw: build_content(f, ""), decoded: Ok(f.duplicate()) }),
    }
}

fn hit(id: &str, tags: &str, archived: &str) -> SearchHit {
    SearchHit {
        id: id.to_string(),
        title: "T".to_string(),
        layout: "note.njk".to_string(),
        date: "01-01-2024".to_string(),
        description: "D".to_string(),
        statut: "termine".to_string(),
        tags: tags.to_string(),
        updated: "01-01-2024 10:00".to_string(),
        archived: archived.to_string(),
    }
}

#[test]
fn search_errors_carry_their_description() {
    assert_eq!(SearchError::new("Search failed: x").message(), "Search failed: x");
}

#[test]
fn blank_queries_go_to_the_store() {
    assert!(search_route("") == SearchRoute::Listing);
    assert!(search_route("  \t\n") == SearchRoute::Listing);
    assert!(search_route("milk") == SearchRoute::Index);
    assert!(search_route("  milk ") == SearchRoute::Index);
}

#[test]
fn tags_are_split_on_commas_and_trimmed() {
    assert_eq!(split_tags("a, b,c"), vec!["a", "b", "c"]);
    assert_eq!(split_tags(""), Vec::<String>::new());
    assert_eq!(split_tags(" , ,"), Vec::<String>::new());
    assert_eq!(split_tags("  two words , x"), vec!["two words", "x"]);
}

#[test]
fn hit_becomes_metadata() {
    let m = metadata_from_row(&hit("a.md", "x, y", "true"));
    assert_eq!(m.id, "a.md");
    assert_eq!(m.title, "T");
    assert_eq!(m.layout, "note.njk");
    assert_eq!(m.date, "01-01-2024");
    assert_eq!(m.description, "D");
    assert_eq!(m.statut, "termine");
    assert_eq!(m.tags, vec!["x", "y"]);
    assert_eq!(m.updated, "01-01-2024 10:00");
    assert!(m.archived);
    assert!(!metadata_from_row(&hit("a.md", "", "false")).archived);
    assert!(!metadata_from_row(&hit("a.md", "", "TRUE")).archived);
    assert!(!metadata_from_row(&hit("a.md", "", "")).archived);
}

#[test]
fn empty_search_is_the_listing() {
    let files = vec![
        file("1.md", &header("Alpha", "02-01-2024")),
        file("2.md", &header("Zeta", "01-02-2024")),
        file("3.md", &header("Beta", "02-01-2024")),
    ];
    let hits = vec![hit("ignored.md", "", "false")];
    let listed: Vec<String> = list_notes(&files).ok().unwrap().into_iter().map(|n| n.id).collect();
    for query in ["", "   ", "\n\t"] {
        let found: Vec<String> =
            search_notes(query, &files, &hits).ok().unwrap().into_iter().map(|n| n.id).collect();
        assert_eq!(found, listed);
    }
    assert_eq!(listed, vec!["2.md", "3.md", "1.md"]);
}

#[test]
fn empty_search_fails_as_the_listing_fails() {
    let mut bad = header("B", "01-01-2024");
    bad.statut = "x".to_string();
    let files = vec![file("b.md", &bad)];
    assert_eq!(search_notes("", &files, &Vec::new()).err().unwrap().message(), "Invalid statut");
}

#[test]
fn search_for_a_term_gives_the_hits_in_their_order() {
    let mut bad = header("B", "01-01-2024");
    bad.statut = "x".to_string();
    let files = vec![file("b.md", &bad)];
    let hits = vec![hit("z.md", "k", "false"), hit("a.md", "", "true")];
    let found = search_notes("milk", &files, &hits).ok().unwrap();
    assert_eq!(found.len(), 2);
    assert_eq!(found[0].id, "z.md");
    assert_eq!(found[0].tags, vec!["k"]);
    assert_eq!(found[1].id, "a.md");
    assert!(found[1].archived);
}

#[test]
fn search_without_hits_is_empty() {
    let files = vec![file("1.md", &header("Alpha", "02-01-2024"))];
    let found = search_notes("nonexistent-term-xyz", &files, &Vec::new()).ok().unwrap();
    assert!(found.is_empty());
}

#[test]
fn row_of_a_note_reads_back_as_the_note() {
    let entry = velocitext::notes_fs::NoteIndexEntry {
        metadata: velocitext::models::NoteMetadata {
            id: "28-10-2026_22-09--a.md".to_string(),
            title: "A title, with a comma".to_string(),
            layout: "note.njk".to_string(),
            date: "28-10-2026".to_string(),
            description: "d".to_string(),
            statut: "idee".to_string(),
            tags: vec!["home".to_string(), "two words".to_string(), "x".to_string()],
            updated: "28-10-2026 22:09".to_string(),
            archived: true,
        },
        body: "body".to_string(),
    };
    let row = velocitext::indexer::index_row(&entry);
    let m = metadata_from_row(&SearchHit {
        id: row.id,
        title: row.title,
        layout: row.layout,
        date: row.date,
        description: row.description,
        statut: row.statut,
        tags: row.tags,
        updated: row.updated,
        archived: row.archived,
    });
    assert_eq!(m.id, entry.metadata.id);
    assert_eq!(m.title, entry.metadata.title);
    assert_eq!(m.layout, entry.metadata.layout);
    assert_eq!(m.date, entry.metadata.date);
    assert_eq!(m.description, entry.metadata.description);
    assert_eq!(m.statut, entry.metadata.statut);
    assert_eq!(m.tags, entry.metadata.tags);
    assert_eq!(m.updated, entry.metadata.updated);
    assert_eq!(m.archived, entry.metadata.archived);
}
