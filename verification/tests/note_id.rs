use velocitext::note_id::{
    check_note_id, check_note_path, current_prefix, extract_prefix, file_name,
    note_id_from_file_name, note_id_from_path, prefix_from_group, prefix_of, safe_note_path,
    validate_note_id, PathResolution,
};
use velocitext::clock::Timestamp;
use velocitext::notes_fs::NotesError;

fn resolution(dir: Option<&str>, note: Option<&str>, parent: Option<&str>) -> PathResolution {
    PathResolution {
        canonical_dir: dir.map(|s| s.to_string()),
        canonical_note: note.map(|s| s.to_string()),
        canonical_parent: parent.map(|s| s.to_string()),
    }
}

#[test]
fn well_formed_ids_are_accepted() {
    assert!(validate_note_id("28-10-2026_22-09--Grocery_List.md").is_ok());
    assert!(validate_note_id("01-01-2000_00-00--a.md").is_ok());
    assert!(validate_note_id("28-10-2026_22-09--Grocery_List_2.md").is_ok());
    assert!(validate_note_id("28-10-2026_22-09--a-b_c-9.md").is_ok());
}

#[test]
fn ids_are_judged_by_shape_not_by_calendar() {
    assert!(validate_note_id("12-13-2099_99-99--x.md").is_ok());
}

#[test]
fn ids_outside_the_grammar_are_refused() {
    assert_eq!(
        validate_note_id("not-a-note.txt").err().unwrap().message(),
        "Invalid note ID: must be a markdown file"
    );
    assert_eq!(
        validate_note_id("../escape.md").err().unwrap().message(),
        "Invalid note ID: contains path separators"
    );
    assert_eq!(
        validate_note_id("a\\b.md").err().unwrap().message(),
        "Invalid note ID: contains path separators"
    );
    assert_eq!(
        validate_note_id("28-10-2026_22-09--a..b.md").err().unwrap().message(),
        "Invalid note ID: contains relative path"
    );
    assert_eq!(validate_note_id("note.md").err().unwrap().message(), "Invalid note ID format");
    assert_eq!(
        validate_note_id("28-10-2026_22-09--.md").err().unwrap().message(),
        "Invalid note ID format"
    );
    assert_eq!(
        validate_note_id("28-10-2026_22-09--a b.md").err().unwrap().message(),
        "Invalid note ID format"
    );
    assert_eq!(
        validate_note_id("x28-10-2026_22-09--a.md").err().unwrap().message(),
        "Invalid note ID format"
    );
    assert_eq!(
        validate_note_id("28-10-2026_22-09--a.md\n").err().unwrap().message(),
        "Invalid note ID: must be a markdown file"
    );
    assert_eq!(validate_note_id("").err().unwrap().message(), "Invalid note ID: must be a markdown file");
}

#[test]
fn check_follows_the_verdict_on_the_shape() {
    assert!(check_note_id("anything.md", Some(true)).is_ok());
    assert_eq!(check_note_id("anything.md", Some(false)).err().unwrap().message(), "Invalid note ID format");
    assert_eq!(check_note_id("anything.md", None).err().unwrap().message(), "Regex compilation failed");
    assert_eq!(
        check_note_id("a/b.md", Some(true)).err().unwrap().message(),
        "Invalid note ID: contains path separators"
    );
    assert_eq!(
        check_note_id("a..md", Some(true)).err().unwrap().message(),
        "Invalid note ID: contains relative path"
    );
    assert_eq!(
        check_note_id("a.txt", Some(true)).err().unwrap().message(),
        "Invalid note ID: must be a markdown file"
    );
}

#[test]
fn note_id_comes_from_the_final_component() {
    assert_eq!(note_id_from_path("/home/u/Notes/Velocitext/a--b.md"), Some("a--b.md".to_string()));
    assert_eq!(note_id_from_path("a--b.md"), Some("a--b.md".to_string()));
    assert_eq!(note_id_from_path("/home/u/notes/readme.txt"), None);
    assert_eq!(note_id_from_path("/home/u/notes/.md"), None);
    assert_eq!(note_id_from_path("/home/u/notes/md"), None);
    assert_eq!(note_id_from_path("/home/u/notes/.."), None);
    assert_eq!(note_id_from_path("/"), None);
    assert_eq!(note_id_from_path("/home/u/notes/x.md/"), Some("x.md".to_string()));
}

#[test]
fn note_id_agrees_with_std_on_the_extension() {
    for name in ["a.md", ".md", "..md", "a.MD", "a.md.bak", "a.b.md", "md", "a.", ".a.md", "a.mdx", "é.md"] {
        let expected = if std::path::Path::new(name).extension().and_then(|e| e.to_str()) == Some("md") {
            Some(name.to_string())
        } else {
            None
        };
        assert_eq!(note_id_from_file_name(Some(name.to_string())), expected);
    }
    assert_eq!(note_id_from_file_name(None), None);
}

#[test]
fn file_name_is_the_final_component() {
    assert_eq!(file_name("/a/b/c.md").ok().unwrap(), "c.md");
    assert_eq!(file_name("/a/b/..").err().unwrap().message(), "Invalid file name");
}

#[test]
fn prefix_is_the_date_and_time_of_an_id() {
    assert_eq!(
        extract_prefix("28-10-2026_22-09--Grocery_List.md"),
        Some("28-10-2026_22-09--".to_string())
    );
    assert_eq!(extract_prefix("28-10-2026_22-09--"), Some("28-10-2026_22-09--".to_string()));
    assert_eq!(extract_prefix("Grocery_List.md"), None);
    assert_eq!(extract_prefix("x28-10-2026_22-09--a.md"), None);
    assert_eq!(extract_prefix("28-10-2026_22-09-a.md"), None);
}

#[test]
fn prefix_from_group_adds_two_hyphens() {
    assert_eq!(prefix_from_group(Some("d_t".to_string())), Some("d_t--".to_string()));
    assert_eq!(prefix_from_group(None), None);
}

#[test]
fn prefix_of_a_reading_joins_date_and_time() {
    let now = Timestamp {
        date: "28-10-2026".to_string(),
        time: "22-09".to_string(),
        updated: "28-10-2026 22:09".to_string(),
    };
    assert_eq!(prefix_of(&now), "28-10-2026_22-09--");
}

#[test]
fn current_prefix_has_the_shape_of_an_id_prefix() {
    let p = current_prefix();
    assert_eq!(extract_prefix(&format!("{}x.md", p)), Some(p.clone()));
    assert!(validate_note_id(&format!("{}x.md", p)).is_ok());
}

#[test]
fn path_check_reports_each_failure() {
    let ok = || Ok(());
    assert_eq!(check_note_path(ok(), "p".to_string(), true, true).ok().unwrap(), "p");
    assert_eq!(
        check_note_path(ok(), "p".to_string(), false, true).err().unwrap().message(),
        "Cannot resolve notes directory"
    );
    assert_eq!(
        check_note_path(ok(), "p".to_string(), true, false).err().unwrap().message(),
        "Note path outside allowed directory"
    );
    assert_eq!(
        check_note_path(Err(NotesError::new("bad id")), "p".to_string(), false, false).err().unwrap().message(),
        "bad id"
    );
}

#[test]
fn safe_path_is_the_joined_path_inside_the_directory() {
    let id = "28-10-2026_22-09--a.md";
    let r = resolution(Some("/real/notes"), Some("/real/notes/28-10-2026_22-09--a.md"), Some("/real/notes"));
    assert_eq!(safe_note_path("/link/notes", id, &r).ok().unwrap(), format!("/link/notes/{}", id));
    let r = resolution(Some("/real/notes"), None, Some("/real/notes"));
    assert_eq!(safe_note_path("/link/notes/", id, &r).ok().unwrap(), format!("/link/notes/{}", id));
    let r = resolution(Some("/real/notes"), None, None);
    assert_eq!(safe_note_path("/real/notes", id, &r).ok().unwrap(), format!("/real/notes/{}", id));
}

#[test]
fn safe_path_refuses_what_leaves_the_directory() {
    let id = "28-10-2026_22-09--a.md";
    let r = resolution(Some("/real/notes"), Some("/etc/passwd"), Some("/real/notes"));
    assert_eq!(
        safe_note_path("/real/notes", id, &r).err().unwrap().message(),
        "Note path outside allowed directory"
    );
    let r = resolution(Some("/real/notes"), Some("/real/notes-other/a.md"), None);
    assert_eq!(
        safe_note_path("/real/notes", id, &r).err().unwrap().message(),
        "Note path outside allowed directory"
    );
    let r = resolution(Some("/real/notes"), None, None);
    assert_eq!(
        safe_note_path("/link/notes", id, &r).err().unwrap().message(),
        "Note path outside allowed directory"
    );
    let r = resolution(None, Some("/real/notes/a.md"), None);
    assert_eq!(
        safe_note_path("/real/notes", id, &r).err().unwrap().message(),
        "Cannot resolve notes directory"
    );
}

#[test]
fn safe_path_refuses_bad_ids_first() {
    let r = resolution(None, None, None);
    assert_eq!(
        safe_note_path("/real/notes", "../escape.md", &r).err().unwrap().message(),
        "Invalid note ID: contains path separators"
    );
    let r = resolution(Some("/real/notes"), Some("/real/notes/x"), None);
    assert_eq!(
        safe_note_path("/real/notes", "not-a-note.txt", &r).err().unwrap().message(),
        "Invalid note ID: must be a markdown file"
    );
}
