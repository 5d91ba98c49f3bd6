use velocitext::filename::{
    append_suffix, build_filename, ensure_unique_filename, slugify_title, MAX_SLUG_LEN,
};

fn names(list: &[&str]) -> Vec<String> {
    list.iter().map(|s| s.to_string()).collect()
}

#[test]
fn slug_replaces_spaces_and_forbidden_characters() {
    assert_eq!(slugify_title("Grocery List"), "Grocery_List");
    assert_eq!(slugify_title("a/b\\c:d*e?f\"g<h>i|j"), "a-b-c-d-e-f-g-h-i-j");
    assert_eq!(slugify_title("Déjà vu!"), "Déjà_vu!");
    assert_eq!(slugify_title("  "), "__");
}

#[test]
fn slug_of_empty_title_is_note() {
    assert_eq!(slugify_title(""), "note");
}

#[test]
fn slug_stops_at_its_cap() {
    assert_eq!(MAX_SLUG_LEN, 101);
    let long: String = std::iter::repeat('x').take(300).collect();
    assert_eq!(slugify_title(&long).chars().count(), 101);
    let exact: String = std::iter::repeat('é').take(101).collect();
    assert_eq!(slugify_title(&exact), exact);
    let over: String = std::iter::repeat(' ').take(102).collect();
    let cut: String = std::iter::repeat('_').take(101).collect();
    assert_eq!(slugify_title(&over), cut);
}

#[test]
fn filename_is_prefix_slug_and_extension() {
    assert_eq!(build_filename("28-10-2026_22-09--", "Grocery_List"), "28-10-2026_22-09--Grocery_List.md");
    assert_eq!(build_filename("p--", ""), "p--note.md");
}

#[test]
fn suffix_goes_before_the_extension() {
    assert_eq!(append_suffix("a--b.md", 2), "a--b_2.md");
    assert_eq!(append_suffix("a--b.md", 10), "a--b_10.md");
    assert_eq!(append_suffix("plain", 3), "plain_3");
    assert_eq!(append_suffix(".md", 2), "_2.md");
}

#[test]
fn free_base_is_taken_as_it_is() {
    assert_eq!(ensure_unique_filename(&names(&[]), "n.md", None), "n.md");
    assert_eq!(ensure_unique_filename(&names(&["other.md"]), "n.md", None), "n.md");
}

#[test]
fn taken_base_gets_the_first_free_number() {
    assert_eq!(ensure_unique_filename(&names(&["n.md"]), "n.md", None), "n_2.md");
    assert_eq!(ensure_unique_filename(&names(&["n.md", "n_2.md", "n_3.md"]), "n.md", None), "n_4.md");
    assert_eq!(ensure_unique_filename(&names(&["n_3.md", "n.md"]), "n.md", None), "n_2.md");
    assert_eq!(ensure_unique_filename(&names(&["n.md", "n.md", "n_2.md"]), "n.md", None), "n_3.md");
}

#[test]
fn current_name_counts_as_free() {
    assert_eq!(ensure_unique_filename(&names(&["n.md"]), "n.md", Some("n.md")), "n.md");
    assert_eq!(ensure_unique_filename(&names(&["n.md", "n_2.md"]), "n.md", Some("n_2.md")), "n_2.md");
    assert_eq!(ensure_unique_filename(&names(&["n.md", "n_2.md"]), "n.md", Some("old.md")), "n_3.md");
}

#[test]
fn many_taken_names_still_end_in_a_free_one() {
    let mut taken = vec!["n.md".to_string()];
    for k in 2..60 {
        taken.push(format!("n_{}.md", k));
    }
    assert_eq!(ensure_unique_filename(&taken, "n.md", None), "n_60.md");
}

#[test]
fn slug_holds_nothing_that_a_file_name_may_not() {
    for title in ["", " ", "a b", "x/y\\z", "?:*\"<>|", "tab\there", "é è"] {
        let slug = slugify_title(title);
        assert!(!slug.is_empty());
        assert!(slug.chars().count() <= MAX_SLUG_LEN);
        assert!(!slug.chars().any(|c| " /\\:*?\"<>|".contains(c)));
    }
}
