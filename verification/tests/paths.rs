use mdreplace::paths::{
    destination_path, file_name, has_markdown_extension, select_markdown, staged_path,
};

fn strings(items: &[&str]) -> Vec<String> {
    items.iter().map(|s| s.to_string()).collect()
}

#[test]
fn base_name_follows_the_last_slash() {
    assert_eq!(file_name("../../faust/note.md"), "note.md");
    assert_eq!(file_name("note.md"), "note.md");
    assert_eq!(file_name("/note.md"), "note.md");
    assert_eq!(file_name("a/b/"), "");
    assert_eq!(file_name(""), "");
}

#[test]
fn markdown_files_end_in_dot_md() {
    assert!(has_markdown_extension("../../faust/note.md"));
    assert!(has_markdown_extension("a.md"));
    assert!(has_markdown_extension("test.str.two.md"));
    assert!(has_markdown_extension("..md"));
}

#[test]
fn other_entries_are_not_markdown() {
    assert!(!has_markdown_extension("../../faust/note.txt"));
    assert!(!has_markdown_extension("note.md.bak"));
    assert!(!has_markdown_extension("note.MD"));
    assert!(!has_markdown_extension("notemd"));
    assert!(!has_markdown_extension("md"));
    assert!(!has_markdown_extension(".md"));
    assert!(!has_markdown_extension("dir/.md"));
    assert!(!has_markdown_extension("dir.md/file"));
    assert!(!has_markdown_extension(""));
    assert!(!has_markdown_extension("note.mdx"));
    assert!(!has_markdown_extension("note.m"));
}

#[test]
fn agrees_with_the_standard_library_on_entries_of_a_directory() {
    let names = ["a.md", ".md", "..md", "md", "a.b.md", "a.md.txt", "a", "a.", "a.MD", "é.md", ".a.md"];
    for name in names {
        let path = format!("dir/{}", name);
        let expected =
            std::path::Path::new(&path).extension().and_then(|e| e.to_str()) == Some("md");
        assert_eq!(has_markdown_extension(&path), expected);
        assert_eq!(
            file_name(&path),
            std::path::Path::new(&path).file_name().unwrap().to_str().unwrap()
        );
    }
}

#[test]
fn selection_keeps_markdown_entries_in_order() {
    let entries = strings(&["d/z.md", "d/readme.txt", "d/a.md", "d/sub", "d/.md", "d/m.md"]);
    assert_eq!(select_markdown(&entries), strings(&["d/z.md", "d/a.md", "d/m.md"]));
    assert_eq!(select_markdown(&strings(&[])), strings(&[]));
    assert_eq!(select_markdown(&strings(&["d/x.txt"])), strings(&[]));
}

#[test]
fn staged_path_is_named_by_the_base_name() {
    assert_eq!(staged_path("./temp/", "../../faust/note-alpha.md"), "./temp/note-alpha.md");
    assert_eq!(staged_path("./temp", "../../faust/note-alpha.md"), "./temp/note-alpha.md");
    assert_eq!(staged_path("", "dir/note.md"), "note.md");
    assert_eq!(staged_path("/", "dir/note.md"), "/note.md");
}

#[test]
fn destination_replaces_in_the_whole_path() {
    assert_eq!(destination_path("notes/note-alpha.md", "alpha", "beta"), "notes/note-beta.md");
    assert_eq!(
        destination_path("../../faust/faust-one.md", "faust", "goethe"),
        "../../goethe/goethe-one.md"
    );
}

#[test]
fn destination_is_the_source_where_the_string_does_not_occur() {
    assert_eq!(destination_path("notes/other.md", "alpha", "beta"), "notes/other.md");
    assert_eq!(destination_path("notes/Alpha.md", "alpha", "beta"), "notes/Alpha.md");
}

#[test]
fn destination_there_and_back_is_the_source() {
    let there = destination_path("notes/note-alpha.md", "alpha", "beta");
    assert_eq!(destination_path(&there, "beta", "alpha"), "notes/note-alpha.md");
}
