use tenki::{is_note_extension, is_note_path, sort_paths, title_with_stem, Scanner, SourceFile};

fn file(path: &str, content: &str) -> SourceFile {
    SourceFile { path: path.to_string(), content: content.to_string() }
}

#[test]
fn test_scanner() {
    let scanner = Scanner::new("/notes");
    let files = vec![
        file("/notes/note_a.md", "# Note A\n\nLinks to [[Note B]]."),
        file("/notes/note_b.md", "# Note B\n\nSome content."),
    ];
    let graph = scanner.build_graph(&files);
    assert_eq!(graph.note_count(), 2);
    assert_eq!(graph.link_count(), 1);
}

#[test]
fn end_to_end_backlink() {
    let scanner = Scanner::new("dir");
    let files = vec![
        file("dir/a.md", "# Note A\n\nLinks to [[Note B]]."),
        file("dir/b.md", "# Note B\n\nSome content."),
    ];
    let graph = scanner.build_graph(&files);
    assert_eq!(graph.note_count(), 2);
    assert_eq!(graph.link_count(), 1);
    let b = graph.find_by_title("Note B").unwrap();
    let back = graph.backlinks(b);
    assert_eq!(back.len(), 1);
    assert_eq!(back[0].title, "Note A");
}

#[test]
fn resolution_does_not_depend_on_order() {
    let scanner = Scanner::new("dir");
    let files = vec![
        file("dir/b.md", "# Note B\n\nSome content."),
        file("dir/a.md", "# Note A\n\nLinks to [[note b]]."),
    ];
    let graph = scanner.build_graph(&files);
    assert_eq!(graph.link_count(), 1);
}

#[test]
fn unresolved_reference_adds_no_edge() {
    let scanner = Scanner::new("dir");
    let files = vec![
        file("dir/a.md", "# Note A\n\nSee [[Nonexistent]]."),
        file("dir/b.md", "# Note B\n"),
    ];
    let graph = scanner.build_graph(&files);
    assert_eq!(graph.note_count(), 2);
    assert_eq!(graph.link_count(), 0);
}

#[test]
fn file_name_is_not_a_fallback_target() {
    let scanner = Scanner::new("dir");
    let files = vec![file("dir/a.md", "[[b]]"), file("dir/b.md", "# Other title")];
    let graph = scanner.build_graph(&files);
    assert_eq!(graph.link_count(), 0);
}

#[test]
fn self_reference_makes_a_loop() {
    let scanner = Scanner::new("dir");
    let files = vec![file("dir/a.md", "# Me\n[[me]] and [[Me|again]]")];
    let graph = scanner.build_graph(&files);
    assert_eq!(graph.link_count(), 1);
    let me = graph.find_by_path(&"dir/a.md".to_string()).unwrap();
    assert_eq!(graph.backlinks(me).len(), 1);
}

#[test]
fn duplicate_path_registers_once() {
    let scanner = Scanner::new("dir");
    let files = vec![file("dir/a.md", "# First"), file("dir/a.md", "# Second")];
    let graph = scanner.build_graph(&files);
    assert_eq!(graph.note_count(), 1);
    assert_eq!(graph.all_notes()[0].title, "First");
}

#[test]
fn title_falls_back_to_file_stem() {
    let scanner = Scanner::new("dir");
    let title = scanner.extract_title("dir/untitled-thoughts.md", "no heading here\n## not h1");
    assert_eq!(title, "untitled-thoughts");
}

#[test]
fn title_from_first_trimmed_heading_line() {
    let scanner = Scanner::new("dir");
    assert_eq!(scanner.extract_title("x.md", "intro\n   # Spaced Title  \n# Second"), "Spaced Title");
    assert_eq!(scanner.extract_title("x.md", "#NoSpace\n# Real"), "Real");
    assert_eq!(scanner.extract_title("x.md", "line\r\n# Windows\r\n"), "Windows");
    assert_eq!(scanner.extract_title("x.md", "#  two spaces"), " two spaces");
}

#[test]
fn title_untitled_without_stem() {
    let scanner = Scanner::new("dir");
    assert_eq!(scanner.extract_title("..", "text"), "Untitled");
    assert_eq!(scanner.extract_title("", ""), "Untitled");
}

#[test]
fn root_is_kept() {
    let scanner = Scanner::new("/home/me/notes");
    assert_eq!(scanner.root(), "/home/me/notes");
}

#[test]
fn listing_is_sorted() {
    let paths = vec!["c.md".to_string(), "a.md".to_string(), "b.md".to_string()];
    assert_eq!(sort_paths(paths), vec!["a.md", "b.md", "c.md"]);
}

#[test]
fn listing_sorts_by_code_point() {
    let paths = vec![
        "dir/b.md".to_string(),
        "B.md".to_string(),
        "dir/a.md".to_string(),
        "a.md".to_string(),
        "a.md".to_string(),
    ];
    assert_eq!(sort_paths(paths), vec!["B.md", "a.md", "a.md", "dir/a.md", "dir/b.md"]);
    assert!(sort_paths(Vec::new()).is_empty());
}

#[test]
fn title_from_given_stem() {
    assert_eq!(title_with_stem(Some("notes".to_string()), "plain"), "notes");
    assert_eq!(title_with_stem(None, "plain"), "Untitled");
    assert_eq!(title_with_stem(Some("notes".to_string()), "x\n # Head"), "Head");
}

#[test]
fn listing_puts_folder_contents_before_sibling_file() {
    let paths = vec!["n/foo.md".to_string(), "n/foo/bar.md".to_string(), "n/foo-x.md".to_string()];
    assert_eq!(sort_paths(paths), vec!["n/foo/bar.md", "n/foo-x.md", "n/foo.md"]);
}

#[test]
fn note_files_are_told_by_extension() {
    assert!(is_note_path("dir/a.md"));
    assert!(is_note_path("a.b.md"));
    assert!(!is_note_path("dir/a.markdown"));
    assert!(!is_note_path("dir/a.MD"));
    assert!(!is_note_path("dir/.md"));
    assert!(!is_note_path("dir/md"));
    assert!(is_note_extension(Some("md".to_string())));
    assert!(!is_note_extension(Some("txt".to_string())));
    assert!(!is_note_extension(None));
}
