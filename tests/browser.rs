use tenki::{App, Pane, Scanner, SourceFile};

fn browser() -> App {
    let scanner = Scanner::new("n");
    let files = vec![
        SourceFile { path: "n/a.md".to_string(), content: "# Note A\n[[Note B]]".to_string() },
        SourceFile { path: "n/b.md".to_string(), content: "# Note B\n".to_string() },
        SourceFile { path: "n/c.md".to_string(), content: "# Note C\n[[note b]] [[Note A]]".to_string() },
    ];
    let graph = scanner.build_graph(&files);
    let listed = vec!["n/a.md".to_string(), "n/b.md".to_string(), "n/c.md".to_string()];
    App::new(scanner, graph, listed)
}

#[test]
fn opens_on_first_file_with_its_backlinks() {
    let app = browser();
    assert_eq!(app.active_pane, Pane::Files);
    assert_eq!(app.file_list_state, 0);
    assert_eq!(app.selected_file(), Some("n/a.md".to_string()));
    assert_eq!(app.backlinks, vec!["Note C"]);
}

#[test]
fn file_cursor_stays_in_bounds() {
    let mut app = browser();
    assert!(!app.move_up());
    assert!(app.move_down());
    assert_eq!(app.file_list_state, 1);
    assert_eq!(app.backlinks.len(), 2);
    assert!(app.move_down());
    assert!(!app.move_down());
    assert_eq!(app.file_list_state, 2);
    assert!(app.backlinks.is_empty());
    assert!(app.move_up());
    assert_eq!(app.file_list_state, 1);
}

#[test]
fn backlink_cursor_and_jump() {
    let mut app = browser();
    app.move_down();
    app.next_pane();
    app.next_pane();
    assert_eq!(app.active_pane, Pane::Backlinks);
    assert!(!app.move_down());
    assert_eq!(app.backlink_list_state, 1);
    assert!(!app.move_down());
    assert_eq!(app.backlink_list_state, 1);
    let target = app.backlinks[1].clone();
    assert!(app.select());
    assert_eq!(app.active_pane, Pane::Files);
    let expected = if target == "Note A" { 0 } else { 2 };
    assert_eq!(app.file_list_state, expected);
}

#[test]
fn preview_pane_ignores_moves() {
    let mut app = browser();
    app.next_pane();
    assert_eq!(app.active_pane, Pane::Preview);
    assert!(!app.move_down());
    assert!(!app.select());
    assert_eq!(app.file_list_state, 0);
    app.prev_pane();
    assert_eq!(app.active_pane, Pane::Files);
}

#[test]
fn empty_listing_selects_nothing() {
    let scanner = Scanner::new("n");
    let graph = scanner.build_graph(&Vec::new());
    let mut app = App::new(scanner, graph, Vec::new());
    assert_eq!(app.selected_file(), None);
    assert!(app.backlinks.is_empty());
    assert!(!app.move_down());
}
