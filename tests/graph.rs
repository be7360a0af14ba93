use tenki::{NoteGraph, NoteId};

fn s(x: &str) -> String {
    x.to_string()
}

#[test]
fn test_graph_operations() {
    let mut graph = NoteGraph::new();

    let note_a = graph.add_note(s("a.md"), s("Note A"));
    let note_b = graph.add_note(s("b.md"), s("Note B"));
    let note_c = graph.add_note(s("c.md"), s("Note C"));

    graph.add_link(note_a, note_b);
    graph.add_link(note_c, note_b);

    let backlinks = graph.backlinks(note_b);
    assert_eq!(backlinks.len(), 2);

    let forward = graph.forward_links(note_a);
    assert_eq!(forward.len(), 1);
    assert_eq!(forward[0].title, "Note B");
}

#[test]
fn repeated_path_keeps_first_title() {
    let mut graph = NoteGraph::new();
    let first = graph.add_note(s("p.md"), s("First"));
    let again = graph.add_note(s("p.md"), s("Second"));
    assert_eq!(first, again);
    assert_eq!(graph.note_count(), 1);
    let id = graph.find_by_path(&s("p.md")).unwrap();
    assert_eq!(graph.get_note(id).unwrap().title, "First");
    assert_eq!(graph.find_by_title("Second"), None);
}

#[test]
fn repeated_link_counts_once() {
    let mut graph = NoteGraph::new();
    let a = graph.add_note(s("a.md"), s("A"));
    let b = graph.add_note(s("b.md"), s("B"));
    assert_eq!(graph.link_count(), 0);
    graph.add_link(a, b);
    graph.add_link(a, b);
    assert_eq!(graph.link_count(), 1);
    graph.add_link(b, a);
    assert_eq!(graph.link_count(), 2);
}

#[test]
fn title_lookup_ignores_case() {
    let mut graph = NoteGraph::new();
    let a = graph.add_note(s("a.md"), s("Note A"));
    assert_eq!(graph.find_by_title("Note A"), Some(a));
    assert_eq!(graph.find_by_title("note a"), Some(a));
    assert_eq!(graph.find_by_title("NOTE A"), Some(a));
    assert_eq!(graph.find_by_title("Note B"), None);
}

#[test]
fn shared_title_goes_to_latest_note() {
    let mut graph = NoteGraph::new();
    let first = graph.add_note(s("one.md"), s("Same"));
    let second = graph.add_note(s("two.md"), s("SAME"));
    assert_eq!(graph.find_by_title("same"), Some(second));
    assert_eq!(graph.find_by_path(&s("one.md")), Some(first));
    assert_eq!(graph.note_count(), 2);
}

#[test]
fn links_show_in_both_directions() {
    let mut graph = NoteGraph::new();
    let a = graph.add_note(s("a.md"), s("A"));
    let b = graph.add_note(s("b.md"), s("B"));
    graph.add_link(a, b);
    let back: Vec<String> = graph.backlinks(b).iter().map(|n| n.title.clone()).collect();
    let fwd: Vec<String> = graph.forward_links(a).iter().map(|n| n.title.clone()).collect();
    assert_eq!(back, vec![s("A")]);
    assert_eq!(fwd, vec![s("B")]);
    assert!(graph.backlinks(a).is_empty());
    assert!(graph.forward_links(b).is_empty());
}

#[test]
fn self_link_is_allowed() {
    let mut graph = NoteGraph::new();
    let a = graph.add_note(s("a.md"), s("A"));
    graph.add_link(a, a);
    assert_eq!(graph.link_count(), 1);
    assert_eq!(graph.backlinks(a).len(), 1);
    assert_eq!(graph.forward_links(a)[0].path, "a.md");
}

#[test]
fn neighbours_list_latest_link_first() {
    let mut graph = NoteGraph::new();
    let a = graph.add_note(s("a.md"), s("A"));
    let b = graph.add_note(s("b.md"), s("B"));
    let c = graph.add_note(s("c.md"), s("C"));
    graph.add_link(a, b);
    graph.add_link(a, c);
    let fwd: Vec<String> = graph.forward_links(a).iter().map(|n| n.title.clone()).collect();
    assert_eq!(fwd, vec![s("C"), s("B")]);
}

#[test]
fn unknown_lookups_are_absent() {
    let graph = NoteGraph::new();
    assert_eq!(graph.find_by_path(&s("x.md")), None);
    assert_eq!(graph.find_by_title("x"), None);
    assert!(graph.get_note(NoteId { index: 0 }).is_none());
    assert!(graph.all_notes().is_empty());
    assert_eq!(graph.note_count(), 0);
}

#[test]
fn all_notes_in_insertion_order() {
    let mut graph = NoteGraph::new();
    graph.add_note(s("b.md"), s("B"));
    graph.add_note(s("a.md"), s("A"));
    let paths: Vec<String> = graph.all_notes().iter().map(|n| n.path.clone()).collect();
    assert_eq!(paths, vec![s("b.md"), s("a.md")]);
}

#[test]
fn normalized_lookup_is_exact() {
    let mut graph = NoteGraph::new();
    let a = graph.add_note(s("a.md"), s("Note A"));
    assert_eq!(graph.find_by_normalized_title("note a"), Some(a));
    assert_eq!(graph.find_by_normalized_title("Note A"), None);
}

#[test]
fn unknown_id_has_no_neighbours() {
    let mut graph = NoteGraph::new();
    let a = graph.add_note(s("a.md"), s("A"));
    graph.add_link(a, a);
    let far = NoteId { index: 1 << 32 };
    assert!(graph.backlinks(far).is_empty());
    assert!(graph.forward_links(far).is_empty());
    assert!(graph.get_note(far).is_none());
    assert!(graph.backlinks(NoteId { index: 1 }).is_empty());
}
