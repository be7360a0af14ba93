use tenki::Pane;

#[test]
fn panes_cycle_forward() {
    assert_eq!(Pane::Files.next(), Pane::Preview);
    assert_eq!(Pane::Preview.next(), Pane::Backlinks);
    assert_eq!(Pane::Backlinks.next(), Pane::Files);
}

#[test]
fn panes_cycle_backward() {
    assert_eq!(Pane::Files.prev(), Pane::Backlinks);
    assert_eq!(Pane::Preview.prev(), Pane::Files);
    assert_eq!(Pane::Backlinks.prev(), Pane::Preview);
}
