use spider::history::StateWithUndoHistory;

#[test]
fn undo_takes_back_the_last_action() {
    let mut h: StateWithUndoHistory<u32, &str> = StateWithUndoHistory::new(7);
    assert_eq!(h.undo(), None);
    h.record("deal");
    h.record("move");
    assert_eq!(h.undo_stack, vec!["deal", "move"]);
    assert_eq!(h.undo(), Some("move"));
    assert_eq!(h.undo_stack, vec!["deal"]);
    assert_eq!(h.undo(), Some("deal"));
    assert_eq!(h.undo(), None);
    assert_eq!(h.state, 7);
}
