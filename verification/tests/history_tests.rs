use live_compiler::history::{Change, EditKind, History, Selection, SessionId, Text};

fn text_of(s: &str) -> Text {
    let mut t = Text::new();
    t.apply_change(&Change::Insert { at: 0, text: s.chars().collect() });
    t
}

fn as_string(t: &Text) -> String {
    t.chars.iter().collect()
}

fn sel(a: usize, c: usize) -> Selection {
    Selection { anchor: a, cursor: c }
}

#[test]
fn apply_insert_and_delete() {
    let mut t = text_of("hello");
    t.apply_change(&Change::Insert { at: 5, text: " world".chars().collect() });
    assert_eq!(as_string(&t), "hello world");
    t.apply_change(&Change::Delete { at: 0, text: "hello ".chars().collect() });
    assert_eq!(as_string(&t), "world");
}

#[test]
fn invert_round_trips() {
    let t = text_of("abcdef");
    let c = Change::Delete { at: 1, text: "bcd".chars().collect() };
    let inv = c.invert();
    let mut t2 = text_of("abcdef");
    t2.apply_change(&c);
    assert_eq!(as_string(&t2), "aef");
    t2.apply_change(&inv);
    assert_eq!(as_string(&t2), "abcdef");
}

#[test]
fn undo_restores_and_moves_group_to_redo() {
    let mut h = History::new();
    let mut t = Text::new();
    let c = Change::Insert { at: 0, text: "hi".chars().collect() };
    t.apply_change(&c);
    h.edit(SessionId(1), EditKind::Insert, &vec![sel(0, 0)], vec![c]);
    assert_eq!(as_string(&t), "hi");
    let (sels, inverted) = h.undo(&mut t).expect("one group to undo");
    assert_eq!(as_string(&t), "");
    assert_eq!(sels, vec![sel(0, 0)]);
    assert_eq!(inverted.len(), 1);
    // a second undo has nothing left
    assert!(h.undo(&mut t).is_none());
    // redo replays the group
    let (_sels, replayed) = h.redo(&mut t).expect("one group to redo");
    assert_eq!(as_string(&t), "hi");
    assert_eq!(replayed.len(), 1);
    assert!(h.redo(&mut t).is_none());
}

#[test]
fn same_kind_edits_join_one_group() {
    let mut h = History::new();
    let mut t = Text::new();
    let c1 = Change::Insert { at: 0, text: "ab".chars().collect() };
    t.apply_change(&c1);
    h.edit(SessionId(1), EditKind::Insert, &vec![sel(0, 0)], vec![c1]);
    let c2 = Change::Insert { at: 2, text: "cd".chars().collect() };
    t.apply_change(&c2);
    h.edit(SessionId(1), EditKind::Insert, &vec![sel(2, 2)], vec![c2]);
    assert_eq!(as_string(&t), "abcd");
    // both inserts fall in one group: a single undo removes everything
    h.undo(&mut t).expect("grouped undo");
    assert_eq!(as_string(&t), "");
}

#[test]
fn different_kind_opens_a_new_group() {
    let mut h = History::new();
    let mut t = Text::new();
    let c1 = Change::Insert { at: 0, text: "ab".chars().collect() };
    t.apply_change(&c1);
    h.edit(SessionId(1), EditKind::Insert, &vec![sel(0, 0)], vec![c1]);
    let c2 = Change::Delete { at: 0, text: "a".chars().collect() };
    t.apply_change(&c2);
    h.edit(SessionId(1), EditKind::Delete, &vec![sel(0, 0)], vec![c2]);
    assert_eq!(as_string(&t), "b");
    h.undo(&mut t).expect("undo the delete");
    assert_eq!(as_string(&t), "ab");
    h.undo(&mut t).expect("undo the insert");
    assert_eq!(as_string(&t), "");
}

#[test]
fn forced_group_split_separates_same_kind_edits() {
    let mut h = History::new();
    let mut t = Text::new();
    let c1 = Change::Insert { at: 0, text: "ab".chars().collect() };
    t.apply_change(&c1);
    h.edit(SessionId(1), EditKind::Insert, &vec![sel(0, 0)], vec![c1]);
    h.force_new_edit_group();
    let c2 = Change::Insert { at: 2, text: "cd".chars().collect() };
    t.apply_change(&c2);
    h.edit(SessionId(1), EditKind::Insert, &vec![sel(2, 2)], vec![c2]);
    h.undo(&mut t).expect("undo the second group only");
    assert_eq!(as_string(&t), "ab");
}

#[test]
fn fresh_edit_clears_the_redo_stack() {
    let mut h = History::new();
    let mut t = Text::new();
    let c1 = Change::Insert { at: 0, text: "ab".chars().collect() };
    t.apply_change(&c1);
    h.edit(SessionId(1), EditKind::Insert, &vec![sel(0, 0)], vec![c1]);
    h.undo(&mut t).expect("undo");
    let c2 = Change::Insert { at: 0, text: "zz".chars().collect() };
    t.apply_change(&c2);
    h.edit(SessionId(2), EditKind::Insert, &vec![sel(0, 0)], vec![c2]);
    // the undone group is gone: nothing to redo
    assert!(h.redo(&mut t).is_none());
    assert_eq!(as_string(&t), "zz");
}

#[test]
fn sessions_do_not_share_groups() {
    let mut h = History::new();
    let mut t = Text::new();
    let c1 = Change::Insert { at: 0, text: "ab".chars().collect() };
    t.apply_change(&c1);
    h.edit(SessionId(1), EditKind::Insert, &vec![sel(0, 0)], vec![c1]);
    let c2 = Change::Insert { at: 2, text: "cd".chars().collect() };
    t.apply_change(&c2);
    h.edit(SessionId(2), EditKind::Insert, &vec![sel(2, 2)], vec![c2]);
    h.undo(&mut t).expect("undo the second session's group");
    assert_eq!(as_string(&t), "ab");
}
