use editor_core::cursor::{Cursor, CursorPosition, CursorSet};

#[test]
fn test_cursor_position_ordering() {
    let a = CursorPosition::new(0, 5);
    let b = CursorPosition::new(1, 0);
    let c = CursorPosition::new(1, 3);

    assert!(a.is_before(&b));
    assert!(b.is_before(&c));
    assert!(!c.is_before(&a));
}

#[test]
fn test_cursor_selection() {
    let cursor = Cursor::with_selection(CursorPosition::new(1, 5), CursorPosition::new(0, 3));

    assert!(cursor.has_selection());
    assert_eq!(cursor.selection_start(), CursorPosition::new(0, 3));
    assert_eq!(cursor.selection_end(), CursorPosition::new(1, 5));
}

#[test]
fn test_cursor_set_merge() {
    let mut set = CursorSet::new(Cursor::with_selection(
        CursorPosition::new(0, 0),
        CursorPosition::new(0, 2),
    ));
    set.add(Cursor::new(CursorPosition::new(0, 1)));
    set.add(Cursor::new(CursorPosition::new(2, 0)));

    // First two should merge since they overlap
    assert_eq!(set.all().len(), 2);
}

#[test]
fn position_operators_follow_line_then_column() {
    let a = CursorPosition::new(0, 9);
    let b = CursorPosition::new(1, 0);
    assert!(a < b);
    assert!(a <= a);
    assert!(b > a);
    assert!(!(b < a));
    assert_eq!(CursorPosition::zero(), CursorPosition::new(0, 0));
    assert_eq!(CursorPosition::min(&a, &b), a);
    assert_eq!(CursorPosition::max(&a, &b), b);
    assert_eq!(CursorPosition::min(&b, &a), a);
    assert_eq!(CursorPosition::max(&a, &a), a);
}

#[test]
fn cursor_moves_and_collapses() {
    let mut c = Cursor::zero();
    assert!(!c.has_selection());
    c.move_to(CursorPosition::new(2, 4), true);
    assert_eq!(c.head, CursorPosition::new(2, 4));
    assert_eq!(c.anchor, CursorPosition::new(0, 0));
    assert!(c.has_selection());
    c.collapse();
    assert_eq!(c.anchor, CursorPosition::new(2, 4));
    c.move_to(CursorPosition::new(1, 1), false);
    assert_eq!(c, Cursor::new(CursorPosition::new(1, 1)));
    c.set_preferred_column(7);
    assert_eq!(c.preferred_column, Some(7));
    c.clear_preferred_column();
    assert_eq!(c.preferred_column, None);
}

#[test]
fn add_sorts_and_keeps_cursors_apart() {
    let mut set = CursorSet::new(Cursor::new(CursorPosition::new(5, 0)));
    set.add(Cursor::with_selection(CursorPosition::new(1, 4), CursorPosition::new(1, 0)));
    set.add(Cursor::new(CursorPosition::new(3, 2)));
    set.add(Cursor::with_selection(CursorPosition::new(1, 2), CursorPosition::new(2, 0)));
    let all = set.all();
    assert_eq!(all.len(), 3);
    assert_eq!(all[0].selection_start(), CursorPosition::new(1, 0));
    assert_eq!(all[0].selection_end(), CursorPosition::new(2, 0));
    assert_eq!(all[1], Cursor::new(CursorPosition::new(3, 2)));
    assert_eq!(all[2], Cursor::new(CursorPosition::new(5, 0)));
    for pair in all.windows(2) {
        assert!(pair[0].selection_end() < pair[1].selection_start());
    }
    assert!(set.is_multi());
}

#[test]
fn merge_points_the_way_of_the_cursor_that_extends() {
    // A forward selection extended by a forward one keeps its anchor.
    let mut set = CursorSet::new(Cursor::with_selection(
        CursorPosition::new(0, 5),
        CursorPosition::new(0, 0),
    ));
    set.add(Cursor::with_selection(CursorPosition::new(0, 9), CursorPosition::new(0, 3)));
    assert_eq!(
        set.all(),
        &[Cursor::with_selection(CursorPosition::new(0, 9), CursorPosition::new(0, 0))]
    );

    // A forward selection extended by a backward one turns backward and
    // still starts where it started.
    let mut set = CursorSet::new(Cursor::with_selection(
        CursorPosition::new(0, 5),
        CursorPosition::new(0, 0),
    ));
    set.add(Cursor::with_selection(CursorPosition::new(0, 3), CursorPosition::new(0, 9)));
    assert_eq!(
        set.all(),
        &[Cursor::with_selection(CursorPosition::new(0, 0), CursorPosition::new(0, 9))]
    );

    // Selections that only touch are joined too.
    let mut set = CursorSet::new(Cursor::with_selection(
        CursorPosition::new(0, 5),
        CursorPosition::new(0, 0),
    ));
    set.add(Cursor::with_selection(CursorPosition::new(0, 8), CursorPosition::new(0, 5)));
    assert_eq!(set.all().len(), 1);
    assert_eq!(set.primary().selection_end(), CursorPosition::new(0, 8));
}

#[test]
fn adding_a_covered_cursor_changes_nothing() {
    let mut set = CursorSet::new(Cursor::with_selection(
        CursorPosition::new(0, 8),
        CursorPosition::new(0, 2),
    ));
    set.add(Cursor::new(CursorPosition::new(4, 0)));
    let before: Vec<Cursor> = set.all().to_vec();
    set.add(Cursor::with_selection(CursorPosition::new(0, 3), CursorPosition::new(0, 6)));
    assert_eq!(set.all(), &before[..]);
    set.add(Cursor::new(CursorPosition::new(4, 0)));
    assert_eq!(set.all(), &before[..]);
}

#[test]
fn merge_overlapping_after_moving_the_primary() {
    let mut set = CursorSet::new(Cursor::new(CursorPosition::new(0, 0)));
    set.add(Cursor::new(CursorPosition::new(3, 0)));
    set.primary_mut().move_to(CursorPosition::new(3, 0), false);
    assert_eq!(set.all().len(), 2);
    set.merge_overlapping();
    assert_eq!(set.all(), &[Cursor::new(CursorPosition::new(3, 0))]);
}

#[test]
fn collapse_to_primary_keeps_the_first() {
    let mut set = CursorSet::new(Cursor::new(CursorPosition::new(1, 1)));
    set.add(Cursor::new(CursorPosition::new(2, 2)));
    set.add(Cursor::new(CursorPosition::new(0, 7)));
    assert_eq!(*set.primary(), Cursor::new(CursorPosition::new(0, 7)));
    set.collapse_to_primary();
    assert!(!set.is_multi());
    assert_eq!(set.all(), &[Cursor::new(CursorPosition::new(0, 7))]);
    let copy = set.clone();
    assert_eq!(copy.all(), set.all());
    assert_eq!(CursorSet::default().all(), &[Cursor::zero()]);
}
