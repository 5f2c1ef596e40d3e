use tooey::selection::StatefulList;

#[test]
fn next_cycles_back_to_start() {
    // the cyclic law: next() composed len(items) times returns the cursor
    // to its starting index
    let mut list = StatefulList::with_items(vec![10, 20, 30, 40, 50]);
    list.start();
    let mut i = 0;
    while i < 5 {
        list.next();
        i += 1;
    }
    assert_eq!(list.cursor, Some(0));

    list.next();
    list.next();
    assert_eq!(list.cursor, Some(2));
    let mut i = 0;
    while i < 5 {
        list.next();
        i += 1;
    }
    assert_eq!(list.cursor, Some(2));
}

#[test]
fn previous_wraps_backward() {
    let mut list = StatefulList::with_items(vec![1, 2, 3]);
    list.start();
    list.previous();
    assert_eq!(list.cursor, Some(2));
    list.previous();
    assert_eq!(list.cursor, Some(1));
}

#[test]
fn first_and_last_jump() {
    let mut list = StatefulList::with_items(vec!["a", "b", "c", "d"]);
    list.end();
    assert_eq!(list.cursor, Some(3));
    list.start();
    assert_eq!(list.cursor, Some(0));
}

#[test]
fn empty_list_moves_are_noops() {
    let mut list: StatefulList<i32> = StatefulList::with_items(Vec::new());
    list.next();
    assert_eq!(list.cursor, None);
    list.previous();
    assert_eq!(list.cursor, None);
    list.start();
    list.end();
    assert_eq!(list.cursor, None);
}

#[test]
fn unset_cursor_resumes_at_last_selected() {
    let mut list = StatefulList { items: vec![10, 20, 30], cursor: None, last_selected: Some(2) };
    list.next();
    assert_eq!(list.cursor, Some(2));

    let mut fresh = StatefulList::with_items(vec![10, 20, 30]);
    fresh.next();
    assert_eq!(fresh.cursor, Some(0));
}

#[test]
fn selected_reports_cursor() {
    let mut list = StatefulList::with_items(vec![7, 8]);
    assert_eq!(list.selected(), None);
    list.end();
    assert_eq!(list.selected(), Some(1));
}
