use todo_cli::lines::{is_blank, line_with_newline, parse_lines, render_lines};
use todo_cli::store::{TodoError, TodoStore};

fn strings(items: &[&str]) -> Vec<String> {
    items.iter().map(|s| s.to_string()).collect()
}

#[test]
fn parse_splits_at_newlines() {
    assert_eq!(parse_lines("a\n\nb\n"), strings(&["a", "", "b", ""]));
    assert_eq!(parse_lines(""), strings(&[""]));
    assert_eq!(parse_lines("one line"), strings(&["one line"]));
    assert_eq!(parse_lines("a\nb"), strings(&["a", "b"]));
}

#[test]
fn render_joins_with_newlines() {
    assert_eq!(render_lines(&strings(&["a", "b"])), "a\nb");
    assert_eq!(render_lines(&strings(&["a", "b", ""])), "a\nb\n");
    assert_eq!(render_lines(&strings(&[])), "");
    assert_eq!(render_lines(&strings(&["solo"])), "solo");
}

#[test]
fn render_then_parse_restores_lines() {
    let lists = [
        strings(&["a", "b", ""]),
        strings(&["buy milk"]),
        strings(&["x", "", "x", " "]),
    ];
    for lines in lists {
        assert_eq!(parse_lines(&render_lines(&lines)), lines);
    }
}

#[test]
fn appended_line_ends_with_terminator() {
    assert_eq!(line_with_newline(&"buy milk".to_string()), "buy milk\n");
    assert_eq!(line_with_newline(&"".to_string()), "\n");
}

#[test]
fn blank_lines_are_whitespace_only() {
    assert!(is_blank(&"".to_string()));
    assert!(is_blank(&"   ".to_string()));
    assert!(is_blank(&"\t \r".to_string()));
    assert!(!is_blank(&"a".to_string()));
    assert!(!is_blank(&" a ".to_string()));
}

#[test]
fn list_filters_blank_pending_lines_only() {
    // A pending store holding "a\n\nb\n" lists as exactly two items.
    let store = TodoStore {
        pending: parse_lines("a\n\nb\n"),
        done: parse_lines("c\n\nd"),
    };
    let (pending, done) = store.list_all();
    assert_eq!(pending, strings(&["a", "b"]));
    // The done list is returned whole, blank lines included.
    assert_eq!(done, strings(&["c", "", "d"]));
}

#[test]
fn add_keeps_insertion_order() {
    let mut store = TodoStore::new();
    store.add("first".to_string());
    store.add("second".to_string());
    store.add("third".to_string());
    let (pending, done) = store.list_all();
    assert_eq!(pending, strings(&["first", "second", "third"]));
    assert_eq!(done, strings(&[]));
}

#[test]
fn add_permits_duplicates() {
    let mut store = TodoStore::new();
    store.add("x".to_string());
    store.add("x".to_string());
    let (pending, _) = store.list_all();
    assert_eq!(pending, strings(&["x", "x"]));
}

#[test]
fn done_moves_item_to_done_list() {
    let mut store = TodoStore::new();
    store.add("a".to_string());
    store.add("b".to_string());
    assert_eq!(store.mark_done(&"a".to_string()), Ok(()));
    let (pending, done) = store.list_all();
    assert_eq!(pending, strings(&["b"]));
    assert_eq!(done, strings(&["a"]));
}

#[test]
fn done_on_absent_item_changes_nothing() {
    let mut store = TodoStore {
        pending: strings(&["a"]),
        done: strings(&["b"]),
    };
    let before_pending = render_lines(&store.pending);
    let before_done = render_lines(&store.done);
    assert_eq!(store.mark_done(&"zz".to_string()), Err(TodoError::NotFound));
    assert_eq!(render_lines(&store.pending), before_pending);
    assert_eq!(render_lines(&store.done), before_done);
}

#[test]
fn undone_inverts_done() {
    let mut store = TodoStore {
        pending: strings(&["a", "b"]),
        done: strings(&["c"]),
    };
    assert_eq!(store.mark_done(&"b".to_string()), Ok(()));
    assert_eq!(store.mark_undone(&"b".to_string()), Ok(()));
    assert_eq!(store.done, strings(&["c"]));
    assert_eq!(store.pending, strings(&["a", "b"]));
}

#[test]
fn undone_on_absent_item_changes_nothing() {
    let mut store = TodoStore {
        pending: strings(&["a"]),
        done: strings(&["b"]),
    };
    assert_eq!(
        store.mark_undone(&"a".to_string()),
        Err(TodoError::NotFound)
    );
    assert_eq!(store.pending, strings(&["a"]));
    assert_eq!(store.done, strings(&["b"]));
}

#[test]
fn remove_deletes_only_first_duplicate() {
    let mut store = TodoStore {
        pending: strings(&["a", "b", "a"]),
        done: strings(&[]),
    };
    assert_eq!(store.remove(&"a".to_string()), Ok(()));
    assert_eq!(store.pending, strings(&["b", "a"]));
}

#[test]
fn remove_never_searches_done_list() {
    let mut store = TodoStore {
        pending: strings(&["a"]),
        done: strings(&["gone"]),
    };
    assert_eq!(store.remove(&"gone".to_string()), Err(TodoError::NotFound));
    assert_eq!(store.done, strings(&["gone"]));
}

#[test]
fn full_lifecycle_of_one_item() {
    // Fresh store: add, list, complete, un-complete, remove.
    let mut store = TodoStore::new();
    store.add("buy milk".to_string());
    let (pending, done) = store.list_all();
    assert_eq!(pending, strings(&["buy milk"]));
    assert_eq!(done, strings(&[]));

    assert_eq!(store.mark_done(&"buy milk".to_string()), Ok(()));
    let (pending, done) = store.list_all();
    assert_eq!(pending, strings(&[]));
    assert_eq!(done, strings(&["buy milk"]));

    assert_eq!(store.mark_undone(&"buy milk".to_string()), Ok(()));
    let (pending, done) = store.list_all();
    assert_eq!(pending, strings(&["buy milk"]));
    assert_eq!(done, strings(&[]));

    assert_eq!(store.remove(&"buy milk".to_string()), Ok(()));
    let (pending, done) = store.list_all();
    assert_eq!(pending, strings(&[]));
    assert_eq!(done, strings(&[]));
}

#[test]
fn done_on_empty_stores_is_not_found() {
    let mut store = TodoStore::new();
    assert_eq!(
        store.mark_done(&"ghost".to_string()),
        Err(TodoError::NotFound)
    );
    assert_eq!(store.pending, strings(&[]));
    assert_eq!(store.done, strings(&[]));
    assert_eq!(render_lines(&store.pending), "");
    assert_eq!(render_lines(&store.done), "");
}

#[test]
fn done_picks_first_occurrence() {
    let mut store = TodoStore {
        pending: strings(&["x", "y", "x"]),
        done: strings(&[]),
    };
    assert_eq!(store.mark_done(&"x".to_string()), Ok(()));
    assert_eq!(store.pending, strings(&["y", "x"]));
    assert_eq!(store.done, strings(&["x"]));
}
