use hecto::buffer::{Buffer, Location, SaveError};

fn lines_of(b: &Buffer) -> Vec<String> {
    (0..b.height()).map(|i| b.line(i).unwrap().to_text()).collect()
}

#[test]
fn buffer_search_across_lines() {
    let b = Buffer::load("t.txt", "foo\nbar\n");
    assert_eq!(
        b.search_forward("bar", Location { line_idx: 0, grapheme_idx: 0 }),
        Some(Location { line_idx: 1, grapheme_idx: 0 })
    );
    assert_eq!(b.search_forward("baz", Location { line_idx: 0, grapheme_idx: 0 }), None);
    assert_eq!(b.search_backward("baz", Location { line_idx: 1, grapheme_idx: 3 }), None);
}

#[test]
fn buffer_search_wraps_around() {
    let b = Buffer::load("t.txt", "foo\nbar\nfoo");
    assert_eq!(
        b.search_forward("foo", Location { line_idx: 2, grapheme_idx: 1 }),
        Some(Location { line_idx: 0, grapheme_idx: 0 })
    );
    assert_eq!(
        b.search_forward("fo", Location { line_idx: 0, grapheme_idx: 1 }),
        Some(Location { line_idx: 2, grapheme_idx: 0 })
    );
    assert_eq!(
        b.search_backward("foo", Location { line_idx: 0, grapheme_idx: 0 }),
        Some(Location { line_idx: 2, grapheme_idx: 0 })
    );
    assert_eq!(
        b.search_backward("bar", Location { line_idx: 2, grapheme_idx: 3 }),
        Some(Location { line_idx: 1, grapheme_idx: 0 })
    );
    assert_eq!(b.search_forward("", Location { line_idx: 0, grapheme_idx: 0 }), None);
}

#[test]
fn buffer_search_same_line_after_wrap() {
    let b = Buffer::load("t.txt", "ab ab");
    assert_eq!(
        b.search_forward("ab", Location { line_idx: 0, grapheme_idx: 1 }),
        Some(Location { line_idx: 0, grapheme_idx: 3 })
    );
    assert_eq!(
        b.search_forward("ab", Location { line_idx: 0, grapheme_idx: 4 }),
        Some(Location { line_idx: 0, grapheme_idx: 0 })
    );
}

#[test]
fn delete_at_end_of_line_merges() {
    let mut b = Buffer::load("t.txt", "foo\nbar");
    b.delete(Location { line_idx: 0, grapheme_idx: 3 });
    assert_eq!(lines_of(&b), vec!["foobar"]);
    assert!(b.is_dirty());
}

#[test]
fn delete_at_end_of_last_line_is_noop() {
    let mut b = Buffer::load("t.txt", "foo\nbar");
    b.delete(Location { line_idx: 1, grapheme_idx: 3 });
    assert_eq!(lines_of(&b), vec!["foo", "bar"]);
    assert!(!b.is_dirty());
}

#[test]
fn delete_inside_line() {
    let mut b = Buffer::load("t.txt", "foo\nbar");
    b.delete(Location { line_idx: 1, grapheme_idx: 1 });
    assert_eq!(lines_of(&b), vec!["foo", "br"]);
}

#[test]
fn insert_char_and_newline() {
    let mut b = Buffer::new();
    assert!(b.is_empty());
    b.insert_char('x', Location { line_idx: 0, grapheme_idx: 0 });
    assert_eq!(lines_of(&b), vec!["x"]);
    b.insert_char('y', Location { line_idx: 0, grapheme_idx: 1 });
    b.insert_newline(Location { line_idx: 0, grapheme_idx: 1 });
    assert_eq!(lines_of(&b), vec!["x", "y"]);
    b.insert_newline(Location { line_idx: 2, grapheme_idx: 0 });
    assert_eq!(lines_of(&b), vec!["x", "y", ""]);
    b.insert_char('z', Location { line_idx: 9, grapheme_idx: 0 });
    assert_eq!(b.height(), 3);
    assert_eq!(b.grapheme_count(0), 1);
    assert_eq!(b.grapheme_count(9), 0);
    assert_eq!(b.width_until(9, 3), 0);
}

#[test]
fn load_splits_lines() {
    let b = Buffer::load("a.txt", "one\r\ntwo\n\nthree");
    assert_eq!(lines_of(&b), vec!["one", "two", "", "three"]);
    assert!(!b.is_dirty());
    assert!(b.is_file_loaded());
    let e = Buffer::load("a.txt", "");
    assert_eq!(e.height(), 0);
}

#[test]
fn save_then_load_round_trip() {
    let mut b = Buffer::load("a.txt", "alpha\nbeta");
    b.insert_char('!', Location { line_idx: 1, grapheme_idx: 4 });
    let text = b.contents();
    assert_eq!(text, "alpha\nbeta!\n");
    assert_eq!(b.save(), Ok(()));
    assert!(!b.is_dirty());
    let again = Buffer::load("a.txt", &text);
    assert_eq!(lines_of(&again), lines_of(&b));
}

#[test]
fn save_without_file_fails() {
    let mut b = Buffer::new();
    b.insert_char('a', Location { line_idx: 0, grapheme_idx: 0 });
    assert_eq!(b.save(), Err(SaveError::NoFileName));
    assert!(b.is_dirty());
    b.save_as("new.txt");
    assert!(!b.is_dirty());
    assert_eq!(b.get_file_info().get_path(), Some("new.txt".to_string()));
}
