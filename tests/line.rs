use hecto::line::{GraphemeWidth, Line};

#[test]
fn emoji_line_counts_and_widths() {
    let line = Line::from("a😀b");
    assert_eq!(line.grapheme_count(), 3);
    assert_eq!(line.width(), 4);
    assert_eq!(line.width_until(0), 0);
    assert_eq!(line.width_until(1), 1);
    assert_eq!(line.width_until(2), 3);
    assert_eq!(line.width_until(10), 4);
}

#[test]
fn combining_marks_form_one_grapheme() {
    let line = Line::from("e\u{301}x");
    assert_eq!(line.grapheme_count(), 2);
    assert_eq!(line.grapheme_idx_to_byte_idx(1), 3);
}

#[test]
fn replacement_characters() {
    let line = Line::from(" \t\u{3000}\u{7}\u{200b}a");
    assert_eq!(line.fragment(0).replacement, None);
    assert_eq!(line.fragment(1).replacement, Some(' '));
    assert_eq!(line.fragment(2).replacement, Some('␣'));
    assert_eq!(line.fragment(3).replacement, None);
    assert_eq!(line.fragment(4).replacement, Some('·'));
    assert_eq!(line.fragment(5).replacement, None);
    assert_eq!(line.fragment(2).rendered_width, GraphemeWidth::Half);
    assert_eq!(line.fragment(5).start, 1 + 1 + 3 + 1 + 3);
}

#[test]
fn wide_glyph_is_full_width() {
    let line = Line::from("日本");
    assert_eq!(line.fragment(0).rendered_width, GraphemeWidth::Full);
    assert_eq!(line.width(), 4);
}

#[test]
fn insert_char_in_middle_and_at_end() {
    let mut line = Line::from("ac");
    line.insert_char('b', 1);
    assert_eq!(line.as_str(), "abc");
    line.insert_char('d', 3);
    assert_eq!(line.as_str(), "abcd");
    line.insert_char('e', 99);
    assert_eq!(line.as_str(), "abcde");
    line.append_char('f');
    assert_eq!(line.as_str(), "abcdef");
}

#[test]
fn insert_then_delete_restores_line() {
    let mut line = Line::from("h😀llo");
    line.insert_char('x', 2);
    assert_eq!(line.as_str(), "h😀xllo");
    line.delete(2);
    assert_eq!(line.as_str(), "h😀llo");
}

#[test]
fn delete_out_of_range_is_noop() {
    let mut line = Line::from("ab");
    line.delete(5);
    assert_eq!(line.as_str(), "ab");
    line.delete_last();
    assert_eq!(line.as_str(), "a");
    line.delete_last();
    line.delete_last();
    assert_eq!(line.as_str(), "");
}

#[test]
fn delete_removes_whole_grapheme() {
    let mut line = Line::from("ae\u{301}b");
    line.delete(1);
    assert_eq!(line.as_str(), "ab");
}

#[test]
fn append_joins_text() {
    let mut line = Line::from("foo");
    let other = Line::from("bar");
    line.append(&other);
    assert_eq!(line.as_str(), "foobar");
    assert_eq!(line.grapheme_count(), 6);
}

#[test]
fn split_cuts_at_grapheme() {
    let mut line = Line::from("he😀llo");
    let tail = line.split(2);
    assert_eq!(line.as_str(), "he");
    assert_eq!(tail.as_str(), "😀llo");
    let empty = line.split(7);
    assert_eq!(empty.as_str(), "");
    assert_eq!(line.as_str(), "he");
}

#[test]
fn search_forward_and_backward() {
    let line = Line::from("abcabc");
    assert_eq!(line.search_forward("bc", 0), Some(1));
    assert_eq!(line.search_forward("bc", 2), Some(4));
    assert_eq!(line.search_forward("bc", 5), None);
    assert_eq!(line.search_forward("", 0), None);
    assert_eq!(line.search_backward("bc", 6), Some(4));
    assert_eq!(line.search_backward("bc", 4), Some(1));
    assert_eq!(line.search_backward("bc", 0), None);
    assert_eq!(line.search_backward("", 6), None);
}

#[test]
fn search_rejects_split_grapheme() {
    let line = Line::from("e\u{301}e");
    assert_eq!(line.search_forward("e", 0), Some(1));
    assert_eq!(line.search_backward("e", 2), Some(1));
}

#[test]
fn find_all_in_window() {
    let line = Line::from("aXbXc😀X");
    assert_eq!(line.find_all("X", 0..100), vec![(1, 1), (3, 3), (9, 6)]);
    assert_eq!(line.find_all("X", 2..4), vec![(3, 3)]);
    assert_eq!(line.find_all("X", 5..2), vec![]);
    assert_eq!(line.find_all("aa", 0..3), vec![]);
}

#[test]
fn find_all_does_not_overlap() {
    let line = Line::from("aaaa");
    assert_eq!(line.find_all("aa", 0..4), vec![(0, 0), (2, 2)]);
}

#[test]
fn byte_and_grapheme_indices() {
    let line = Line::from("a😀b");
    assert_eq!(line.byte_idx_to_grapheme_idx(0), Some(0));
    assert_eq!(line.byte_idx_to_grapheme_idx(2), Some(2));
    assert_eq!(line.byte_idx_to_grapheme_idx(5), Some(2));
    assert_eq!(line.byte_idx_to_grapheme_idx(6), None);
    assert_eq!(line.byte_idx_to_grapheme_idx(7), None);
    assert_eq!(line.grapheme_idx_to_byte_idx(2), 5);
    assert_eq!(line.grapheme_idx_to_byte_idx(9), 6);
}

#[test]
fn visible_graphemes_clip_with_ellipsis() {
    let line = Line::from("a😀b😀c");
    assert_eq!(line.get_visible_graphemes(0..7), "a😀b😀c");
    assert_eq!(line.get_visible_graphemes(0..2), "a⋯");
    assert_eq!(line.get_visible_graphemes(2..7), "⋯b😀c");
    assert_eq!(line.get_visible_graphemes(3..4), "b");
    assert_eq!(line.get_visible_graphemes(3..3), "");
    assert_eq!(line.get_visible_graphemes(1..3), "😀");
}

#[test]
fn visible_graphemes_show_replacements() {
    let line = Line::from("a\tb");
    assert_eq!(line.get_visible_graphemes(0..10), "a b");
}

#[test]
fn width_fits_for_ordinary_lines() {
    assert!(Line::from("hello").width_fits());
}
