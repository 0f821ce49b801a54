use hecto::buffer::{Buffer, Location};
use hecto::command::Edit;
use hecto::ui::{CommandBar, DocumentStatus, MessageBar, Position, Size, StatusBar, UIComponent};

#[test]
fn empty_buffer_search_finds_nothing() {
    let b = Buffer::new();
    assert_eq!(b.search_forward("a", Location { line_idx: 0, grapheme_idx: 0 }), None);
    assert_eq!(b.search_backward("a", Location { line_idx: 0, grapheme_idx: 0 }), None);
}

#[test]
fn geometry_helpers() {
    assert_eq!(Size::new(3, 4).area(), 12);
    assert!(Size::new(0, 4).is_zero());
    assert!(!Size::new(1, 4).is_zero());
    let p = Position { col: 3, row: 1 }.saturating_sub(Position { col: 5, row: 1 });
    assert_eq!(p, Position { col: 0, row: 0 });
}

#[test]
fn message_expires_after_five_seconds() {
    let mut m = MessageBar::new();
    m.update_message("hi", 1000);
    assert!(!m.is_expired(6000));
    assert!(m.is_expired(6001));
    assert_eq!(m.render_text(2000), "hi");
    assert_eq!(m.render_text(7000), "");
    assert!(m.cleared_after_expiry);
}

#[test]
fn command_bar_typing_and_caret() {
    let mut c = CommandBar::new();
    c.set_prompt("Find: ");
    c.set_width(20);
    c.handle_edit_command(Edit::Insert('a'));
    c.handle_edit_command(Edit::Insert('😀'));
    assert_eq!(c.value(), "a😀");
    assert_eq!(c.caret_position_col(), 8);
    assert_eq!(c.render_text(), "Find: a😀");
    c.handle_edit_command(Edit::DeleteBackward);
    assert_eq!(c.value(), "a");
    c.handle_edit_command(Edit::Delete);
    assert_eq!(c.value(), "a");
    c.clear_value();
    assert_eq!(c.value(), "");
    assert!(c.needs_redraw());
}

#[test]
fn command_bar_shows_end_of_long_value() {
    let mut c = CommandBar::new();
    c.set_prompt("> ");
    c.set_width(5);
    for ch in "abcdef".chars() {
        c.handle_edit_command(Edit::Insert(ch));
    }
    assert_eq!(c.render_text(), "> def");
}

#[test]
fn status_line_text() {
    let mut s = StatusBar::new();
    s.set_size(Size { height: 1, width: 30 });
    s.update_status(DocumentStatus { total_lines: 2, current_line_idx: 0, is_modified: true, file_name: "a.txt".to_string() });
    assert!(s.needs_redraw());
    assert_eq!(s.render_text(), "a.txt - 2 lines (modified) 1/2");
    s.set_size(Size { height: 1, width: 10 });
    assert_eq!(s.render_text(), "");
}
