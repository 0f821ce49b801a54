use hecto::annotated::{Annotation, AnnotationType};
use hecto::buffer::Location;
use hecto::command::{Command, Edit, Key, KeyModifiers, Move, System};
use hecto::fileinfo::{FileInfo, FileType};
use hecto::ui::{DocumentStatus, Position, Size, UIComponent};
use hecto::view::{build_welcome_message, RenderedRow, View};

fn view_with(text: &str) -> View {
    let mut v = View::new();
    v.load("doc.txt", text);
    v.set_window_size(Size { height: 10, width: 20 });
    v
}

#[test]
fn caret_moves_and_wraps() {
    let mut v = view_with("ab\ncd");
    v.handle_move_command(Move::Right);
    v.handle_move_command(Move::Right);
    v.handle_move_command(Move::Right);
    assert_eq!(v.text_location(), Location { line_idx: 1, grapheme_idx: 0 });
    v.handle_move_command(Move::Left);
    assert_eq!(v.text_location(), Location { line_idx: 0, grapheme_idx: 2 });
    v.handle_move_command(Move::Down);
    v.handle_move_command(Move::Down);
    assert_eq!(v.text_location(), Location { line_idx: 2, grapheme_idx: 0 });
    v.handle_move_command(Move::EndOfLine);
    assert_eq!(v.text_location().grapheme_idx, 0);
    v.handle_move_command(Move::PageUp);
    assert_eq!(v.text_location(), Location { line_idx: 0, grapheme_idx: 0 });
}

#[test]
fn typing_moves_caret() {
    let mut v = view_with("");
    v.handle_edit_command(Edit::Insert('h'));
    v.handle_edit_command(Edit::Insert('i'));
    assert_eq!(v.text_location(), Location { line_idx: 0, grapheme_idx: 2 });
    v.handle_edit_command(Edit::InsertNewline);
    assert_eq!(v.text_location(), Location { line_idx: 1, grapheme_idx: 0 });
    v.handle_edit_command(Edit::DeleteBackward);
    assert_eq!(v.text_location(), Location { line_idx: 0, grapheme_idx: 2 });
    assert_eq!(v.buffer().height(), 1);
    assert_eq!(v.get_status().total_lines, 1);
    assert!(v.get_status().is_modified);
}

#[test]
fn caret_position_follows_width() {
    let mut v = view_with("😀x");
    v.handle_move_command(Move::Right);
    assert_eq!(v.caret_position(), Position { col: 2, row: 0 });
}

#[test]
fn search_and_dismiss() {
    let mut v = view_with("foo\nbar\nfoo bar");
    v.enter_search();
    v.search("bar");
    assert_eq!(v.text_location(), Location { line_idx: 1, grapheme_idx: 0 });
    v.search_next();
    assert_eq!(v.text_location(), Location { line_idx: 2, grapheme_idx: 4 });
    v.search_prev();
    assert_eq!(v.text_location(), Location { line_idx: 1, grapheme_idx: 0 });
    v.dismiss_search();
    assert_eq!(v.text_location(), Location { line_idx: 0, grapheme_idx: 0 });
}

#[test]
fn render_rows_show_text_and_tildes() {
    let v = view_with("hello");
    let rows = v.render_rows(0);
    assert_eq!(rows.len(), 10);
    match &rows[0] {
        RenderedRow::Text(a) => assert_eq!(a.as_string(), "hello"),
        RenderedRow::Plain(_) => panic!("expected text"),
    }
    match &rows[1] {
        RenderedRow::Plain(s) => assert_eq!(s, "~"),
        RenderedRow::Text(_) => panic!("expected tilde"),
    }
}

#[test]
fn welcome_message_is_centred() {
    assert_eq!(build_welcome_message(0), "");
    assert_eq!(build_welcome_message(10), "~");
    assert_eq!(build_welcome_message(32), "~ hecto editor -- version 0.1.0 ");
}

#[test]
fn document_status_strings() {
    let s = DocumentStatus { total_lines: 12, current_line_idx: 2, is_modified: true, file_name: "a".to_string() };
    assert_eq!(s.line_count_to_string(), "12 lines");
    assert_eq!(s.position_indicator_to_string(), "3/12");
    assert_eq!(s.modified_indicator_to_string(), "(modified)");
}

#[test]
fn file_info_and_type() {
    let f = FileInfo::from("src/main.rs");
    assert!(f.has_path());
    assert_eq!(f.get_file_type(), FileType::Rust);
    assert_eq!(f.display_name(), "main.rs");
    assert_eq!(FileInfo::from(".rs").get_file_type(), FileType::PlainText);
    assert_eq!(FileInfo::new().display_name(), "[No Name]");
    assert_eq!(FileType::Rust.to_display_string(), "Rust");
}

#[test]
fn keys_map_to_commands() {
    assert_eq!(Command::from_key(Key::Char('a'), KeyModifiers::NoModifier), Some(Command::Edit(Edit::Insert('a'))));
    assert_eq!(Command::from_key(Key::Tab, KeyModifiers::NoModifier), Some(Command::Edit(Edit::Insert('\t'))));
    assert_eq!(Command::from_key(Key::Home, KeyModifiers::NoModifier), Some(Command::Move(Move::StartOfLine)));
    assert_eq!(Command::from_key(Key::Char('s'), KeyModifiers::Control), Some(Command::System(System::Save)));
    assert_eq!(Command::from_key(Key::Char('x'), KeyModifiers::Control), None);
    assert_eq!(Command::from_resize(80, 24), Command::System(System::Resize(Size { height: 24, width: 80 })));
}

#[test]
fn view_redraw_flag() {
    let mut v = view_with("x");
    v.set_needs_redraw(false);
    assert!(!v.needs_redraw());
}

#[test]
fn digits_highlighted_in_rust_files_only() {
    let mut rust = View::new();
    rust.load("main.rs", "a1");
    rust.set_window_size(Size { height: 3, width: 10 });
    match &rust.render_rows(0)[0] {
        RenderedRow::Text(a) => assert_eq!(
            a.annotation_list(),
            vec![Annotation { annotation_type: AnnotationType::Digit, start: 1, end: 2 }]
        ),
        RenderedRow::Plain(_) => panic!("expected text"),
    }
    let plain = view_with("a1");
    match &plain.render_rows(0)[0] {
        RenderedRow::Text(a) => assert!(a.annotation_list().is_empty()),
        RenderedRow::Plain(_) => panic!("expected text"),
    }
}

#[test]
fn search_highlights_matches() {
    let mut v = view_with("xab ab");
    v.enter_search();
    v.search("ab");
    match &v.render_rows(0)[0] {
        RenderedRow::Text(a) => {
            let kinds: Vec<_> = a.annotation_list().iter().map(|x| (x.annotation_type, x.start, x.end)).collect();
            assert_eq!(
                kinds,
                vec![
                    (AnnotationType::Match, 1, 3),
                    (AnnotationType::Match, 4, 6),
                    (AnnotationType::SelectedMatch, 1, 3),
                ]
            );
        }
        RenderedRow::Plain(_) => panic!("expected text"),
    }
}
