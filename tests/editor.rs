use hecto::command::{Command, Edit, Move, System};
use hecto::editor::{Editor, PromptType};
use hecto::ui::Size;

fn editor_with(text: &str) -> Editor {
    let mut e = Editor::new(Size { height: 12, width: 40 }, 0);
    e.load("doc.txt", text);
    e
}

#[test]
fn quit_needs_three_presses_when_modified() {
    let mut e = editor_with("abc");
    e.process_command(Command::Edit(Edit::Insert('x')), 0);
    e.process_command(Command::System(System::Quit), 0);
    assert!(!e.should_quit());
    e.process_command(Command::System(System::Quit), 0);
    assert!(!e.should_quit());
    e.process_command(Command::System(System::Quit), 0);
    assert!(e.should_quit());
}

#[test]
fn quit_at_once_when_unmodified() {
    let mut e = editor_with("abc");
    e.process_command(Command::System(System::Quit), 0);
    assert!(e.should_quit());
}

#[test]
fn save_asks_for_name_without_file() {
    let mut e = Editor::new(Size { height: 12, width: 40 }, 0);
    assert!(e.process_command(Command::System(System::Save), 0).is_none());
    assert!(e.in_prompt());
    e.process_command(Command::Edit(Edit::Insert('f')), 0);
    let req = e.process_command(Command::Edit(Edit::InsertNewline), 0).unwrap();
    assert_eq!(req.file_name, Some("f".to_string()));
    assert!(!e.in_prompt());
    e.finish_save(req, true, 0);
    assert!(e.view().is_file_loaded());
}

#[test]
fn save_with_file_returns_request() {
    let mut e = editor_with("abc");
    let req = e.process_command(Command::System(System::Save), 0).unwrap();
    assert_eq!(req.file_name, None);
}

#[test]
fn search_prompt_moves_caret() {
    let mut e = editor_with("one\ntwo");
    e.process_command(Command::System(System::Search), 0);
    e.process_command(Command::Edit(Edit::Insert('t')), 0);
    e.process_command(Command::Edit(Edit::Insert('w')), 0);
    assert_eq!(e.view().text_location().line_idx, 1);
    e.process_command(Command::Move(Move::Right), 0);
    e.process_command(Command::Edit(Edit::InsertNewline), 0);
    assert!(!e.in_prompt());
    assert_eq!(e.view().text_location().line_idx, 1);
}

#[test]
fn resize_updates_window() {
    let mut e = editor_with("abc");
    e.process_command(Command::System(System::Resize(Size { height: 5, width: 9 })), 0);
    assert_eq!(e.terminal_size(), Size { height: 5, width: 9 });
    assert!(PromptType::NoPrompt.is_none());
}
