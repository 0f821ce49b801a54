//! The editor's decisions: which command goes where, the save and search
//! prompts, and the quit confirmation. Reading keys, writing files and
//! painting the screen are left to the caller, which hands over each
//! command and carries out the saves asked for.

use crate::command::{Command, Edit, Move, System};
use crate::text::{push_decimal, string_push_str, to_owned_string};
use crate::ui::{CommandBar, MessageBar, Position, Size, StatusBar, UIComponent};
use crate::view::View;
use vstd::prelude::*;
use vstd::view::View as _;

verus! {

/// How many times Ctrl-Q must be pressed to quit with unsaved changes.
pub const QUIT_TIMES: u8 = 3;

/// Which prompt, if any, has the bottom line.
#[derive(Clone, Copy, Debug, PartialEq, Eq, Structural)]
pub enum PromptType {
    Search,
    Save,
    NoPrompt,
}

impl PromptType {
    /// Whether there is no prompt.
    pub fn is_none(&self) -> (r: bool)
        ensures
            r == (*self == PromptType::NoPrompt),
    {
        match self {
            PromptType::NoPrompt => true,
            _ => false,
        }
    }
}

/// A save the caller must carry out: write the document's text to
/// `file_name`, or to the document's own file when it is `None`, then report
/// back with `finish_save`.
#[derive(Debug)]
pub struct SaveRequest {
    pub file_name: Option<String>,
}

/// The whole editor: the document window, the status, message and prompt
/// lines, and the state of quitting.
#[derive(Debug)]
pub struct Editor {
    should_quit: bool,
    view: View,
    status_bar: StatusBar,
    message_bar: MessageBar,
    command_bar: CommandBar,
    prompt_type: PromptType,
    terminal_size: Size,
    title: String,
    quit_times: u8,
}

impl Editor {
    /// The editor is well formed.
    pub closed spec fn wf(&self) -> bool {
        &&& self.view.wf()
        &&& self.command_bar.wf()
        &&& self.quit_times < QUIT_TIMES
    }

    /// Whether the editor is done.
    pub closed spec fn quitting(&self) -> bool {
        self.should_quit
    }

    /// The prompt that has the bottom line.
    pub closed spec fn prompt(&self) -> PromptType {
        self.prompt_type
    }

    /// How many times Ctrl-Q was pressed in a row on a modified document.
    pub closed spec fn quit_presses(&self) -> u8 {
        self.quit_times
    }

    /// The document window.
    pub closed spec fn window_view(&self) -> View {
        self.view
    }

    /// The message shown on the bottom line.
    pub closed spec fn message(&self) -> Seq<char> {
        self.message_bar.text@
    }

    /// The status line.
    pub closed spec fn status_line(&self) -> StatusBar {
        self.status_bar
    }

    /// The message line.
    pub closed spec fn message_line(&self) -> MessageBar {
        self.message_bar
    }

    /// The prompt line.
    pub closed spec fn prompt_line(&self) -> CommandBar {
        self.command_bar
    }

    /// The window title last handed out.
    pub closed spec fn title_text(&self) -> Seq<char> {
        self.title@
    }

    /// The size of the terminal.
    pub closed spec fn terminal(&self) -> Size {
        self.terminal_size
    }

    /// An editor for a terminal of `size`, with an empty document and the
    /// help message shown from `now_ms`.
    pub fn new(size: Size, now_ms: u64) -> (r: Editor)
        ensures
            r.wf(),
            !r.quitting(),
            r.prompt() == PromptType::NoPrompt,
            r.terminal() == size,
            r.window_view().lines().len() == 0,
    {
        let mut editor = Editor {
            should_quit: false,
            view: View::new(),
            status_bar: StatusBar::new(),
            message_bar: MessageBar::new(),
            command_bar: CommandBar::new(),
            prompt_type: PromptType::NoPrompt,
            terminal_size: size,
            title: String::new(),
            quit_times: 0,
        };
        editor.handle_resize_command(size);
        editor.update_message("HELP: Ctrl-F = find | Ctrl-S = save | Ctrl-Q = quit", now_ms);
        editor
    }

    /// Opens the document read from `file_name`, whose text is `contents`.
    pub fn load(&mut self, file_name: &str, contents: &str)
        requires
            old(self).wf(),
        ensures
            final(self).wf(),
            final(self).window_view().lines() == crate::buffer::lines_of(contents@),
            final(self).window_view().path() == Some(file_name@),
            final(self).prompt() == old(self).prompt(),
    {
        self.view.load(file_name, contents);
    }

    /// Reports that `file_name` could not be opened.
    pub fn load_failed(&mut self, file_name: &str, now_ms: u64)
        requires
            old(self).wf(),
        ensures
            final(self).wf(),
            final(self).message() == "ERR:Could not open file: "@ + file_name@,
            final(self).window_view() == old(self).window_view(),
    {
        let mut m = to_owned_string("ERR:Could not open file: ");
        string_push_str(&mut m, file_name);
        self.update_message(m.as_str(), now_ms);
    }

    /// Whether the editor is done.
    pub fn should_quit(&self) -> (r: bool)
        ensures
            r == self.quitting(),
    {
        self.should_quit
    }

    /// The document window.
    pub fn view(&self) -> (r: &View)
        ensures
            *r == self.window_view(),
    {
        &self.view
    }

    /// Marks the document window as drawn.
    pub fn view_drawn(&mut self)
        requires
            old(self).wf(),
        ensures
            final(self).wf(),
            final(self).window_view().lines() == old(self).window_view().lines(),
            final(self).prompt() == old(self).prompt(),
    {
        self.view.mark_drawn();
    }

    /// The status line.
    pub fn status_bar(&self) -> (r: &StatusBar)
        ensures
            *r == self.status_line(),
    {
        &self.status_bar
    }

    /// Marks the status line as drawn.
    pub fn status_drawn(&mut self)
        requires
            old(self).wf(),
        ensures
            final(self).wf(),
    {
        self.status_bar.needs_redraw = false;
    }

    /// Whether the message line must be drawn at `now_ms`.
    pub fn message_needs_redraw(&self, now_ms: u64) -> (r: bool)
        ensures
            ({
                let m = self.message_line();
                r == (m.needs_redraw || (!m.cleared_after_expiry && now_ms >= m.shown_at_ms
                    && now_ms - m.shown_at_ms > crate::ui::MESSAGE_DURATION_MS))
            }),
    {
        self.message_bar.needs_redraw_at(now_ms)
    }

    /// The text of the message line at `now_ms`, marking it as drawn.
    pub fn draw_message(&mut self, now_ms: u64) -> (r: String)
        requires
            old(self).wf(),
        ensures
            final(self).wf(),
    {
        let r = self.message_bar.render_text(now_ms);
        self.message_bar.needs_redraw = false;
        r
    }

    /// The prompt line.
    pub fn command_bar(&self) -> (r: &CommandBar)
        ensures
            *r == self.prompt_line(),
    {
        &self.command_bar
    }

    /// Marks the prompt line as drawn.
    pub fn command_bar_drawn(&mut self)
        requires
            old(self).wf(),
        ensures
            final(self).wf(),
            !final(self).prompt_line().redraw_requested(),
            final(self).prompt_line().prompt_text() == old(self).prompt_line().prompt_text(),
            final(self).prompt_line().value_text() == old(self).prompt_line().value_text(),
            final(self).window_view() == old(self).window_view(),
            final(self).prompt() == old(self).prompt(),
    {
        self.command_bar.mark_drawn();
    }

    /// The size of the terminal.
    pub fn terminal_size(&self) -> (r: Size)
        ensures
            r == self.terminal(),
    {
        self.terminal_size
    }

    /// Whether a prompt has the bottom line.
    pub fn in_prompt(&self) -> (r: bool)
        ensures
            r == (self.prompt() != PromptType::NoPrompt),
    {
        !self.prompt_type.is_none()
    }

    /// Shows `message` from `now_ms` on.
    fn update_message(&mut self, message: &str, now_ms: u64)
        ensures
            final(self).message() == message@,
            final(self).view == old(self).view,
            final(self).command_bar == old(self).command_bar,
            final(self).prompt_type == old(self).prompt_type,
            final(self).quit_times == old(self).quit_times,
            final(self).should_quit == old(self).should_quit,
            final(self).terminal_size == old(self).terminal_size,
    {
        self.message_bar.update_message(message, now_ms);
    }

    /// Takes the terminal's new size: the window gets all but the two
    /// bottom lines, each bar one line.
    pub fn handle_resize_command(&mut self, size: Size)
        requires
            old(self).wf(),
        ensures
            final(self).wf(),
            final(self).terminal() == size,
            final(self).window_view().window() == (Size { height: if size.height >= 2 { (size.height - 2) as usize } else { 0 }, width: size.width }),
            final(self).window_view().lines() == old(self).window_view().lines(),
            final(self).window_view().location() == old(self).window_view().location(),
            final(self).prompt() == old(self).prompt(),
            final(self).quitting() == old(self).quitting(),
            final(self).quit_presses() == old(self).quit_presses(),
    {
        self.terminal_size = size;
        self.view.set_window_size(Size { height: size.height.saturating_sub(2), width: size.width });
        let bar_size = Size { height: 1, width: size.width };
        self.message_bar.needs_redraw = true;
        self.command_bar.set_width(size.width);
        self.status_bar.size = bar_size;
        self.status_bar.needs_redraw = true;
    }

    /// Updates the status line from the document; returns the window title,
    /// `name - hecto`, if it changed.
    pub fn refresh_status(&mut self) -> (r: Option<String>)
        requires
            old(self).wf(),
        ensures
            final(self).wf(),
            final(self).title_text() == crate::fileinfo::display_name_of(old(self).window_view().path()) + " - hecto"@,
            r matches Some(t) ==> t@ == final(self).title_text() && t@ != old(self).title_text(),
            r is None ==> final(self).title_text() == old(self).title_text(),
            final(self).window_view() == old(self).window_view(),
            final(self).prompt() == old(self).prompt(),
            final(self).quitting() == old(self).quitting(),
    {
        let status = self.view.get_status();
        let mut title = status.file_name.clone();
        string_push_str(&mut title, " - hecto");
        self.status_bar.update_status(status);
        if title == self.title {
            None
        } else {
            self.title = title.clone();
            Some(title)
        }
    }

    /// Where the caret goes on screen: in the prompt line when a prompt is
    /// up, else where the window puts it.
    pub fn caret_position(&self) -> (r: Position)
        requires
            self.wf(),
        ensures
            self.prompt() == PromptType::NoPrompt ==> r == self.window_view().caret_position_spec(),
            self.prompt() != PromptType::NoPrompt ==> r.row == (if self.terminal().height >= 1 { (self.terminal().height - 1) as usize } else { 0 }),
    {
        if self.in_prompt() {
            Position {
                col: self.command_bar.caret_position_col(),
                row: self.terminal_size.height.saturating_sub(1),
            }
        } else {
            self.view.caret_position()
        }
    }

    /// Ctrl-Q: quits if the document is unmodified or this is the third
    /// press in a row; else counts the press and warns.
    fn handle_quit_command(&mut self, now_ms: u64)
        requires
            old(self).wf(),
        ensures
            final(self).wf(),
            final(self).window_view() == old(self).window_view(),
            final(self).prompt() == old(self).prompt(),
            (!old(self).window_view().modified() || old(self).quit_presses() + 1 == QUIT_TIMES) ==> final(self).quitting() && final(self).quit_presses() == old(self).quit_presses(),
            !(!old(self).window_view().modified() || old(self).quit_presses() + 1 == QUIT_TIMES) ==> final(self).quitting() == old(self).quitting() && final(self).quit_presses() == old(self).quit_presses() + 1,
    {
        let modified = self.view.get_status().is_modified;
        if !modified || self.quit_times + 1 == QUIT_TIMES {
            self.should_quit = true;
        } else {
            self.quit_times = self.quit_times + 1;
            let mut m = to_owned_string("WARNING! File has unsaved changes. Press Ctrl-Q ");
            push_decimal(&mut m, (QUIT_TIMES - self.quit_times) as usize);
            string_push_str(&mut m, " more times to quit.");
            self.update_message(m.as_str(), now_ms);
        }
    }

    /// Forgets earlier Ctrl-Q presses, clearing the warning.
    fn reset_quit_times(&mut self, now_ms: u64)
        requires
            old(self).wf(),
        ensures
            final(self).wf(),
            final(self).quit_presses() == 0,
            final(self).window_view() == old(self).window_view(),
            final(self).prompt() == old(self).prompt(),
            final(self).quitting() == old(self).quitting(),
    {
        if self.quit_times > 0 {
            self.quit_times = 0;
            self.update_message("", now_ms);
        }
    }

    /// Puts up a prompt (or takes it down), with an empty value.
    fn set_prompt(&mut self, prompt_type: PromptType)
        requires
            old(self).wf(),
        ensures
            final(self).wf(),
            final(self).prompt() == prompt_type,
            final(self).quitting() == old(self).quitting(),
            final(self).quit_presses() == old(self).quit_presses(),
            final(self).window_view().lines() == old(self).window_view().lines(),
            final(self).window_view().location() == old(self).window_view().location(),
            prompt_type == PromptType::Search ==> final(self).window_view().searching(),
            prompt_type != PromptType::Search ==> final(self).window_view() == old(self).window_view(),
    {
        match prompt_type {
            PromptType::Save => self.command_bar.set_prompt("Save as: "),
            PromptType::Search => {
                self.view.enter_search();
                self.command_bar.set_prompt("Search (Esc to cancel, Arrows to navigate): ");
            },
            PromptType::NoPrompt => {
                self.message_bar.needs_redraw = true;
            },
        }
        self.command_bar.clear_value();
        self.prompt_type = prompt_type;
    }

    /// Ctrl-S: saves to the document's own file, or asks for a file name.
    fn handle_save_command(&mut self) -> (r: Option<SaveRequest>)
        requires
            old(self).wf(),
        ensures
            final(self).wf(),
            final(self).quitting() == old(self).quitting(),
            final(self).quit_presses() == old(self).quit_presses(),
            old(self).window_view().path() is Some ==> (r matches Some(q) && q.file_name is None) && final(self).prompt() == old(self).prompt(),
            old(self).window_view().path() is None ==> r is None && final(self).prompt() == PromptType::Save,
            final(self).window_view() == old(self).window_view(),
    {
        if self.view.is_file_loaded() {
            Some(SaveRequest { file_name: None })
        } else {
            self.set_prompt(PromptType::Save);
            None
        }
    }

    /// Reports how a requested save went: on success the document is marked
    /// saved (to the new file, if one was named) and the message says so; on
    /// failure the message says that writing failed.
    pub fn finish_save(&mut self, request: SaveRequest, written: bool, now_ms: u64)
        requires
            old(self).wf(),
        ensures
            final(self).wf(),
            final(self).prompt() == old(self).prompt(),
            final(self).window_view().lines() == old(self).window_view().lines(),
            written && request.file_name is Some ==> !final(self).window_view().modified() && final(self).window_view().path() == Some(request.file_name->0@),
            !written ==> final(self).message() == "Error writing file!"@ && final(self).window_view() == old(self).window_view(),
    {
        if !written {
            self.update_message("Error writing file!", now_ms);
            return;
        }
        let saved = match &request.file_name {
            Some(name) => {
                self.view.save_as(name.as_str());
                true
            },
            None => self.view.save().is_ok(),
        };
        if saved {
            self.update_message("File saved successfully.", now_ms);
        } else {
            self.update_message("Error writing file!", now_ms);
        }
    }

    /// A command with no prompt up.
    fn process_command_no_prompt(&mut self, command: Command, now_ms: u64) -> (r: Option<SaveRequest>)
        requires
            old(self).wf(),
            old(self).prompt() == PromptType::NoPrompt,
        ensures
            final(self).wf(),
            command == Command::System(System::Quit) ==> r is None && final(self).prompt() == PromptType::NoPrompt && final(self).quitting() == (old(self).quitting() || !old(self).window_view().modified() || old(self).quit_presses() + 1 == QUIT_TIMES),
            command == Command::System(System::Save) ==> (old(self).window_view().path() is Some <==> r is Some) && (old(self).window_view().path() is None ==> final(self).prompt() == PromptType::Save),
            command == Command::System(System::Search) ==> final(self).prompt() == PromptType::Search && final(self).window_view().searching() && r is None,
            command is Edit ==> final(self).prompt() == PromptType::NoPrompt && r is None && final(self).window_view().lines() == crate::view::lines_after_edit(
                old(self).window_view().lines(),
                old(self).window_view().location(),
                command->Edit_0,
            ),
            command is Move ==> final(self).prompt() == PromptType::NoPrompt && r is None && final(self).window_view().lines() == old(self).window_view().lines()
                && final(self).window_view().location() == crate::view::moved(
                old(self).window_view().lines(),
                old(self).window_view().location(),
                command->Move_0,
                old(self).window_view().window().height,
            ),
            command != Command::System(System::Quit) ==> final(self).quit_presses() == 0 && final(self).quitting() == old(self).quitting(),
    {
        match command {
            Command::System(System::Quit) => {
                self.handle_quit_command(now_ms);
                return None;
            },
            _ => {},
        }
        self.reset_quit_times(now_ms);
        match command {
            Command::System(System::Search) => {
                self.set_prompt(PromptType::Search);
                None
            },
            Command::System(System::Save) => self.handle_save_command(),
            Command::Edit(e) => {
                self.view.handle_edit_command(e);
                None
            },
            Command::Move(m) => {
                self.view.handle_move_command(m);
                None
            },
            Command::System(_) => None,
        }
    }

    /// A command while the save prompt is up: Esc abandons the save, Enter
    /// saves under the name typed, other edits type into the prompt.
    fn process_command_during_save(&mut self, command: Command, now_ms: u64) -> (r: Option<SaveRequest>)
        requires
            old(self).wf(),
            old(self).prompt() == PromptType::Save,
        ensures
            final(self).wf(),
            final(self).quitting() == old(self).quitting(),
            final(self).window_view().lines() == old(self).window_view().lines(),
            command == Command::System(System::Dismiss) ==> final(self).prompt() == PromptType::NoPrompt && r is None && final(self).message() == "Save aborted."@,
            command == Command::Edit(Edit::InsertNewline) ==> final(self).prompt() == PromptType::NoPrompt && (r matches Some(q) && q.file_name is Some),
            !(command == Command::System(System::Dismiss) || command == Command::Edit(Edit::InsertNewline)) ==> final(self).prompt() == PromptType::Save && r is None,
    {
        match command {
            Command::System(System::Dismiss) => {
                self.set_prompt(PromptType::NoPrompt);
                self.update_message("Save aborted.", now_ms);
                None
            },
            Command::Edit(Edit::InsertNewline) => {
                let file_name = self.command_bar.value();
                self.set_prompt(PromptType::NoPrompt);
                Some(SaveRequest { file_name: Some(file_name) })
            },
            Command::Edit(e) => {
                self.command_bar.handle_edit_command(e);
                None
            },
            _ => None,
        }
    }

    /// A command while the search prompt is up: Esc abandons the search,
    /// Enter keeps the caret where the search took it, edits change the
    /// query and search again, arrows go to the next or previous match.
    fn process_command_during_search(&mut self, command: Command)
        requires
            old(self).wf(),
            old(self).prompt() == PromptType::Search,
        ensures
            final(self).wf(),
            final(self).quitting() == old(self).quitting(),
            final(self).window_view().lines() == old(self).window_view().lines(),
            command == Command::System(System::Dismiss) ==> final(self).prompt() == PromptType::NoPrompt && !final(self).window_view().searching(),
            command == Command::Edit(Edit::InsertNewline) ==> final(self).prompt() == PromptType::NoPrompt && !final(self).window_view().searching()
                && final(self).window_view().location() == old(self).window_view().location(),
            !(command == Command::System(System::Dismiss) || command == Command::Edit(Edit::InsertNewline)) ==> final(self).prompt() == PromptType::Search,
    {
        match command {
            Command::System(System::Dismiss) => {
                self.set_prompt(PromptType::NoPrompt);
                self.view.dismiss_search();
            },
            Command::Edit(Edit::InsertNewline) => {
                self.set_prompt(PromptType::NoPrompt);
                self.view.exit_search();
            },
            Command::Edit(e) => {
                self.command_bar.handle_edit_command(e);
                let query = self.command_bar.value();
                self.view.search(query.as_str());
            },
            Command::Move(Move::Right) | Command::Move(Move::Down) => {
                self.view.search_next();
            },
            Command::Move(Move::Up) | Command::Move(Move::Left) => {
                self.view.search_prev();
            },
            _ => {},
        }
    }

    /// Carries out a command at time `now_ms`: a resize always; otherwise
    /// whatever the prompt that is up (or none) makes of it. Returns the save
    /// the caller must carry out, if the command asks for one.
    pub fn process_command(&mut self, command: Command, now_ms: u64) -> (r: Option<SaveRequest>)
        requires
            old(self).wf(),
        ensures
            final(self).wf(),
            command matches Command::System(System::Resize(size)) ==> final(self).terminal() == size && final(self).prompt() == old(self).prompt() && r is None,
            old(self).prompt() == PromptType::NoPrompt && command == Command::System(System::Quit) ==> r is None && final(self).quitting() == (old(self).quitting() || !old(self).window_view().modified() || old(self).quit_presses() + 1 == QUIT_TIMES),
            old(self).prompt() != PromptType::NoPrompt && !(command is System && command->System_0 is Resize) ==> final(self).quitting() == old(self).quitting(),
            old(self).prompt() == PromptType::NoPrompt && command == Command::System(System::Save) ==> (old(self).window_view().path() is Some <==> r is Some) && (old(self).window_view().path() is None ==> final(self).prompt() == PromptType::Save),
            old(self).prompt() == PromptType::NoPrompt && command == Command::System(System::Search) ==> final(self).prompt() == PromptType::Search,
            old(self).prompt() == PromptType::Save && command == Command::Edit(Edit::InsertNewline) ==> r is Some && final(self).prompt() == PromptType::NoPrompt,
            old(self).prompt() == PromptType::Search ==> r is None,
            old(self).prompt() == PromptType::NoPrompt && command is Edit ==> final(self).window_view().lines() == crate::view::lines_after_edit(
                old(self).window_view().lines(),
                old(self).window_view().location(),
                command->Edit_0,
            ),
            old(self).prompt() == PromptType::NoPrompt && command is Move ==> final(self).window_view().location() == crate::view::moved(
                old(self).window_view().lines(),
                old(self).window_view().location(),
                command->Move_0,
                old(self).window_view().window().height,
            ),
            old(self).prompt() != PromptType::NoPrompt && !(command is System && command->System_0 is Resize) ==> final(self).window_view().lines() == old(self).window_view().lines(),
    {
        match command {
            Command::System(System::Resize(size)) => {
                self.handle_resize_command(size);
                return None;
            },
            _ => {},
        }
        match self.prompt_type {
            PromptType::Save => self.process_command_during_save(command, now_ms),
            PromptType::Search => {
                self.process_command_during_search(command);
                None
            },
            PromptType::NoPrompt => self.process_command_no_prompt(command, now_ms),
        }
    }
}

} // verus!
