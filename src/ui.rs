//! Screen geometry and the small widgets around the text: the status line,
//! the message line and the prompt line.

use crate::command::Edit;
use crate::line::{columns_until, visible_text, Line};
use crate::text::{
    blen, byte_len, decimal, push_decimal, push_spaces, spaces, string_push_str, to_owned_string,
};
use crate::unicode::grapheme_clusters;
use vstd::prelude::*;

verus! {

/// A width and height in terminal cells.
#[derive(Clone, Copy, Debug, Default, PartialEq, Eq, Structural)]
pub struct Size {
    pub height: usize,
    pub width: usize,
}

impl Size {
    pub fn new(height: usize, width: usize) -> (r: Size)
        ensures
            r == (Size { height, width }),
    {
        Size { height, width }
    }

    /// The number of cells.
    pub fn area(&self) -> (r: usize)
        requires
            self.height * self.width <= usize::MAX,
        ensures
            r == self.height * self.width,
    {
        self.height * self.width
    }

    /// Whether there are no cells.
    pub fn is_zero(&self) -> (r: bool)
        ensures
            r == (self.height == 0 || self.width == 0),
    {
        self.height == 0 || self.width == 0
    }
}

/// A cell on screen: column and row.
#[derive(Clone, Copy, Debug, Default, PartialEq, Eq, Structural)]
pub struct Position {
    pub col: usize,
    pub row: usize,
}

impl Position {
    /// The position relative to `other`, each coordinate floored at zero.
    pub fn saturating_sub(self, other: Position) -> (r: Position)
        ensures
            r.col == (if self.col >= other.col {
                self.col - other.col
            } else {
                0
            }),
            r.row == (if self.row >= other.row {
                self.row - other.row
            } else {
                0
            }),
    {
        Position { col: self.col.saturating_sub(other.col), row: self.row.saturating_sub(other.row) }
    }
}

/// What the status line reports about the document.
#[derive(Debug)]
pub struct DocumentStatus {
    pub total_lines: usize,
    pub current_line_idx: usize,
    pub is_modified: bool,
    pub file_name: String,
}

impl DocumentStatus {
    /// An empty document with no name.
    pub fn new() -> (r: DocumentStatus)
        ensures
            r.total_lines == 0,
            r.current_line_idx == 0,
            !r.is_modified,
            r.file_name@.len() == 0,
    {
        DocumentStatus { total_lines: 0, current_line_idx: 0, is_modified: false, file_name: String::new() }
    }

    /// Whether two statuses report the same.
    pub fn same_as(&self, other: &DocumentStatus) -> (r: bool)
        ensures
            r == (self.total_lines == other.total_lines && self.current_line_idx
                == other.current_line_idx && self.is_modified == other.is_modified
                && self.file_name@ == other.file_name@),
    {
        self.total_lines == other.total_lines && self.current_line_idx == other.current_line_idx
            && self.is_modified == other.is_modified && self.file_name == other.file_name
    }

    /// A copy.
    pub fn copy(&self) -> (r: DocumentStatus)
        ensures
            r.total_lines == self.total_lines,
            r.current_line_idx == self.current_line_idx,
            r.is_modified == self.is_modified,
            r.file_name@ == self.file_name@,
    {
        DocumentStatus {
            total_lines: self.total_lines,
            current_line_idx: self.current_line_idx,
            is_modified: self.is_modified,
            file_name: self.file_name.clone(),
        }
    }

    /// `(modified)` for a modified document, else nothing.
    pub fn modified_indicator_to_string(&self) -> (r: String)
        ensures
            r@ == (if self.is_modified {
                "(modified)"@
            } else {
                ""@
            }),
    {
        if self.is_modified {
            to_owned_string("(modified)")
        } else {
            to_owned_string("")
        }
    }

    /// The line count, as in `12 lines`.
    pub fn line_count_to_string(&self) -> (r: String)
        ensures
            r@ == decimal(self.total_lines as nat) + " lines"@,
    {
        let mut s = String::new();
        push_decimal(&mut s, self.total_lines);
        string_push_str(&mut s, " lines");
        s
    }

    /// The current line (counted from one) over the line count, as in `3/12`.
    pub fn position_indicator_to_string(&self) -> (r: String)
        ensures
            r@ == decimal(
                (if self.current_line_idx < usize::MAX {
                    self.current_line_idx + 1
                } else {
                    usize::MAX as int
                }) as nat,
            ) + "/"@ + decimal(self.total_lines as nat),
    {
        let mut s = String::new();
        push_decimal(&mut s, self.current_line_idx.saturating_add(1));
        string_push_str(&mut s, "/");
        push_decimal(&mut s, self.total_lines);
        s
    }
}

/// A part of the screen that is redrawn only when asked to.
pub trait UIComponent {
    /// Whether a redraw was asked for.
    spec fn redraw_requested(&self) -> bool;

    /// Asks for a redraw, or withdraws the request.
    fn set_needs_redraw(&mut self, value: bool)
        ensures
            final(self).redraw_requested() == value,
    ;

    /// Whether a redraw was asked for.
    fn needs_redraw(&self) -> (r: bool)
        ensures
            r == self.redraw_requested(),
    ;

    /// The component is well formed.
    spec fn component_wf(&self) -> bool;

    /// Takes a new size.
    fn set_size(&mut self, size: Size)
        requires
            old(self).component_wf(),
        ensures
            final(self).component_wf(),
    ;

    /// Takes a new size and asks for a redraw.
    fn resize(&mut self, size: Size)
        requires
            old(self).component_wf(),
        ensures
            final(self).redraw_requested(),
    {
        self.set_size(size);
        self.set_needs_redraw(true);
    }
}

/// The line that reports the document's status.
#[derive(Debug)]
pub struct StatusBar {
    pub current_status: DocumentStatus,
    pub needs_redraw: bool,
    pub size: Size,
}

impl StatusBar {
    pub fn new() -> (r: StatusBar)
        ensures
            r.current_status.total_lines == 0,
            !r.needs_redraw,
    {
        StatusBar { current_status: DocumentStatus::new(), needs_redraw: false, size: Size { height: 0, width: 0 } }
    }

    /// Takes a new status, asking for a redraw if it differs from the old one.
    pub fn update_status(&mut self, new_status: DocumentStatus)
        ensures
            final(self).current_status.total_lines == new_status.total_lines,
            final(self).current_status.current_line_idx == new_status.current_line_idx,
            final(self).current_status.is_modified == new_status.is_modified,
            final(self).current_status.file_name@ == new_status.file_name@,
            final(self).size == old(self).size,
            final(self).needs_redraw == (old(self).needs_redraw || !(
            old(self).current_status.total_lines == new_status.total_lines
                && old(self).current_status.current_line_idx == new_status.current_line_idx
                && old(self).current_status.is_modified == new_status.is_modified
                && old(self).current_status.file_name@ == new_status.file_name@)),
    {
        if !self.current_status.same_as(&new_status) {
            self.current_status = new_status;
            self.needs_redraw = true;
        }
    }

    /// The text of the status line: `name - N lines (modified)`, then the
    /// position indicator pushed to the right edge; empty if it does not fit.
    pub fn render_text(&self) -> (r: String)
        ensures
            ({
                let st = self.current_status;
                let beginning = st.file_name@ + " - "@ + decimal(st.total_lines as nat) + " lines"@
                    + " "@ + (if st.is_modified {
                    "(modified)"@
                } else {
                    ""@
                });
                let position = decimal(
                    (if st.current_line_idx < usize::MAX {
                        st.current_line_idx + 1
                    } else {
                        usize::MAX as int
                    }) as nat,
                ) + "/"@ + decimal(st.total_lines as nat);
                let remainder: nat = if blen(beginning) < self.size.width {
                    (self.size.width - blen(beginning)) as nat
                } else {
                    0
                };
                let pad: nat = if blen(position) < remainder {
                    (remainder - blen(position)) as nat
                } else {
                    0
                };
                let status = beginning + spaces(pad) + position;
                r@ == (if blen(status) <= self.size.width {
                    status
                } else {
                    Seq::<char>::empty()
                })
            }),
    {
        let mut beginning = self.current_status.file_name.clone();
        string_push_str(&mut beginning, " - ");
        let line_count = self.current_status.line_count_to_string();
        string_push_str(&mut beginning, line_count.as_str());
        string_push_str(&mut beginning, " ");
        let modified = self.current_status.modified_indicator_to_string();
        string_push_str(&mut beginning, modified.as_str());
        let position = self.current_status.position_indicator_to_string();
        let begin_len = byte_len(beginning.as_str());
        let pos_len = byte_len(position.as_str());
        let remainder = self.size.width.saturating_sub(begin_len);
        proof {
            let st = self.current_status;
            assert(beginning@ =~= st.file_name@ + " - "@ + decimal(st.total_lines as nat) + " lines"@
                + " "@ + (if st.is_modified {
                "(modified)"@
            } else {
                ""@
            }));
            assert(position@ =~= decimal(
                (if st.current_line_idx < usize::MAX {
                    st.current_line_idx + 1
                } else {
                    usize::MAX as int
                }) as nat,
            ) + "/"@ + decimal(st.total_lines as nat));
        }
        let mut status = beginning;
        push_spaces(&mut status, remainder.saturating_sub(pos_len));
        string_push_str(&mut status, position.as_str());
        let len = byte_len(status.as_str());
        if len <= self.size.width {
            status
        } else {
            String::new()
        }
    }
}

impl UIComponent for StatusBar {
    open spec fn redraw_requested(&self) -> bool {
        self.needs_redraw
    }

    open spec fn component_wf(&self) -> bool {
        true
    }

    fn set_needs_redraw(&mut self, value: bool) {
        self.needs_redraw = value;
    }

    fn needs_redraw(&self) -> (r: bool) {
        self.needs_redraw
    }

    fn set_size(&mut self, size: Size) {
        self.size = size;
    }
}

/// How long a message stays on screen, in milliseconds.
pub const MESSAGE_DURATION_MS: u64 = 5000;

/// The line that shows a short-lived message.
#[derive(Debug)]
pub struct MessageBar {
    pub text: String,
    pub shown_at_ms: u64,
    pub needs_redraw: bool,
    pub cleared_after_expiry: bool,
}

impl MessageBar {
    pub fn new() -> (r: MessageBar)
        ensures
            r.text@.len() == 0,
            !r.needs_redraw,
    {
        MessageBar { text: String::new(), shown_at_ms: 0, needs_redraw: false, cleared_after_expiry: false }
    }

    /// Whether the message, shown at `shown_at_ms`, is gone at `now_ms`.
    pub fn is_expired(&self, now_ms: u64) -> (r: bool)
        ensures
            r == (now_ms >= self.shown_at_ms && now_ms - self.shown_at_ms > MESSAGE_DURATION_MS),
    {
        now_ms >= self.shown_at_ms && now_ms - self.shown_at_ms > MESSAGE_DURATION_MS
    }

    /// Shows `message` from `now_ms` on.
    pub fn update_message(&mut self, message: &str, now_ms: u64)
        ensures
            final(self).text@ == message@,
            final(self).shown_at_ms == now_ms,
            !final(self).cleared_after_expiry,
            final(self).needs_redraw,
    {
        self.text = to_owned_string(message);
        self.shown_at_ms = now_ms;
        self.cleared_after_expiry = false;
        self.needs_redraw = true;
    }

    /// Whether the line must be redrawn at `now_ms`: a redraw was asked for,
    /// or the message expired and has not been cleared yet.
    pub fn needs_redraw_at(&self, now_ms: u64) -> (r: bool)
        ensures
            r == (self.needs_redraw || (!self.cleared_after_expiry && now_ms >= self.shown_at_ms
                && now_ms - self.shown_at_ms > MESSAGE_DURATION_MS)),
    {
        (!self.cleared_after_expiry && self.is_expired(now_ms)) || self.needs_redraw
    }

    /// The text to show at `now_ms`: the message, or nothing once expired
    /// (which is then remembered as cleared).
    pub fn render_text(&mut self, now_ms: u64) -> (r: String)
        ensures
            ({
                let expired = now_ms >= old(self).shown_at_ms && now_ms - old(self).shown_at_ms
                    > MESSAGE_DURATION_MS;
                &&& r@ == (if expired {
                    Seq::<char>::empty()
                } else {
                    old(self).text@
                })
                &&& final(self).cleared_after_expiry == (old(self).cleared_after_expiry || expired)
                &&& final(self).text@ == old(self).text@
                &&& final(self).shown_at_ms == old(self).shown_at_ms
            }),
    {
        if self.is_expired(now_ms) {
            self.cleared_after_expiry = true;
            String::new()
        } else {
            self.text.clone()
        }
    }
}

/// The line where a prompt asks for a value.
#[derive(Debug)]
pub struct CommandBar {
    prompt: String,
    value: Line,
    needs_redraw: bool,
    size: Size,
}

impl CommandBar {
    /// The prompt shown before the value.
    pub closed spec fn prompt_text(&self) -> Seq<char> {
        self.prompt@
    }

    /// The value typed so far.
    pub closed spec fn value_text(&self) -> Seq<char> {
        self.value@
    }

    /// The width of the bar.
    pub closed spec fn width(&self) -> usize {
        self.size.width
    }

    /// The bar is well formed.
    pub closed spec fn wf(&self) -> bool {
        self.value.wf()
    }

    pub fn new() -> (r: CommandBar)
        ensures
            r.wf(),
            r.prompt_text().len() == 0,
            r.value_text().len() == 0,
    {
        proof {
            reveal_strlit("");
        }
        let value = Line::from("");
        CommandBar { prompt: String::new(), value, needs_redraw: false, size: Size { height: 0, width: 0 } }
    }

    /// Types a character or erases the last grapheme; other edits are
    /// ignored. Asks for a redraw.
    pub fn handle_edit_command(&mut self, command: Edit)
        requires
            old(self).wf(),
        ensures
            final(self).wf(),
            final(self).prompt_text() == old(self).prompt_text(),
            final(self).redraw_requested(),
            command matches Edit::Insert(c) ==> final(self).value_text() == old(self).value_text().push(c),
            command is DeleteBackward ==> final(self).value_text() == (if grapheme_clusters(
                old(self).value_text(),
            ).len() > 0 {
                old(self).value_text().take(
                    crate::line::char_offset_of(
                        grapheme_clusters(old(self).value_text()),
                        grapheme_clusters(old(self).value_text()).len() - 1,
                    ),
                )
            } else {
                old(self).value_text()
            }),
            (command is InsertNewline || command is Delete) ==> final(self).value_text() == old(
                self,
            ).value_text(),
    {
        match command {
            Edit::Insert(c) => self.value.append_char(c),
            Edit::DeleteBackward => self.value.delete_last(),
            _ => {},
        }
        self.needs_redraw = true;
    }

    /// The caret column: after the prompt and the value's graphemes, but not
    /// past the bar's width.
    pub fn caret_position_col(&self) -> (r: usize)
        requires
            self.wf(),
        ensures
            ({
                let n = blen(self.prompt_text()) + grapheme_clusters(self.value_text()).len();
                let m = if n > usize::MAX {
                    usize::MAX as int
                } else {
                    n as int
                };
                r == (if m < self.width() {
                    m
                } else {
                    self.width() as int
                })
            }),
    {
        let max_width = byte_len(self.prompt.as_str()).saturating_add(self.value.grapheme_count());
        if max_width < self.size.width {
            max_width
        } else {
            self.size.width
        }
    }

    /// The value typed so far.
    pub fn value(&self) -> (r: String)
        ensures
            r@ == self.value_text(),
    {
        self.value.to_text()
    }

    /// Sets the prompt and asks for a redraw.
    pub fn set_prompt(&mut self, prompt: &str)
        ensures
            final(self).prompt_text() == prompt@,
            final(self).value_text() == old(self).value_text(),
            final(self).wf() == old(self).wf(),
            final(self).width() == old(self).width(),
            final(self).redraw_requested(),
    {
        self.prompt = to_owned_string(prompt);
        self.needs_redraw = true;
    }

    /// The text of the bar: the prompt, then as much of the end of the value
    /// as fits after it; empty if even that does not fit.
    pub fn render_text(&self) -> (r: String)
        requires
            self.wf(),
        ensures
            ({
                let gs = grapheme_clusters(self.value_text());
                let cols = columns_until(gs, gs.len() as int);
                let area: nat = if blen(self.prompt_text()) < self.width() {
                    (self.width() - blen(self.prompt_text())) as nat
                } else {
                    0
                };
                let start: nat = if area < cols {
                    (cols - area) as nat
                } else {
                    0
                };
                let message = if cols <= usize::MAX {
                    self.prompt_text() + visible_text(gs, start, cols)
                } else {
                    self.prompt_text()
                };
                r@ == (if blen(message) <= self.width() {
                    message
                } else {
                    Seq::<char>::empty()
                })
            }),
    {
        let prompt_len = byte_len(self.prompt.as_str());
        let area_for_value = self.size.width.saturating_sub(prompt_len);
        let mut message = self.prompt.clone();
        if self.value.width_fits() {
            let value_end = self.value.width();
            let value_start = value_end.saturating_sub(area_for_value);
            let visible = self.value.get_visible_graphemes(value_start..value_end);
            string_push_str(&mut message, visible.as_str());
        }
        if byte_len(message.as_str()) <= self.size.width {
            message
        } else {
            String::new()
        }
    }

    /// Marks the bar as drawn.
    pub fn mark_drawn(&mut self)
        ensures
            !final(self).redraw_requested(),
            final(self).width() == old(self).width(),
            final(self).wf() == old(self).wf(),
            final(self).prompt_text() == old(self).prompt_text(),
            final(self).value_text() == old(self).value_text(),
    {
        self.needs_redraw = false;
    }

    /// Takes a new width and asks for a redraw.
    pub fn set_width(&mut self, width: usize)
        ensures
            final(self).width() == width,
            final(self).wf() == old(self).wf(),
            final(self).prompt_text() == old(self).prompt_text(),
            final(self).value_text() == old(self).value_text(),
            final(self).redraw_requested(),
    {
        self.size = Size { height: 1, width };
        self.needs_redraw = true;
    }

    /// Empties the value and asks for a redraw.
    pub fn clear_value(&mut self)
        ensures
            final(self).wf(),
            final(self).value_text().len() == 0,
            final(self).prompt_text() == old(self).prompt_text(),
            final(self).redraw_requested(),
    {
        proof {
            reveal_strlit("");
        }
        self.value = Line::from("");
        self.needs_redraw = true;
    }
}

impl UIComponent for CommandBar {
    closed spec fn redraw_requested(&self) -> bool {
        self.needs_redraw
    }

    open spec fn component_wf(&self) -> bool {
        self.wf()
    }

    fn set_needs_redraw(&mut self, value: bool) {
        self.needs_redraw = value;
    }

    fn needs_redraw(&self) -> (r: bool) {
        self.needs_redraw
    }

    fn set_size(&mut self, size: Size) {
        self.size = size;
    }
}

} // verus!
