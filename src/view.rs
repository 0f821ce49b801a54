//! The document window: the buffer, the caret, the scroll offset, and the
//! search that may be under way.

use crate::annotated::{sat_add, sat_sub, AnnotatedString, Annotation};
use crate::buffer::{
    delete_lines, grapheme_count_of, insert_char_lines, newline_lines, search_backward_from,
    search_forward_from, Buffer, Location, SaveError,
};
use crate::command::{Edit, Move};
use crate::highlighter::Highlighter;
use crate::fileinfo::is_rust_path;
use crate::highlighter::line_annotations;
use crate::line::{columns_until, cut_on_left, saturated, tags_kept, visible_text, Line};
use crate::text::{blen, push_spaces, spaces, string_push_str, to_owned_string};
use crate::ui::{DocumentStatus, Position, Size, UIComponent};
use crate::unicode::grapheme_clusters;
use vstd::prelude::*;
use vstd::view::View as _;

verus! {

/// Which way a search goes.
#[derive(Clone, Copy, Debug, PartialEq, Eq, Structural)]
pub enum SearchDirection {
    Forward,
    Backward,
}

/// What a search remembers: where the caret and the view were when it
/// began, and the query once one was given.
#[derive(Debug)]
pub struct SearchInfo {
    pub prev_location: Location,
    pub prev_scroll_offset: Position,
    pub query: Option<Line>,
}

/// The number of graphemes of line `li`, zero past the last line.
pub open spec fn count_at(ls: Seq<Seq<char>>, li: int) -> nat {
    if 0 <= li < ls.len() {
        grapheme_count_of(ls[li])
    } else {
        0
    }
}

/// `loc` with its grapheme index pulled back into its line.
pub open spec fn snap_grapheme(ls: Seq<Seq<char>>, loc: Location) -> Location {
    Location {
        grapheme_idx: if loc.grapheme_idx <= count_at(ls, loc.line_idx as int) {
            loc.grapheme_idx
        } else {
            count_at(ls, loc.line_idx as int) as usize
        },
        line_idx: loc.line_idx,
    }
}

/// `step` lines up, keeping within the line reached.
pub open spec fn moved_up(ls: Seq<Seq<char>>, loc: Location, step: usize) -> Location {
    snap_grapheme(ls, Location { grapheme_idx: loc.grapheme_idx, line_idx: sat_sub(loc.line_idx, step as nat) })
}

/// `step` lines down, no further than just past the last line, keeping
/// within the line reached.
pub open spec fn moved_down(ls: Seq<Seq<char>>, loc: Location, step: usize) -> Location {
    let l = sat_add(loc.line_idx, step as nat);
    snap_grapheme(
        ls,
        Location {
            grapheme_idx: loc.grapheme_idx,
            line_idx: if l <= ls.len() {
                l
            } else {
                ls.len() as usize
            },
        },
    )
}

/// One grapheme right, or to the start of the next line from a line's end.
pub open spec fn moved_right(ls: Seq<Seq<char>>, loc: Location) -> Location {
    if loc.grapheme_idx < count_at(ls, loc.line_idx as int) {
        Location { grapheme_idx: (loc.grapheme_idx + 1) as usize, line_idx: loc.line_idx }
    } else {
        moved_down(ls, Location { grapheme_idx: 0, line_idx: loc.line_idx }, 1)
    }
}

/// One grapheme left, or to the end of the line above from a line's start.
pub open spec fn moved_left(ls: Seq<Seq<char>>, loc: Location) -> Location {
    if loc.grapheme_idx > 0 {
        Location { grapheme_idx: (loc.grapheme_idx - 1) as usize, line_idx: loc.line_idx }
    } else if loc.line_idx > 0 {
        let up = moved_up(ls, loc, 1);
        Location { grapheme_idx: count_at(ls, up.line_idx as int) as usize, line_idx: up.line_idx }
    } else {
        loc
    }
}

/// Where a caret move takes the caret, with `height` rows on screen.
pub open spec fn moved(ls: Seq<Seq<char>>, loc: Location, m: Move, height: usize) -> Location {
    match m {
        Move::Up => moved_up(ls, loc, 1),
        Move::Down => moved_down(ls, loc, 1),
        Move::PageUp => moved_up(ls, loc, sat_sub(height, 1)),
        Move::PageDown => moved_down(ls, loc, sat_sub(height, 1)),
        Move::Left => moved_left(ls, loc),
        Move::Right => moved_right(ls, loc),
        Move::StartOfLine => Location { grapheme_idx: 0, line_idx: loc.line_idx },
        Move::EndOfLine => Location {
            grapheme_idx: count_at(ls, loc.line_idx as int) as usize,
            line_idx: loc.line_idx,
        },
    }
}

/// The screen cell of a location, before scrolling: its line as the row,
/// and the columns before it as the column.
pub open spec fn position_of(ls: Seq<Seq<char>>, loc: Location) -> Position {
    Position {
        col: if loc.line_idx < ls.len() {
            saturated(columns_until(grapheme_clusters(ls[loc.line_idx as int]), loc.grapheme_idx as int))
        } else {
            0
        },
        row: loc.line_idx,
    }
}

/// The offset along one axis that brings `to` into a window of `extent`
/// cells starting at `offset`, moving it as little as possible.
pub open spec fn scroll_axis(offset: usize, to: usize, extent: usize) -> usize {
    if to < offset {
        to
    } else if to >= sat_add(offset, extent as nat) {
        sat_add(sat_sub(to, extent as nat), 1)
    } else {
        offset
    }
}

/// The scroll offset that brings `pos` into view.
pub open spec fn scrolled_to(scroll: Position, pos: Position, size: Size) -> Position {
    Position {
        row: scroll_axis(scroll.row, pos.row, size.height),
        col: scroll_axis(scroll.col, pos.col, size.width),
    }
}

/// `n / 2`, rounded up.
pub open spec fn half_up(n: usize) -> nat {
    ((n as nat + 1) / 2) as nat
}

/// The scroll offset that puts `pos` in the middle of the screen.
pub open spec fn centered_on(pos: Position, size: Size) -> Position {
    Position { row: sat_sub(pos.row, half_up(size.height)), col: sat_sub(pos.col, half_up(size.width)) }
}

/// The welcome line for a screen `width` columns wide: a tilde, then the
/// editor's name and version centred in the rest of the line; just the
/// tilde if they do not fit, nothing on a screen of no width.
pub open spec fn welcome_text(width: usize) -> Seq<char> {
    let msg = "hecto editor -- version 0.1.0"@;
    if width == 0 {
        Seq::empty()
    } else if width - 1 < msg.len() {
        seq!['~']
    } else {
        let pad = (width - 1 - msg.len()) as nat;
        seq!['~'] + spaces(pad / 2) + msg + spaces((pad - pad / 2) as nat)
    }
}

/// A row of the screen, ready to print.
#[derive(Debug)]
pub enum RenderedRow {
    /// Part of a line of the document, with its highlights.
    Text(AnnotatedString),
    /// A row with no line of the document.
    Plain(String),
}

/// The welcome line for a screen `width` columns wide.
pub fn build_welcome_message(width: usize) -> (r: String)
    ensures
        r@ == welcome_text(width),
{
    proof {
        reveal_strlit("hecto editor -- version 0.1.0");
        reveal_strlit("");
        reveal_strlit("~");
    }
    if width == 0 {
        return to_owned_string("");
    }
    let msg = to_owned_string("hecto editor -- version 0.1.0");
    let len: usize = 29;
    assert(msg@.len() == 29);
    let remaining = width - 1;
    if remaining < len {
        let r = to_owned_string("~");
        assert(r@ =~= seq!['~']);
        return r;
    }
    let pad = remaining - len;
    let mut r = to_owned_string("~");
    assert(r@ =~= seq!['~']);
    push_spaces(&mut r, pad / 2);
    string_push_str(&mut r, msg.as_str());
    push_spaces(&mut r, pad - pad / 2);
    r
}

/// The document window.
#[derive(Debug)]
pub struct View {
    buffer: Buffer,
    needs_redraw: bool,
    size: Size,
    text_location: Location,
    scroll_offset: Position,
    search_info: Option<SearchInfo>,
}

impl View {
    /// The lines of the document.
    pub closed spec fn lines(&self) -> Seq<Seq<char>> {
        self.buffer@
    }

    /// The caret.
    pub closed spec fn location(&self) -> Location {
        self.text_location
    }

    /// The scroll offset.
    pub closed spec fn scroll(&self) -> Position {
        self.scroll_offset
    }

    /// The size of the window.
    pub closed spec fn window(&self) -> Size {
        self.size
    }

    /// Whether the document differs from its file.
    pub closed spec fn modified(&self) -> bool {
        self.buffer.dirty()
    }

    /// The path of the document's file, if any.
    pub closed spec fn path(&self) -> Option<Seq<char>> {
        self.buffer.path()
    }

    /// Whether a search is under way.
    pub closed spec fn searching(&self) -> bool {
        self.search_info is Some
    }

    /// The query of the search under way, if one was given.
    pub closed spec fn query(&self) -> Option<Seq<char>> {
        match self.search_info {
            Some(si) => match si.query {
                Some(q) => Some(q@),
                None => None,
            },
            None => None,
        }
    }

    /// Where the caret and the view were when the search under way began.
    pub closed spec fn search_start(&self) -> Option<(Location, Position)> {
        match self.search_info {
            Some(si) => Some((si.prev_location, si.prev_scroll_offset)),
            None => None,
        }
    }

    /// The view is well formed.
    pub closed spec fn wf(&self) -> bool {
        &&& self.buffer.wf()
        &&& (self.search_info matches Some(si) ==> (si.query matches Some(q) ==> q.wf()))
    }

    /// An empty window over an empty document.
    pub fn new() -> (r: View)
        ensures
            r.wf(),
            r.lines().len() == 0,
            r.location() == (Location { grapheme_idx: 0, line_idx: 0 }),
            r.scroll() == (Position { col: 0, row: 0 }),
            !r.searching(),
    {
        View {
            buffer: Buffer::new(),
            needs_redraw: true,
            size: Size { height: 0, width: 0 },
            text_location: Location { grapheme_idx: 0, line_idx: 0 },
            scroll_offset: Position { col: 0, row: 0 },
            search_info: None,
        }
    }

    /// What the status line should show.
    pub fn get_status(&self) -> (r: DocumentStatus)
        ensures
            r.total_lines == self.lines().len(),
            r.current_line_idx == self.location().line_idx,
            r.is_modified == self.modified(),
            r.file_name@ == crate::fileinfo::display_name_of(self.path()),
    {
        DocumentStatus {
            total_lines: self.buffer.height(),
            current_line_idx: self.text_location.line_idx,
            file_name: self.buffer.get_file_info().display_name(),
            is_modified: self.buffer.is_dirty(),
        }
    }

    /// Whether the document belongs to a file.
    pub fn is_file_loaded(&self) -> (r: bool)
        ensures
            r == self.path() is Some,
    {
        self.buffer.is_file_loaded()
    }

    /// The document.
    pub fn buffer(&self) -> (r: &Buffer)
        ensures
            r@ == self.lines(),
            self.wf() ==> r.wf(),
    {
        &self.buffer
    }

    /// The caret.
    pub fn text_location(&self) -> (r: Location)
        ensures
            r == self.location(),
    {
        self.text_location
    }

    /// The scroll offset.
    pub fn scroll_offset(&self) -> (r: Position)
        ensures
            r == self.scroll(),
    {
        self.scroll_offset
    }

    /// Replaces the document by the one read from `file_name`, whose text is
    /// `contents`, and asks for a redraw.
    pub fn load(&mut self, file_name: &str, contents: &str)
        requires
            old(self).wf(),
        ensures
            final(self).wf(),
            final(self).lines() == crate::buffer::lines_of(contents@),
            final(self).path() == Some(file_name@),
            !final(self).modified(),
            final(self).location() == old(self).location(),
    {
        self.buffer = Buffer::load(file_name, contents);
        self.needs_redraw = true;
    }

    /// Records that the document was written to its own file; fails if it
    /// belongs to no file.
    pub fn save(&mut self) -> (r: Result<(), SaveError>)
        requires
            old(self).wf(),
        ensures
            final(self).wf(),
            final(self).lines() == old(self).lines(),
            old(self).path() is None ==> r is Err,
            old(self).path() is Some ==> r is Ok && !final(self).modified(),
    {
        self.buffer.save()
    }

    /// Records that the document was written to `file_name`.
    pub fn save_as(&mut self, file_name: &str)
        requires
            old(self).wf(),
        ensures
            final(self).wf(),
            final(self).lines() == old(self).lines(),
            final(self).path() == Some(file_name@),
            !final(self).modified(),
    {
        self.buffer.save_as(file_name)
    }

    /// The screen cell of the caret, before scrolling.
    fn text_location_to_position(&self) -> (r: Position)
        requires
            self.wf(),
        ensures
            r == position_of(self.lines(), self.location()),
    {
        let row = self.text_location.line_idx;
        let col = self.buffer.width_until(row, self.text_location.grapheme_idx);
        Position { col, row }
    }

    /// The screen cell of the caret, relative to the scroll offset.
    pub open spec fn caret_position_spec(&self) -> Position {
        Position {
            col: sat_sub(position_of(self.lines(), self.location()).col, self.scroll().col as nat),
            row: sat_sub(position_of(self.lines(), self.location()).row, self.scroll().row as nat),
        }
    }

    /// The screen cell of the caret, relative to the scroll offset.
    pub fn caret_position(&self) -> (r: Position)
        requires
            self.wf(),
        ensures
            r == self.caret_position_spec(),
    {
        self.text_location_to_position().saturating_sub(self.scroll_offset)
    }

    /// Scrolls so that row `to` is on screen.
    fn scroll_vertically(&mut self, to: usize)
        ensures
            final(self).scroll_offset.row == scroll_axis(old(self).scroll_offset.row, to, old(self).size.height),
            final(self).scroll_offset.col == old(self).scroll_offset.col,
            final(self).buffer == old(self).buffer,
            final(self).text_location == old(self).text_location,
            final(self).size == old(self).size,
            final(self).search_info == old(self).search_info,
    {
        let height = self.size.height;
        if to < self.scroll_offset.row {
            self.scroll_offset.row = to;
            self.needs_redraw = true;
        } else if to >= self.scroll_offset.row.saturating_add(height) {
            self.scroll_offset.row = to.saturating_sub(height).saturating_add(1);
            self.needs_redraw = true;
        }
    }

    /// Scrolls so that column `to` is on screen.
    fn scroll_horizontally(&mut self, to: usize)
        ensures
            final(self).scroll_offset.col == scroll_axis(old(self).scroll_offset.col, to, old(self).size.width),
            final(self).scroll_offset.row == old(self).scroll_offset.row,
            final(self).buffer == old(self).buffer,
            final(self).text_location == old(self).text_location,
            final(self).size == old(self).size,
            final(self).search_info == old(self).search_info,
    {
        let width = self.size.width;
        if to < self.scroll_offset.col {
            self.scroll_offset.col = to;
            self.needs_redraw = true;
        } else if to >= self.scroll_offset.col.saturating_add(width) {
            self.scroll_offset.col = to.saturating_sub(width).saturating_add(1);
            self.needs_redraw = true;
        }
    }

    /// Scrolls as little as needed to bring the caret on screen.
    fn scroll_text_location_into_view(&mut self)
        requires
            old(self).wf(),
        ensures
            final(self).scroll_offset == scrolled_to(
                old(self).scroll_offset,
                position_of(old(self).lines(), old(self).location()),
                old(self).size,
            ),
            final(self).buffer == old(self).buffer,
            final(self).text_location == old(self).text_location,
            final(self).size == old(self).size,
            final(self).search_info == old(self).search_info,
    {
        let pos = self.text_location_to_position();
        self.scroll_vertically(pos.row);
        self.scroll_horizontally(pos.col);
    }

    /// Scrolls so that the caret is in the middle of the screen.
    fn center_text_location(&mut self)
        requires
            old(self).wf(),
        ensures
            final(self).scroll_offset == centered_on(
                position_of(old(self).lines(), old(self).location()),
                old(self).size,
            ),
            final(self).buffer == old(self).buffer,
            final(self).text_location == old(self).text_location,
            final(self).size == old(self).size,
            final(self).search_info == old(self).search_info,
            final(self).needs_redraw,
    {
        let pos = self.text_location_to_position();
        let height = self.size.height;
        let width = self.size.width;
        let vertical_mid = height / 2 + height % 2;
        let horizontal_mid = width / 2 + width % 2;
        assert(vertical_mid == half_up(height));
        assert(horizontal_mid == half_up(width));
        self.scroll_offset.row = pos.row.saturating_sub(vertical_mid);
        self.scroll_offset.col = pos.col.saturating_sub(horizontal_mid);
        self.needs_redraw = true;
    }

    /// Pulls the caret's grapheme index back into its line.
    fn snap_to_valid_grapheme(&mut self)
        requires
            old(self).wf(),
        ensures
            final(self).text_location == snap_grapheme(old(self).lines(), old(self).text_location),
            final(self).buffer == old(self).buffer,
            final(self).scroll_offset == old(self).scroll_offset,
            final(self).size == old(self).size,
            final(self).search_info == old(self).search_info,
    {
        let count = self.buffer.grapheme_count(self.text_location.line_idx);
        if self.text_location.grapheme_idx > count {
            self.text_location.grapheme_idx = count;
        }
    }

    /// Pulls the caret's line no further than just past the last line.
    fn snap_to_valid_line(&mut self)
        ensures
            final(self).text_location == (Location {
                grapheme_idx: old(self).text_location.grapheme_idx,
                line_idx: if old(self).text_location.line_idx <= old(self).lines().len() {
                    old(self).text_location.line_idx
                } else {
                    old(self).lines().len() as usize
                },
            }),
            final(self).buffer == old(self).buffer,
            final(self).scroll_offset == old(self).scroll_offset,
            final(self).size == old(self).size,
            final(self).search_info == old(self).search_info,
    {
        let height = self.buffer.height();
        if self.text_location.line_idx > height {
            self.text_location.line_idx = height;
        }
    }

    fn move_up(&mut self, step: usize)
        requires
            old(self).wf(),
        ensures
            final(self).text_location == moved_up(old(self).lines(), old(self).text_location, step),
            final(self).buffer == old(self).buffer,
            final(self).scroll_offset == old(self).scroll_offset,
            final(self).size == old(self).size,
            final(self).search_info == old(self).search_info,
    {
        self.text_location.line_idx = self.text_location.line_idx.saturating_sub(step);
        self.snap_to_valid_grapheme();
    }

    fn move_down(&mut self, step: usize)
        requires
            old(self).wf(),
        ensures
            final(self).text_location == moved_down(old(self).lines(), old(self).text_location, step),
            final(self).buffer == old(self).buffer,
            final(self).scroll_offset == old(self).scroll_offset,
            final(self).size == old(self).size,
            final(self).search_info == old(self).search_info,
    {
        self.text_location.line_idx = self.text_location.line_idx.saturating_add(step);
        self.snap_to_valid_line();
        self.snap_to_valid_grapheme();
    }

    fn move_right(&mut self)
        requires
            old(self).wf(),
        ensures
            final(self).text_location == moved_right(old(self).lines(), old(self).text_location),
            final(self).buffer == old(self).buffer,
            final(self).scroll_offset == old(self).scroll_offset,
            final(self).size == old(self).size,
            final(self).search_info == old(self).search_info,
    {
        let count = self.buffer.grapheme_count(self.text_location.line_idx);
        if self.text_location.grapheme_idx < count {
            self.text_location.grapheme_idx = self.text_location.grapheme_idx + 1;
        } else {
            self.move_to_start_of_line();
            self.move_down(1);
        }
    }

    fn move_left(&mut self)
        requires
            old(self).wf(),
        ensures
            final(self).text_location == moved_left(old(self).lines(), old(self).text_location),
            final(self).buffer == old(self).buffer,
            final(self).scroll_offset == old(self).scroll_offset,
            final(self).size == old(self).size,
            final(self).search_info == old(self).search_info,
    {
        if self.text_location.grapheme_idx > 0 {
            self.text_location.grapheme_idx = self.text_location.grapheme_idx - 1;
        } else if self.text_location.line_idx > 0 {
            self.move_up(1);
            self.move_to_end_of_line();
        }
    }

    fn move_to_start_of_line(&mut self)
        ensures
            final(self).text_location == (Location { grapheme_idx: 0, line_idx: old(self).text_location.line_idx }),
            final(self).buffer == old(self).buffer,
            final(self).scroll_offset == old(self).scroll_offset,
            final(self).size == old(self).size,
            final(self).search_info == old(self).search_info,
    {
        self.text_location.grapheme_idx = 0;
    }

    fn move_to_end_of_line(&mut self)
        requires
            old(self).wf(),
        ensures
            final(self).text_location == (Location {
                grapheme_idx: count_at(old(self).lines(), old(self).text_location.line_idx as int) as usize,
                line_idx: old(self).text_location.line_idx,
            }),
            final(self).buffer == old(self).buffer,
            final(self).scroll_offset == old(self).scroll_offset,
            final(self).size == old(self).size,
            final(self).search_info == old(self).search_info,
    {
        self.text_location.grapheme_idx = self.buffer.grapheme_count(self.text_location.line_idx);
    }

    /// Moves the caret, then scrolls as little as needed to keep it on screen.
    pub fn handle_move_command(&mut self, command: Move)
        requires
            old(self).wf(),
        ensures
            final(self).wf(),
            final(self).lines() == old(self).lines(),
            final(self).modified() == old(self).modified(),
            final(self).path() == old(self).path(),
            final(self).window() == old(self).window(),
            final(self).location() == moved(old(self).lines(), old(self).location(), command, old(self).window().height),
            final(self).scroll() == scrolled_to(
                old(self).scroll(),
                position_of(final(self).lines(), final(self).location()),
                old(self).window(),
            ),
            final(self).searching() == old(self).searching(),
            final(self).query() == old(self).query(),
            final(self).search_start() == old(self).search_start(),
    {
        let height = self.size.height;
        match command {
            Move::Up => self.move_up(1),
            Move::Down => self.move_down(1),
            Move::PageUp => self.move_up(height.saturating_sub(1)),
            Move::PageDown => self.move_down(height.saturating_sub(1)),
            Move::Left => self.move_left(),
            Move::Right => self.move_right(),
            Move::StartOfLine => self.move_to_start_of_line(),
            Move::EndOfLine => self.move_to_end_of_line(),
        }
        self.scroll_text_location_into_view();
    }
}

/// The caret after an edit at `loc` turned the lines `ls` into `after`.
pub open spec fn location_after_edit(
    ls: Seq<Seq<char>>,
    after: Seq<Seq<char>>,
    loc: Location,
    e: Edit,
) -> Location {
    match e {
        Edit::Insert(_) => if count_at(after, loc.line_idx as int) > count_at(ls, loc.line_idx as int) {
            moved_right(after, loc)
        } else {
            loc
        },
        Edit::InsertNewline => moved_right(after, loc),
        Edit::Delete => loc,
        Edit::DeleteBackward => moved_left(ls, loc),
    }
}

/// The lines after an edit at `loc`.
pub open spec fn lines_after_edit(ls: Seq<Seq<char>>, loc: Location, e: Edit) -> Seq<Seq<char>> {
    match e {
        Edit::Insert(c) => insert_char_lines(ls, c, loc),
        Edit::InsertNewline => newline_lines(ls, loc),
        Edit::Delete => delete_lines(ls, loc),
        Edit::DeleteBackward => if loc.line_idx == 0 && loc.grapheme_idx == 0 {
            ls
        } else {
            delete_lines(ls, moved_left(ls, loc))
        },
    }
}

impl View {
    fn insert_newline(&mut self)
        requires
            old(self).wf(),
        ensures
            final(self).wf(),
            final(self).lines() == newline_lines(old(self).lines(), old(self).location()),
            final(self).location() == moved_right(final(self).lines(), old(self).location()),
            final(self).scroll() == scrolled_to(old(self).scroll(), position_of(final(self).lines(), final(self).location()), old(self).window()),
            final(self).window() == old(self).window(),
            final(self).path() == old(self).path(),
            final(self).query() == old(self).query(),
            final(self).search_start() == old(self).search_start(),
    {
        self.buffer.insert_newline(self.text_location);
        self.handle_move_command(Move::Right);
        self.needs_redraw = true;
    }

    fn delete(&mut self)
        requires
            old(self).wf(),
        ensures
            final(self).wf(),
            final(self).lines() == delete_lines(old(self).lines(), old(self).location()),
            final(self).location() == old(self).location(),
            final(self).scroll() == old(self).scroll(),
            final(self).window() == old(self).window(),
            final(self).path() == old(self).path(),
            final(self).query() == old(self).query(),
            final(self).search_start() == old(self).search_start(),
    {
        self.buffer.delete(self.text_location);
        self.needs_redraw = true;
    }

    fn delete_backward(&mut self)
        requires
            old(self).wf(),
        ensures
            final(self).wf(),
            final(self).lines() == lines_after_edit(old(self).lines(), old(self).location(), Edit::DeleteBackward),
            old(self).location().line_idx == 0 && old(self).location().grapheme_idx == 0 ==> final(self).location() == old(self).location() && final(self).scroll() == old(self).scroll(),
            !(old(self).location().line_idx == 0 && old(self).location().grapheme_idx == 0) ==> final(self).location() == moved_left(old(self).lines(), old(self).location()) && final(self).scroll() == scrolled_to(old(self).scroll(), position_of(old(self).lines(), final(self).location()), old(self).window()),
            final(self).window() == old(self).window(),
            final(self).path() == old(self).path(),
            final(self).query() == old(self).query(),
            final(self).search_start() == old(self).search_start(),
    {
        if self.text_location.line_idx != 0 || self.text_location.grapheme_idx != 0 {
            self.handle_move_command(Move::Left);
            self.delete();
        }
    }

    fn insert_char(&mut self, c: char)
        requires
            old(self).wf(),
        ensures
            final(self).wf(),
            final(self).lines() == insert_char_lines(old(self).lines(), c, old(self).location()),
            final(self).location() == location_after_edit(old(self).lines(), final(self).lines(), old(self).location(), Edit::Insert(c)),
            count_at(final(self).lines(), old(self).location().line_idx as int) > count_at(old(self).lines(), old(self).location().line_idx as int) ==> final(self).scroll() == scrolled_to(old(self).scroll(), position_of(final(self).lines(), final(self).location()), old(self).window()),
            count_at(final(self).lines(), old(self).location().line_idx as int) <= count_at(old(self).lines(), old(self).location().line_idx as int) ==> final(self).scroll() == old(self).scroll(),
            final(self).window() == old(self).window(),
            final(self).path() == old(self).path(),
            final(self).query() == old(self).query(),
            final(self).search_start() == old(self).search_start(),
    {
        let old_len = self.buffer.grapheme_count(self.text_location.line_idx);
        self.buffer.insert_char(c, self.text_location);
        let new_len = self.buffer.grapheme_count(self.text_location.line_idx);
        if new_len > old_len {
            self.handle_move_command(Move::Right);
        }
        self.needs_redraw = true;
    }

    /// Applies an edit at the caret and moves the caret past what was typed
    /// (or onto what backspace reached), scrolling to keep it on screen.
    pub fn handle_edit_command(&mut self, command: Edit)
        requires
            old(self).wf(),
        ensures
            final(self).wf(),
            final(self).lines() == lines_after_edit(old(self).lines(), old(self).location(), command),
            !(command is DeleteBackward && old(self).location().line_idx == 0 && old(self).location().grapheme_idx == 0) ==> final(self).location() == location_after_edit(old(self).lines(), final(self).lines(), old(self).location(), command),
            command is DeleteBackward && old(self).location().line_idx == 0 && old(self).location().grapheme_idx == 0 ==> final(self).location() == old(self).location(),
            final(self).window() == old(self).window(),
            final(self).path() == old(self).path(),
            final(self).query() == old(self).query(),
            final(self).search_start() == old(self).search_start(),
    {
        match command {
            Edit::DeleteBackward => self.delete_backward(),
            Edit::Delete => self.delete(),
            Edit::InsertNewline => self.insert_newline(),
            Edit::Insert(c) => self.insert_char(c),
        }
    }

    /// Starts a search, remembering where the caret and the view are.
    pub fn enter_search(&mut self)
        requires
            old(self).wf(),
        ensures
            final(self).wf(),
            final(self).searching(),
            final(self).query() is None,
            final(self).search_start() == Some((old(self).location(), old(self).scroll())),
            final(self).lines() == old(self).lines(),
            final(self).location() == old(self).location(),
            final(self).scroll() == old(self).scroll(),
            final(self).window() == old(self).window(),
    {
        self.search_info = Some(SearchInfo {
            prev_location: self.text_location,
            prev_scroll_offset: self.scroll_offset,
            query: None,
        });
    }

    /// Ends the search, keeping the caret where it is.
    pub fn exit_search(&mut self)
        requires
            old(self).wf(),
        ensures
            final(self).wf(),
            !final(self).searching(),
            final(self).lines() == old(self).lines(),
            final(self).location() == old(self).location(),
            final(self).scroll() == old(self).scroll(),
            final(self).window() == old(self).window(),
    {
        self.search_info = None;
        self.needs_redraw = true;
    }

    /// Abandons the search: the caret and the view go back to where they
    /// were when it began.
    pub fn dismiss_search(&mut self)
        requires
            old(self).wf(),
        ensures
            final(self).wf(),
            !final(self).searching(),
            final(self).lines() == old(self).lines(),
            final(self).window() == old(self).window(),
            old(self).search_start() matches Some((l, p)) ==> final(self).location() == l
                && final(self).scroll() == scrolled_to(p, position_of(old(self).lines(), l), old(self).window()),
            old(self).search_start() is None ==> final(self).location() == old(self).location()
                && final(self).scroll() == old(self).scroll(),
    {
        match &self.search_info {
            Some(si) => {
                self.text_location = si.prev_location;
                self.scroll_offset = si.prev_scroll_offset;
                self.scroll_text_location_into_view();
            },
            None => {},
        }
        self.exit_search();
    }

    /// Searches for the query from `from` in `direction`; on a match the
    /// caret goes there and the view centres on it.
    fn search_in_direction(&mut self, from: Location, direction: SearchDirection)
        requires
            old(self).wf(),
        ensures
            final(self).wf(),
            final(self).lines() == old(self).lines(),
            final(self).window() == old(self).window(),
            final(self).query() == old(self).query(),
            final(self).search_start() == old(self).search_start(),
            final(self).path() == old(self).path(),
            final(self).modified() == old(self).modified(),
            ({
                let found = match old(self).query() {
                    Some(q) => if q.len() == 0 {
                        None
                    } else if direction is Forward {
                        search_forward_from(old(self).lines(), q, from, 0)
                    } else {
                        search_backward_from(old(self).lines(), q, from, 0)
                    },
                    None => None,
                };
                match found {
                    Some(l) => final(self).location() == l && final(self).scroll() == centered_on(position_of(old(self).lines(), l), old(self).window()),
                    None => final(self).location() == old(self).location() && final(self).scroll() == old(self).scroll(),
                }
            }),
    {
        let mut found: Option<Location> = None;
        match &self.search_info {
            Some(si) => match &si.query {
                Some(q) => {
                    let qs = q.as_str();
                    found = match direction {
                        SearchDirection::Forward => self.buffer.search_forward(qs, from),
                        SearchDirection::Backward => self.buffer.search_backward(qs, from),
                    };
                },
                None => {},
            },
            None => {},
        }
        match found {
            Some(l) => {
                self.text_location = l;
                self.center_text_location();
            },
            None => {},
        }
        self.needs_redraw = true;
    }

    /// Sets the query of the search under way and searches forward from the
    /// caret; without a search under way only the caret's search runs, with
    /// no query, and finds nothing.
    pub fn search(&mut self, query: &str)
        requires
            old(self).wf(),
        ensures
            final(self).wf(),
            final(self).modified() == old(self).modified(),
            final(self).path() == old(self).path(),
            final(self).lines() == old(self).lines(),
            final(self).window() == old(self).window(),
            final(self).searching() == old(self).searching(),
            final(self).search_start() == old(self).search_start(),
            old(self).searching() ==> final(self).query() == Some(query@),
            ({
                let found = if old(self).searching() && query@.len() > 0 {
                    search_forward_from(old(self).lines(), query@, old(self).location(), 0)
                } else {
                    None
                };
                match found {
                    Some(l) => final(self).location() == l && final(self).scroll() == centered_on(position_of(old(self).lines(), l), old(self).window()),
                    None => final(self).location() == old(self).location() && final(self).scroll() == old(self).scroll(),
                }
            }),
    {
        match &mut self.search_info {
            Some(si) => {
                si.query = Some(Line::from(query));
            },
            None => {},
        }
        let from = self.text_location;
        self.search_in_direction(from, SearchDirection::Forward);
    }

    /// Searches forward for the next match, starting one grapheme right of
    /// the caret.
    pub fn search_next(&mut self)
        requires
            old(self).wf(),
        ensures
            final(self).wf(),
            final(self).modified() == old(self).modified(),
            final(self).path() == old(self).path(),
            final(self).lines() == old(self).lines(),
            final(self).query() == old(self).query(),
            ({
                let from = Location {
                    grapheme_idx: sat_add(old(self).location().grapheme_idx, 1),
                    line_idx: old(self).location().line_idx,
                };
                let found = match old(self).query() {
                    Some(q) => if q.len() == 0 {
                        None
                    } else {
                        search_forward_from(old(self).lines(), q, from, 0)
                    },
                    None => None,
                };
                match found {
                    Some(l) => final(self).location() == l,
                    None => final(self).location() == old(self).location(),
                }
            }),
    {
        let mut step_right: usize = 1;
        match &self.search_info {
            Some(si) => match &si.query {
                Some(q) => {
                    let n = q.grapheme_count();
                    step_right = if n < 1 {
                        n
                    } else {
                        1
                    };
                    proof {
                        if n == 0 {
                            q.lemma_graphemes();
                            assert(q@.len() == 0) by {
                                assert(q.graphemes().take(0) =~= q.graphemes());
                            }
                        }
                    }
                },
                None => {},
            },
            None => {},
        }
        let from = Location {
            grapheme_idx: self.text_location.grapheme_idx.saturating_add(step_right),
            line_idx: self.text_location.line_idx,
        };
        self.search_in_direction(from, SearchDirection::Forward);
    }

    /// Searches backward for the previous match, before the caret.
    pub fn search_prev(&mut self)
        requires
            old(self).wf(),
        ensures
            final(self).wf(),
            final(self).modified() == old(self).modified(),
            final(self).path() == old(self).path(),
            final(self).lines() == old(self).lines(),
            final(self).query() == old(self).query(),
            ({
                let found = match old(self).query() {
                    Some(q) => if q.len() == 0 {
                        None
                    } else {
                        search_backward_from(old(self).lines(), q, old(self).location(), 0)
                    },
                    None => None,
                };
                match found {
                    Some(l) => final(self).location() == l,
                    None => final(self).location() == old(self).location(),
                }
            }),
    {
        let from = self.text_location;
        self.search_in_direction(from, SearchDirection::Backward);
    }
}

/// What screen row `k` of a window shows: the line it reaches, as seen
/// through the window's columns, if there is one and its columns can be
/// counted; else the welcome line on the row a third of the way down an
/// empty document; else a tilde.
pub open spec fn row_shows(
    ls: Seq<Seq<char>>,
    scroll: Position,
    size: Size,
    origin_row: usize,
    hl: RowHighlights,
    k: int,
    row: RenderedRow,
) -> bool {
    let li = k + scroll.row;
    let gs = if li < ls.len() {
        grapheme_clusters(ls[li])
    } else {
        Seq::empty()
    };
    let left = scroll.col as nat;
    let right = sat_add(scroll.col, size.width as nat) as nat;
    if li < ls.len() && columns_until(gs, gs.len() as int) <= usize::MAX {
        row matches RenderedRow::Text(a) && a.text() == visible_text(gs, left, right) && (left
            < right ==> tags_kept(
            a.annotations(),
            line_annotations(ls[li], li as usize, hl.lexical, hl.query, hl.selected),
            gs,
            left,
            right,
            0,
            if cut_on_left(gs, left, right) {
                blen(seq!['⋯']) as int
            } else {
                0
            },
        ))
    } else if li < ls.len() {
        true
    } else if origin_row + k == half_up_third(size.height) && ls.len() == 0 {
        row matches RenderedRow::Plain(s) && s@ == welcome_text(size.width)
    } else {
        row matches RenderedRow::Plain(s) && s@ == seq!['~']
    }
}

/// What the rows of a window are highlighted for: the lexical rules of the
/// file's type, the query of the search under way, and its selected match.
pub struct RowHighlights {
    pub lexical: bool,
    pub query: Option<Seq<char>>,
    pub selected: Option<Location>,
}

/// The highlights of the rows of `v`: digits in Rust files, and while a
/// query is being searched for, its matches and the match at the caret.
pub open spec fn row_highlights(v: View) -> RowHighlights {
    RowHighlights {
        lexical: v.path() is Some && is_rust_path(v.path()->0),
        query: v.query(),
        selected: if v.query() is Some {
            Some(v.location())
        } else {
            None
        },
    }
}

/// The highlights `h` hold, for each of the first `n` rows that reach a
/// line, that line's annotations.
pub open spec fn rows_highlighted(
    h: Map<usize, Seq<Annotation>>,
    ls: Seq<Seq<char>>,
    scroll_top: usize,
    n: int,
    hl: RowHighlights,
) -> bool {
    forall|k2: int|
        #![trigger h[(k2 + scroll_top) as usize]]
        #![trigger h.contains_key((k2 + scroll_top) as usize)]
        0 <= k2 < n && k2 + scroll_top < ls.len() ==> h.contains_key((k2 + scroll_top) as usize)
            && h[(k2 + scroll_top) as usize] == line_annotations(
            ls[k2 + scroll_top],
            (k2 + scroll_top) as usize,
            hl.lexical,
            hl.query,
            hl.selected,
        )
}

/// `n / 3`, rounded up.
pub open spec fn half_up_third(n: usize) -> nat {
    ((n as nat + 2) / 3) as nat
}

impl View {
    /// The rows of the window, top to bottom, for a window whose first row
    /// is screen row `origin_row`; the lines shown are highlighted for the
    /// search under way and its selected match.
    pub fn render_rows(&self, origin_row: usize) -> (r: Vec<RenderedRow>)
        requires
            self.wf(),
            origin_row + self.window().height <= usize::MAX,
        ensures
            r@.len() == self.window().height,
            forall|k: int|
                0 <= k < r@.len() ==> row_shows(
                    self.lines(),
                    self.scroll(),
                    self.window(),
                    origin_row,
                    row_highlights(*self),
                    k,
                    #[trigger] r@[k],
                ),
    {
        let height = self.size.height;
        let width = self.size.width;
        let top_third = height / 3 + if height % 3 > 0 {
            1
        } else {
            0
        };
        assert(top_third == half_up_third(height));
        let scroll_top = self.scroll_offset.row;
        let query: Option<&str> = match &self.search_info {
            Some(si) => match &si.query {
                Some(q) => Some(q.as_str()),
                None => None,
            },
            None => None,
        };
        let selected = match query {
            Some(_) => Some(self.text_location),
            None => None,
        };
        let file_type = self.buffer.get_file_info().get_file_type();
        let mut highlighter = Highlighter::new(query, selected, file_type);
        let ghost hl = row_highlights(*self);
        let ghost ls = self.lines();
        assert(highlighter.word() == hl.query);
        let line_count = self.buffer.height();
        let mut k: usize = 0;
        while k < height
            invariant
                self.wf(),
                line_count == ls.len(),
                ls == self.lines(),
                scroll_top == self.scroll().row,
                highlighter.wf(),
                highlighter.word() == hl.query,
                highlighter.lexical() == hl.lexical,
                highlighter.selected() == hl.selected,
                k <= height,
                rows_highlighted(highlighter.highlights(), ls, scroll_top, k as int, hl),
            decreases height - k,
        {
            let li = k.saturating_add(scroll_top);
            let ghost before = highlighter.highlights();
            self.buffer.highlight(li, &mut highlighter);
            proof {
                let nk: int = k + 1;
                assert(rows_highlighted(highlighter.highlights(), ls, scroll_top, nk, hl)) by {
                assert forall|k2: int|
                    #![trigger highlighter.highlights()[(k2 + scroll_top) as usize]]
                    #![trigger highlighter.highlights().contains_key((k2 + scroll_top) as usize)]
                    0 <= k2 < nk && k2 + scroll_top < ls.len() implies highlighter.highlights().contains_key(
                        (k2 + scroll_top) as usize,
                    ) && highlighter.highlights()[(k2 + scroll_top) as usize] == line_annotations(
                        ls[k2 + scroll_top],
                        (k2 + scroll_top) as usize,
                        hl.lexical,
                        hl.query,
                        hl.selected,
                    ) by {
                    if k2 == k {
                        assert(li == k2 + scroll_top);
                    }
                }
                }
            }
            k = k + 1;
        }
        let left = self.scroll_offset.col;
        let right = left.saturating_add(width);
        let mut rows: Vec<RenderedRow> = Vec::new();
        let mut k: usize = 0;
        while k < height
            invariant
                self.wf(),
                line_count == self.lines().len(),
                highlighter.wf(),
                ls == self.lines(),
                hl == row_highlights(*self),
                rows_highlighted(highlighter.highlights(), ls, scroll_top, height as int, hl),
                height == self.window().height,
                width == self.window().width,
                scroll_top == self.scroll().row,
                left == self.scroll().col,
                right == sat_add(left, width as nat),
                top_third == half_up_third(height),
                origin_row + height <= usize::MAX,
                k <= height,
                rows@.len() == k,
                forall|j: int|
                    0 <= j < k ==> row_shows(
                        self.lines(),
                        self.scroll(),
                        self.window(),
                        origin_row,
                        hl,
                        j,
                        #[trigger] rows@[j],
                    ),
            decreases height - k,
        {
            let line_idx = k.saturating_add(scroll_top);
            let row = match self.buffer.get_highlighted_substring(line_idx, left..right, &highlighter) {
                Some(a) => RenderedRow::Text(a),
                None => {
                    if origin_row + k == top_third && self.buffer.is_empty() {
                        RenderedRow::Plain(build_welcome_message(width))
                    } else {
                        proof {
                            reveal_strlit("~");
                        }
                        let t = to_owned_string("~");
                        assert(t@ =~= seq!['~']);
                        RenderedRow::Plain(t)
                    }
                },
            };
            proof {
                let li = k + scroll_top;
                let ls = self.lines();
                if li <= usize::MAX {
                    assert(line_idx == li);
                } else {
                    assert(line_idx == usize::MAX);
                    assert(li >= ls.len());
                }
                if li < ls.len() {
                    let gs = grapheme_clusters(ls[li]);
                    if columns_until(gs, gs.len() as int) <= usize::MAX {
                        assert(row matches RenderedRow::Text(_));
                    }
                } else {
                    assert(row matches RenderedRow::Plain(_));
                }
                assert(row_shows(self.lines(), self.scroll(), self.window(), origin_row, hl, k as int, row));
            }
            let ghost old_rows = rows@;
            rows.push(row);
            proof {
                assert(rows@[k as int] == row);
                assert forall|j: int| 0 <= j < k + 1 implies row_shows(
                    self.lines(),
                    self.scroll(),
                    self.window(),
                    origin_row,
                    hl,
                    j,
                    #[trigger] rows@[j],
                ) by {
                    if j < k {
                        assert(rows@[j] == old_rows[j]);
                    }
                }
            }
            k = k + 1;
        }
        rows
    }
}

impl View {
    /// Takes a new window size, scrolling to keep the caret on screen, and
    /// asks for a redraw.
    pub fn set_window_size(&mut self, size: Size)
        requires
            old(self).wf(),
        ensures
            final(self).wf(),
            final(self).window() == size,
            final(self).lines() == old(self).lines(),
            final(self).location() == old(self).location(),
            final(self).path() == old(self).path(),
            final(self).modified() == old(self).modified(),
            final(self).searching() == old(self).searching(),
            final(self).query() == old(self).query(),
            final(self).search_start() == old(self).search_start(),
    {
        self.size = size;
        self.scroll_text_location_into_view();
        self.needs_redraw = true;
    }

    /// Marks the window as drawn.
    pub fn mark_drawn(&mut self)
        requires
            old(self).wf(),
        ensures
            final(self).wf(),
            final(self).window() == old(self).window(),
            final(self).lines() == old(self).lines(),
            final(self).location() == old(self).location(),
            final(self).scroll() == old(self).scroll(),
            final(self).path() == old(self).path(),
            final(self).modified() == old(self).modified(),
            final(self).searching() == old(self).searching(),
            final(self).query() == old(self).query(),
            final(self).search_start() == old(self).search_start(),
    {
        self.needs_redraw = false;
    }
}

impl UIComponent for View {
    closed spec fn redraw_requested(&self) -> bool {
        self.needs_redraw
    }

    open spec fn component_wf(&self) -> bool {
        self.wf()
    }

    fn set_needs_redraw(&mut self, value: bool) {
        self.needs_redraw = value;
    }

    fn needs_redraw(&self) -> (r: bool) {
        self.needs_redraw
    }

    fn set_size(&mut self, size: Size) {
        self.size = size;
        self.scroll_text_location_into_view();
    }
}

} // verus!
