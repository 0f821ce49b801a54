//! The document: an ordered list of lines, the file it belongs to, and
//! whether it differs from what was last loaded or saved.

use crate::annotated::AnnotatedString;
use crate::fileinfo::FileInfo;
use crate::highlighter::Highlighter;
use crate::line::{
    columns_until, cut_on_left, tags_kept, visible_text, delete_text, insert_text, search_backward_text, search_forward_text, split_head, split_tail,
    Line,
};
use crate::text::{blen, chars_of, string_push, string_push_str};
use crate::unicode::grapheme_clusters;
use vstd::prelude::*;

verus! {

/// A place in a document: a line and a grapheme within it.
#[derive(Clone, Copy, Debug, Default, PartialEq, Eq, Structural)]
pub struct Location {
    pub grapheme_idx: usize,
    pub line_idx: usize,
}

/// The number of graphemes of a line's text.
pub open spec fn grapheme_count_of(s: Seq<char>) -> nat {
    grapheme_clusters(s).len()
}

/// Which line the forward scan visits at step `t` from line `from` of `h`.
pub open spec fn forward_line(h: nat, from: nat, t: nat) -> nat {
    ((from + t) as int % (h as int)) as nat
}

/// Which line the backward scan visits at step `t` from line `from` of `h`:
/// `from` itself (or the last line, if `from` is past the end), then the
/// lines above it, wrapping from the first line to the last.
pub open spec fn backward_line(h: nat, from: nat, t: nat) -> nat {
    let skip: nat = if from + 1 <= h {
        (h - from - 1) as nat
    } else {
        0
    };
    (h - 1 - ((skip + t) as int % (h as int))) as nat
}

/// Stepping a position modulo `h` by one.
proof fn lemma_mod_step(a: int, h: int)
    requires
        a >= 0,
        h > 0,
    ensures
        (a + 1) % h == (if a % h + 1 == h {
            0
        } else {
            a % h + 1
        }),
{
    assert((a + 1) % h == (if a % h + 1 == h {
        0
    } else {
        a % h + 1
    })) by (nonlinear_arith)
        requires
            a >= 0,
            h > 0,
    {
        let q = a / h;
        let r = a % h;
        assert(a == q * h + r);
        assert(0 <= r < h);
        if r + 1 == h {
            assert(a + 1 == (q + 1) * h + 0);
        } else {
            assert(a + 1 == q * h + (r + 1));
        }
    }
}

/// The forward search from step `t` on: at most `h + 1` lines are visited,
/// the first from `from.grapheme_idx`, the others from their start.
pub open spec fn search_forward_from(
    lines: Seq<Seq<char>>,
    q: Seq<char>,
    from: Location,
    t: nat,
) -> Option<Location>
    decreases lines.len() + 1 - t,
{
    let h = lines.len();
    if h == 0 || t > h {
        None
    } else {
        let li = forward_line(h, from.line_idx as nat, t);
        let g = if t == 0 {
            from.grapheme_idx as int
        } else {
            0
        };
        match search_forward_text(lines[li as int], q, g) {
            Some(gi) => Some(Location { grapheme_idx: gi, line_idx: li as usize }),
            None => search_forward_from(lines, q, from, t + 1),
        }
    }
}

/// The backward search from step `t` on: at most `h + 1` lines are visited,
/// the first before `from.grapheme_idx`, the others before their end.
pub open spec fn search_backward_from(
    lines: Seq<Seq<char>>,
    q: Seq<char>,
    from: Location,
    t: nat,
) -> Option<Location>
    decreases lines.len() + 1 - t,
{
    let h = lines.len();
    if h == 0 || t > h {
        None
    } else {
        let li = backward_line(h, from.line_idx as nat, t);
        let g = if t == 0 {
            from.grapheme_idx as int
        } else {
            grapheme_count_of(lines[li as int]) as int
        };
        match search_backward_text(lines[li as int], q, g) {
            Some(gi) => Some(Location { grapheme_idx: gi, line_idx: li as usize }),
            None => search_backward_from(lines, q, from, t + 1),
        }
    }
}

/// The pieces of `s` between line feeds; there is always at least one.
pub open spec fn pieces(s: Seq<char>) -> Seq<Seq<char>>
    decreases s.len(),
{
    if s.len() == 0 {
        seq![Seq::empty()]
    } else if s.last() == '\n' {
        pieces(s.drop_last()).push(Seq::empty())
    } else {
        let p = pieces(s.drop_last());
        p.update(p.len() - 1, p.last().push(s.last()))
    }
}

/// `l` without a final carriage return.
pub open spec fn strip_cr(l: Seq<char>) -> Seq<char> {
    if l.len() > 0 && l.last() == '\r' {
        l.drop_last()
    } else {
        l
    }
}

/// The lines of a text: split at line feeds, a carriage return before a
/// line feed dropped, and no empty line after a final line feed.
pub open spec fn lines_of(s: Seq<char>) -> Seq<Seq<char>> {
    let p = pieces(s);
    let body = p.drop_last().map_values(|l: Seq<char>| strip_cr(l));
    if p.last().len() == 0 {
        body
    } else {
        body.push(p.last())
    }
}

/// The text of a document: each line followed by one line feed.
pub open spec fn joined_lines(ls: Seq<Seq<char>>) -> Seq<char>
    decreases ls.len(),
{
    if ls.len() == 0 {
        Seq::empty()
    } else {
        joined_lines(ls.drop_last()) + ls.last().push('\n')
    }
}

/// Why a document could not be saved.
#[derive(Clone, Copy, Debug, PartialEq, Eq, Structural)]
pub enum SaveError {
    /// The document belongs to no file.
    NoFileName,
}

/// The lines after inserting `c` at `at`.
pub open spec fn insert_char_lines(ls: Seq<Seq<char>>, c: char, at: Location) -> Seq<Seq<char>> {
    let li = at.line_idx as int;
    if li == ls.len() {
        ls.push(seq![c])
    } else if li < ls.len() {
        ls.update(li, insert_text(ls[li], c, at.grapheme_idx as int))
    } else {
        ls
    }
}

/// Whether deleting at `at` changes anything.
pub open spec fn delete_changes(ls: Seq<Seq<char>>, at: Location) -> bool {
    let li = at.line_idx as int;
    li < ls.len() && (at.grapheme_idx < grapheme_count_of(ls[li]) || li + 1 < ls.len())
}

/// The lines after deleting at `at`: at or past the end of a line that has
/// a successor, the two are joined; inside a line, the grapheme goes.
pub open spec fn delete_lines(ls: Seq<Seq<char>>, at: Location) -> Seq<Seq<char>> {
    let li = at.line_idx as int;
    if li < ls.len() && at.grapheme_idx >= grapheme_count_of(ls[li]) && li + 1 < ls.len() {
        ls.take(li).push(ls[li] + ls[li + 1]) + ls.skip(li + 2)
    } else if li < ls.len() && at.grapheme_idx < grapheme_count_of(ls[li]) {
        ls.update(li, delete_text(ls[li], at.grapheme_idx as int))
    } else {
        ls
    }
}

/// The lines after breaking the document at `at`.
pub open spec fn newline_lines(ls: Seq<Seq<char>>, at: Location) -> Seq<Seq<char>> {
    let li = at.line_idx as int;
    if li == ls.len() {
        ls.push(Seq::empty())
    } else if li < ls.len() {
        ls.take(li).push(split_head(ls[li], at.grapheme_idx as int)).push(
            split_tail(ls[li], at.grapheme_idx as int),
        ) + ls.skip(li + 1)
    } else {
        ls
    }
}

/// Deleting at or past the end of a line that has a successor joins the two
/// (one line fewer); deleting at or past the end of the last line changes
/// nothing.
pub proof fn lemma_delete_at_line_end(ls: Seq<Seq<char>>, at: Location)
    requires
        at.line_idx < ls.len(),
        at.grapheme_idx >= grapheme_count_of(ls[at.line_idx as int]),
    ensures
        at.line_idx + 1 < ls.len() ==> delete_lines(ls, at).len() == ls.len() - 1 && delete_lines(
            ls,
            at,
        )[at.line_idx as int] == ls[at.line_idx as int] + ls[at.line_idx + 1],
        at.line_idx + 1 == ls.len() ==> delete_lines(ls, at) == ls && !delete_changes(ls, at),
{
}

/// The lines of a document, its file and its modified flag.
#[derive(Debug)]
pub struct Buffer {
    lines: Vec<Line>,
    file_info: FileInfo,
    dirty: bool,
}

impl View for Buffer {
    type V = Seq<Seq<char>>;

    closed spec fn view(&self) -> Seq<Seq<char>> {
        self.lines@.map_values(|l: Line| l@)
    }
}

impl Buffer {
    /// Every line is well formed.
    pub closed spec fn wf(&self) -> bool {
        forall|i: int| 0 <= i < self.lines@.len() ==> #[trigger] self.lines@[i].wf()
    }

    /// Whether the document differs from its file.
    pub closed spec fn dirty(&self) -> bool {
        self.dirty
    }

    /// The path of the document's file, if any.
    pub closed spec fn path(&self) -> Option<Seq<char>> {
        self.file_info@
    }

    /// An empty document with no file.
    pub fn new() -> (r: Buffer)
        ensures
            r.wf(),
            r@.len() == 0,
            !r.dirty(),
            r.path() is None,
    {
        let r = Buffer { lines: Vec::new(), file_info: FileInfo::new(), dirty: false };
        assert(r@ =~= Seq::<Seq<char>>::empty());
        r
    }

    /// A document holding `lines`, unmodified, belonging to `file_name`.
    pub fn from_lines(file_name: &str, lines: Vec<Line>) -> (r: Buffer)
        requires
            forall|i: int| 0 <= i < lines@.len() ==> #[trigger] lines@[i].wf(),
        ensures
            r.wf(),
            r@ == lines@.map_values(|l: Line| l@),
            !r.dirty(),
            r.path() == Some(file_name@),
    {
        Buffer { lines, file_info: FileInfo::from(file_name), dirty: false }
    }

    /// Whether the document differs from its file.
    pub fn is_dirty(&self) -> (r: bool)
        ensures
            r == self.dirty(),
    {
        self.dirty
    }

    /// The file the document belongs to.
    pub fn get_file_info(&self) -> (r: &FileInfo)
        ensures
            r@ == self.path(),
    {
        &self.file_info
    }

    /// Line `idx`, if there is one.
    pub fn line(&self, idx: usize) -> (r: Option<&Line>)
        requires
            self.wf(),
        ensures
            idx < self@.len() ==> (r matches Some(l) && l@ == self@[idx as int] && l.wf()),
            idx >= self@.len() ==> r is None,
    {
        if idx < self.lines.len() {
            Some(&self.lines[idx])
        } else {
            None
        }
    }

    /// The number of lines.
    pub fn height(&self) -> (r: usize)
        ensures
            r == self@.len(),
    {
        self.lines.len()
    }

    /// Whether there are no lines.
    pub fn is_empty(&self) -> (r: bool)
        ensures
            r == (self@.len() == 0),
    {
        self.lines.len() == 0
    }

    /// Whether the document belongs to a file.
    pub fn is_file_loaded(&self) -> (r: bool)
        ensures
            r == self.path() is Some,
    {
        self.file_info.has_path()
    }

    /// The number of graphemes of line `idx`; zero if there is no such line.
    pub fn grapheme_count(&self, idx: usize) -> (r: usize)
        requires
            self.wf(),
        ensures
            r == (if idx < self@.len() {
                grapheme_count_of(self@[idx as int])
            } else {
                0
            }),
    {
        if idx < self.lines.len() {
            self.lines[idx].grapheme_count()
        } else {
            0
        }
    }

    /// Columns taken by the graphemes of line `idx` before `until`; zero if
    /// there is no such line.
    pub fn width_until(&self, idx: usize, until: usize) -> (r: usize)
        requires
            self.wf(),
        ensures
            r == (if idx < self@.len() {
                crate::line::saturated(
                    crate::line::columns_until(grapheme_clusters(self@[idx as int]), until as int),
                )
            } else {
                0
            }),
    {
        if idx < self.lines.len() {
            self.lines[idx].width_until(until)
        } else {
            0
        }
    }

    /// Works out the highlights of line `idx`, if there is one.
    pub fn highlight(&self, idx: usize, highlighter: &mut Highlighter)
        requires
            self.wf(),
            old(highlighter).wf(),
        ensures
            final(highlighter).wf(),
            final(highlighter).word() == old(highlighter).word(),
            final(highlighter).lexical() == old(highlighter).lexical(),
            final(highlighter).selected() == old(highlighter).selected(),
            final(highlighter).highlights() == (if idx < self@.len() {
                old(highlighter).highlights().insert(
                    idx,
                    crate::highlighter::line_annotations(
                        self@[idx as int],
                        idx,
                        old(highlighter).lexical(),
                        old(highlighter).word(),
                        old(highlighter).selected(),
                    ),
                )
            } else {
                old(highlighter).highlights()
            }),
    {
        if idx < self.lines.len() {
            highlighter.highlight(idx, &self.lines[idx]);
        }
    }

    /// Line `idx` as shown in the window of columns `range`, with the
    /// highlights worked out for it; none if there is no such line (or its
    /// columns cannot be counted).
    pub fn get_highlighted_substring(
        &self,
        idx: usize,
        range: std::ops::Range<usize>,
        highlighter: &Highlighter,
    ) -> (r: Option<AnnotatedString>)
        requires
            self.wf(),
            highlighter.wf(),
        ensures
            r matches Some(a) ==> idx < self@.len() && a.text() == visible_text(
                grapheme_clusters(self@[idx as int]),
                range.start as nat,
                range.end as nat,
            ),
            r matches Some(a) ==> (highlighter.highlights().contains_key(idx) && range.start
                < range.end ==> tags_kept(
                a.annotations(),
                highlighter.highlights()[idx],
                grapheme_clusters(self@[idx as int]),
                range.start as nat,
                range.end as nat,
                0,
                if cut_on_left(grapheme_clusters(self@[idx as int]), range.start as nat, range.end as nat) {
                    blen(seq!['⋯']) as int
                } else {
                    0
                },
            )),
            r matches Some(a) ==> (!highlighter.highlights().contains_key(idx) ==> a.annotations().len() == 0),
            r is None ==> idx >= self@.len() || columns_until(
                grapheme_clusters(self@[idx as int]),
                grapheme_clusters(self@[idx as int]).len() as int,
            ) > usize::MAX,
    {
        if idx >= self.lines.len() {
            return None;
        }
        let line = &self.lines[idx];
        if !line.width_fits() {
            return None;
        }
        Some(line.get_annotated_visible_substr(range, highlighter.get_annotations(idx)))
    }

    /// Inserts `c` at `at`: on a new last line if `at` is just past the last
    /// line, else into line `at.line_idx`; nothing happens further down.
    pub fn insert_char(&mut self, c: char, at: Location)
        requires
            old(self).wf(),
        ensures
            final(self).wf(),
            final(self).path() == old(self).path(),
            final(self)@ == insert_char_lines(old(self)@, c, at),
            final(self).dirty() == (old(self).dirty() || at.line_idx <= old(self)@.len()),
    {
        if at.line_idx == self.lines.len() {
            let mut s = String::new();
            string_push(&mut s, c);
            let line = Line::from(s.as_str());
            self.lines.push(line);
            self.dirty = true;
            assert(self@ =~= old(self)@.push(seq![c]));
        } else if at.line_idx < self.lines.len() {
            let mut line = self.lines.remove(at.line_idx);
            line.insert_char(c, at.grapheme_idx);
            self.lines.insert(at.line_idx, line);
            self.dirty = true;
            assert(self@ =~= old(self)@.update(
                at.line_idx as int,
                insert_text(old(self)@[at.line_idx as int], c, at.grapheme_idx as int),
            ));
        }
    }

    /// Deletes at `at`: at or past the end of a line that has a successor,
    /// the successor is joined onto it; inside a line, the grapheme is
    /// removed; otherwise nothing happens.
    pub fn delete(&mut self, at: Location)
        requires
            old(self).wf(),
        ensures
            final(self).wf(),
            final(self).path() == old(self).path(),
            final(self)@ == delete_lines(old(self)@, at),
            final(self).dirty() == (old(self).dirty() || delete_changes(old(self)@, at)),
    {
        if at.line_idx >= self.lines.len() {
            return;
        }
        let count = self.lines[at.line_idx].grapheme_count();
        if at.grapheme_idx >= count && self.lines.len() > at.line_idx + 1 {
            let next = self.lines.remove(at.line_idx + 1);
            let mut line = self.lines.remove(at.line_idx);
            line.append(&next);
            self.lines.insert(at.line_idx, line);
            self.dirty = true;
            let ghost ls = old(self)@;
            let ghost li = at.line_idx as int;
            assert(self@ =~= ls.take(li).push(ls[li] + ls[li + 1]) + ls.skip(li + 2));
        } else if at.grapheme_idx < count {
            let mut line = self.lines.remove(at.line_idx);
            line.delete(at.grapheme_idx);
            self.lines.insert(at.line_idx, line);
            self.dirty = true;
            assert(self@ =~= old(self)@.update(
                at.line_idx as int,
                delete_text(old(self)@[at.line_idx as int], at.grapheme_idx as int),
            ));
        }
    }

    /// Breaks the document at `at`: an empty last line is added if `at` is
    /// just past the last line, else line `at.line_idx` is split before
    /// grapheme `at.grapheme_idx` and its tail becomes the next line.
    pub fn insert_newline(&mut self, at: Location)
        requires
            old(self).wf(),
        ensures
            final(self).wf(),
            final(self).path() == old(self).path(),
            final(self)@ == newline_lines(old(self)@, at),
            final(self).dirty() == (old(self).dirty() || at.line_idx <= old(self)@.len()),
    {
        if at.line_idx == self.lines.len() {
            proof {
                reveal_strlit("");
            }
            let empty = Line::from("");
            assert(empty@ =~= Seq::<char>::empty());
            self.lines.push(empty);
            self.dirty = true;
            assert(self@ =~= old(self)@.push(Seq::empty()));
        } else if at.line_idx < self.lines.len() {
            let mut line = self.lines.remove(at.line_idx);
            let tail = line.split(at.grapheme_idx);
            self.lines.insert(at.line_idx, line);
            self.lines.insert(at.line_idx + 1, tail);
            self.dirty = true;
            let ghost ls = old(self)@;
            let ghost li = at.line_idx as int;
            assert(self@ =~= ls.take(li).push(split_head(ls[li], at.grapheme_idx as int)).push(
                split_tail(ls[li], at.grapheme_idx as int),
            ) + ls.skip(li + 1));
        }
    }
}

impl Buffer {
    /// The first match of `query` scanning forward from `from`: the rest of
    /// line `from.line_idx` from grapheme `from.grapheme_idx`, then the
    /// following lines from their start, wrapping from the last line to the
    /// first, until `height() + 1` lines have been visited. None for an empty
    /// query.
    pub fn search_forward(&self, query: &str, from: Location) -> (r: Option<Location>)
        requires
            self.wf(),
        ensures
            r == (if query@.len() == 0 {
                None
            } else {
                search_forward_from(self@, query@, from, 0)
            }),
    {
        if query.is_empty() {
            return None;
        }
        let h = self.lines.len();
        if h == 0 {
            return None;
        }
        let ghost ls = self@;
        let mut li = from.line_idx % h;
        let mut t: usize = 0;
        loop
            invariant
                self.wf(),
                ls == self@,
                h == ls.len(),
                h > 0,
                t <= h,
                li == forward_line(h as nat, from.line_idx as nat, t as nat),
                search_forward_from(ls, query@, from, 0) == search_forward_from(ls, query@, from, t as nat),
            decreases h - t,
        {
            let g = if t == 0 {
                from.grapheme_idx
            } else {
                0
            };
            assert(self.lines@[li as int]@ == ls[li as int]);
            match self.lines[li].search_forward(query, g) {
                Some(gi) => {
                    return Some(Location { grapheme_idx: gi, line_idx: li });
                },
                None => {},
            }
            proof {
                assert(search_forward_from(ls, query@, from, t as nat) == search_forward_from(
                    ls,
                    query@,
                    from,
                    (t + 1) as nat,
                ));
            }
            if t == h {
                return None;
            }
            proof {
                lemma_mod_step(from.line_idx + t, h as int);
            }
            li = if li + 1 == h {
                0
            } else {
                li + 1
            };
            t = t + 1;
        }
    }

    /// The last match of `query` scanning backward from `from`: line
    /// `from.line_idx` before grapheme `from.grapheme_idx` (the last line, if
    /// `from` is past the end), then the lines above it before their end,
    /// wrapping from the first line to the last, until `height() + 1` lines
    /// have been visited. None for an empty query.
    pub fn search_backward(&self, query: &str, from: Location) -> (r: Option<Location>)
        requires
            self.wf(),
        ensures
            r == (if query@.len() == 0 {
                None
            } else {
                search_backward_from(self@, query@, from, 0)
            }),
    {
        if query.is_empty() {
            return None;
        }
        let h = self.lines.len();
        if h == 0 {
            return None;
        }
        let ghost ls = self@;
        let ghost skip: int = if from.line_idx + 1 <= h {
            h - from.line_idx - 1
        } else {
            0
        };
        let mut li = if from.line_idx < h {
            from.line_idx
        } else {
            h - 1
        };
        assert(skip % (h as int) == skip) by (nonlinear_arith)
            requires
                0 <= skip < h,
        ;
        let mut t: usize = 0;
        loop
            invariant
                self.wf(),
                ls == self@,
                h == ls.len(),
                h > 0,
                t <= h,
                skip == (if from.line_idx + 1 <= h {
                    h - from.line_idx - 1
                } else {
                    0
                }),
                li == backward_line(h as nat, from.line_idx as nat, t as nat),
                search_backward_from(ls, query@, from, 0) == search_backward_from(ls, query@, from, t as nat),
            decreases h - t,
        {
            assert(self.lines@[li as int]@ == ls[li as int]);
            let g = if t == 0 {
                from.grapheme_idx
            } else {
                self.lines[li].grapheme_count()
            };
            match self.lines[li].search_backward(query, g) {
                Some(gi) => {
                    return Some(Location { grapheme_idx: gi, line_idx: li });
                },
                None => {},
            }
            proof {
                let g = if t == 0 {
                    from.grapheme_idx as int
                } else {
                    grapheme_count_of(ls[li as int]) as int
                };
                assert(search_backward_text(ls[li as int], query@, g) is None);
                assert(search_backward_from(ls, query@, from, t as nat) == search_backward_from(
                    ls,
                    query@,
                    from,
                    (t + 1) as nat,
                ));
            }
            if t == h {
                return None;
            }
            proof {
                lemma_mod_step(skip + t, h as int);
            }
            li = if li == 0 {
                h - 1
            } else {
                li - 1
            };
            t = t + 1;
        }
    }
}

/// Adding characters other than line feeds extends the last piece.
proof fn lemma_pieces_extend(x: Seq<char>, l: Seq<char>)
    requires
        !l.contains('\n'),
    ensures
        pieces(x + l) == pieces(x).update(pieces(x).len() - 1, pieces(x).last() + l),
        pieces(x).len() > 0,
    decreases l.len(),
{
    lemma_pieces_nonempty(x);
    if l.len() == 0 {
        assert(x + l =~= x);
        assert(pieces(x).update(pieces(x).len() - 1, pieces(x).last() + l) =~= pieces(x));
    } else {
        let l2 = l.drop_last();
        assert(!l2.contains('\n')) by {
            if l2.contains('\n') {
                let i = choose|i: int| 0 <= i < l2.len() && l2[i] == '\n';
                assert(l[i] == '\n');
            }
        }
        assert(l[l.len() - 1] != '\n') by {
            if l[l.len() - 1] == '\n' {
                assert(l.contains('\n'));
            }
        }
        lemma_pieces_extend(x, l2);
        assert((x + l).drop_last() =~= x + l2);
        assert((x + l).last() == l.last());
        lemma_pieces_nonempty(x + l2);
        let p = pieces(x + l2);
        assert(l.last() == l[l.len() - 1]);
        assert((x + l).last() != '\n');
        assert(pieces(x + l) == p.update(p.len() - 1, p.last().push(l.last())));
        assert(p.last() == pieces(x).last() + l2);
        assert((pieces(x).last() + l2).push(l.last()) =~= pieces(x).last() + l);
        assert(pieces(x + l) =~= pieces(x).update(pieces(x).len() - 1, pieces(x).last() + l));
    }
}

/// There is always a piece.
proof fn lemma_pieces_nonempty(x: Seq<char>)
    ensures
        pieces(x).len() > 0,
    decreases x.len(),
{
    if x.len() > 0 {
        lemma_pieces_nonempty(x.drop_last());
    }
}

/// The pieces of a saved document are its lines and a final empty piece.
proof fn lemma_pieces_joined(ls: Seq<Seq<char>>)
    requires
        forall|i: int| 0 <= i < ls.len() ==> !(#[trigger] ls[i]).contains('\n'),
    ensures
        pieces(joined_lines(ls)) == ls.push(Seq::empty()),
    decreases ls.len(),
{
    if ls.len() == 0 {
        assert(pieces(joined_lines(ls)) =~= ls.push(Seq::empty()));
    } else {
        let rest = ls.drop_last();
        let l = ls.last();
        assert(forall|i: int| 0 <= i < rest.len() ==> rest[i] == ls[i]);
        lemma_pieces_joined(rest);
        assert(!l.contains('\n')) by {
            assert(ls[ls.len() - 1] == l);
        }
        lemma_pieces_extend(joined_lines(rest), l);
        let x = joined_lines(rest) + l;
        assert(joined_lines(ls) =~= x.push('\n'));
        assert(x.push('\n').drop_last() =~= x);
        assert(pieces(joined_lines(rest)).last() + l =~= l);
        assert(pieces(joined_lines(ls)) =~= ls.push(Seq::empty()));
    }
}

/// Saving a document and loading the saved text gives back its lines, when
/// no line holds a line feed or ends in a carriage return.
pub proof fn lemma_save_load_round_trip(ls: Seq<Seq<char>>)
    requires
        forall|i: int| 0 <= i < ls.len() ==> !(#[trigger] ls[i]).contains('\n'),
        forall|i: int|
            0 <= i < ls.len() ==> !(#[trigger] ls[i].len() > 0 && ls[i].last() == '\r'),
    ensures
        lines_of(joined_lines(ls)) == ls,
{
    lemma_pieces_joined(ls);
    let p = ls.push(Seq::<char>::empty());
    assert(p.drop_last() =~= ls);
    assert(ls.map_values(|l: Seq<char>| strip_cr(l)) =~= ls) by {
        assert forall|i: int| 0 <= i < ls.len() implies strip_cr(ls[i]) == ls[i] by {
            assert(!(ls[i].len() > 0 && ls[i].last() == '\r'));
        }
    }
}

impl Buffer {
    /// `cs[..n]` as a string.
    fn string_of(cs: &Vec<char>, n: usize) -> (r: String)
        requires
            n <= cs@.len(),
        ensures
            r@ == cs@.take(n as int),
    {
        let mut r = String::new();
        let mut i: usize = 0;
        while i < n
            invariant
                n <= cs@.len(),
                i <= n,
                r@ == cs@.take(i as int),
            decreases n - i,
        {
            string_push(&mut r, cs[i]);
            i = i + 1;
            assert(r@ =~= cs@.take(i as int));
        }
        r
    }

    /// A line holding `cur` without a final carriage return.
    fn finish_line(cur: &Vec<char>) -> (r: Line)
        ensures
            r.wf(),
            r@ == strip_cr(cur@),
    {
        let n = cur.len();
        let s = if n > 0 && cur[n - 1] == '\r' {
            Self::string_of(cur, n - 1)
        } else {
            Self::string_of(cur, n)
        };
        assert(cur@.take(n as int) =~= cur@);
        Line::from(s.as_str())
    }

    /// The document read from `file_name`, whose text is `contents`: one
    /// line per line of the text, unmodified.
    pub fn load(file_name: &str, contents: &str) -> (r: Buffer)
        ensures
            r.wf(),
            r@ == lines_of(contents@),
            !r.dirty(),
            r.path() == Some(file_name@),
    {
        let cs = chars_of(contents);
        let mut lines: Vec<Line> = Vec::new();
        let mut cur: Vec<char> = Vec::new();
        let ghost mut raw: Seq<Seq<char>> = Seq::empty();
        let mut i: usize = 0;
        while i < cs.len()
            invariant
                cs@ == contents@,
                i <= cs@.len(),
                pieces(cs@.take(i as int)) == raw.push(cur@),
                lines@.len() == raw.len(),
                forall|k: int| 0 <= k < lines@.len() ==> #[trigger] lines@[k].wf(),
                forall|k: int| 0 <= k < lines@.len() ==> #[trigger] lines@[k]@ == strip_cr(raw[k]),
            decreases cs.len() - i,
        {
            let c = cs[i];
            assert(cs@.take(i as int + 1).drop_last() =~= cs@.take(i as int));
            if c == '\n' {
                let line = Self::finish_line(&cur);
                lines.push(line);
                proof {
                    raw = raw.push(cur@);
                }
                cur = Vec::new();
                assert(pieces(cs@.take(i as int + 1)) =~= raw.push(cur@));
            } else {
                cur.push(c);
                assert(pieces(cs@.take(i as int + 1)) =~= raw.push(cur@));
            }
            i = i + 1;
        }
        assert(cs@.take(i as int) =~= contents@);
        let ghost p = raw.push(cur@);
        assert(p.drop_last() =~= raw);
        if cur.len() > 0 {
            let n = cur.len();
            let s = Self::string_of(&cur, n);
            assert(cur@.take(n as int) =~= cur@);
            lines.push(Line::from(s.as_str()));
        }
        let r = Buffer::from_lines(file_name, lines);
        assert(r@ =~= lines_of(contents@));
        r
    }

    /// The text to write to the document's file: each line followed by one
    /// line feed.
    pub fn contents(&self) -> (r: String)
        requires
            self.wf(),
        ensures
            r@ == joined_lines(self@),
    {
        let mut r = String::new();
        let mut i: usize = 0;
        while i < self.lines.len()
            invariant
                i <= self.lines@.len(),
                r@ == joined_lines(self@.take(i as int)),
            decreases self.lines.len() - i,
        {
            assert(self@.take(i as int + 1).drop_last() =~= self@.take(i as int));
            string_push_str(&mut r, self.lines[i].as_str());
            string_push(&mut r, '\n');
            i = i + 1;
            assert(r@ =~= joined_lines(self@.take(i as int)));
        }
        assert(self@.take(i as int) =~= self@);
        r
    }

    /// Records that the document was written to `file_name`: it now belongs
    /// to that file and is no longer modified.
    pub fn save_as(&mut self, file_name: &str)
        ensures
            final(self)@ == old(self)@,
            final(self).wf() == old(self).wf(),
            final(self).path() == Some(file_name@),
            !final(self).dirty(),
    {
        self.file_info = FileInfo::from(file_name);
        self.dirty = false;
    }

    /// Records that the document was written to its own file; fails, with
    /// nothing changed, if it belongs to no file.
    pub fn save(&mut self) -> (r: Result<(), SaveError>)
        ensures
            final(self)@ == old(self)@,
            final(self).wf() == old(self).wf(),
            final(self).path() == old(self).path(),
            old(self).path() is None ==> r == Err::<(), SaveError>(SaveError::NoFileName)
                && final(self).dirty() == old(self).dirty(),
            old(self).path() is Some ==> r is Ok && !final(self).dirty(),
    {
        if !self.file_info.has_path() {
            return Err(SaveError::NoFileName);
        }
        self.dirty = false;
        Ok(())
    }
}

} // verus!
