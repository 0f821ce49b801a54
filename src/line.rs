//! One line of text, decomposed into grapheme fragments that know their
//! byte offset, their display width and how they are shown.

use crate::annotated::{bytes_of, tag_at, AnnotatedString, Annotation};
use crate::text::{
    at_boundary, blen, byte_len, chars_of, joined, lemma_blen_concat, lemma_encode_concat,
    lemma_encode_injective, lemma_joined_concat, lemma_joined_take, lemma_joined_take_next,
    lemma_prefix_at_boundary, string_insert, string_push, string_push_str, string_replace_range,
    string_split_off, to_owned_string,
};
use crate::unicode::{
    columns_of, columns_with, display_width, grapheme_clusters, replacement_for, replacement_of,
    replacement_with, split_graphemes, str_width,
};
use vstd::prelude::*;

verus! {

/// The columns a grapheme takes on screen.
#[derive(Clone, Copy, Debug, PartialEq, Eq, Structural)]
pub enum GraphemeWidth {
    Half,
    Full,
}

impl GraphemeWidth {
    pub open spec fn spec_columns(self) -> nat {
        match self {
            GraphemeWidth::Half => 1,
            GraphemeWidth::Full => 2,
        }
    }

    /// One column for a half-width grapheme, two for a full-width one.
    pub fn columns(self) -> (r: usize)
        ensures
            r == self.spec_columns(),
    {
        match self {
            GraphemeWidth::Half => 1,
            GraphemeWidth::Full => 2,
        }
    }

    /// `other` plus this width, saturating at the largest `usize`.
    pub fn saturating_add(self, other: usize) -> (r: usize)
        ensures
            r == (if other + self.spec_columns() > usize::MAX {
                usize::MAX as int
            } else {
                other + self.spec_columns()
            }),
    {
        other.saturating_add(self.columns())
    }
}

/// The width class of a grapheme.
pub open spec fn width_class(g: Seq<char>) -> GraphemeWidth {
    width_class_with(g, display_width(g))
}

/// The width class of a grapheme that takes `width` columns.
pub open spec fn width_class_with(g: Seq<char>, width: usize) -> GraphemeWidth {
    if columns_with(g, width) == 2 {
        GraphemeWidth::Full
    } else {
        GraphemeWidth::Half
    }
}

/// The texts of a list of strings.
pub open spec fn texts_of(v: Seq<String>) -> Seq<Seq<char>> {
    v.map_values(|x: String| x@)
}

/// One grapheme of a line, with where it starts and how it is shown.
#[derive(Clone, Debug)]
pub struct TextFragment {
    pub grapheme: String,
    pub rendered_width: GraphemeWidth,
    pub replacement: Option<char>,
    pub start: usize,
}

/// `f` describes grapheme `g` starting at byte `start`.
pub open spec fn fragment_of(f: TextFragment, g: Seq<char>, start: nat) -> bool {
    &&& f.grapheme@ == g
    &&& f.start == start
    &&& f.replacement == replacement_of(g)
    &&& f.rendered_width == width_class(g)
}

/// Byte offset of grapheme `i` in the text the graphemes spell.
pub open spec fn offset_of(gs: Seq<Seq<char>>, i: int) -> nat {
    blen(joined(gs.take(i)))
}

/// Character offset of grapheme `i` in the text the graphemes spell.
pub open spec fn char_offset_of(gs: Seq<Seq<char>>, i: int) -> int {
    joined(gs.take(i)).len() as int
}

/// Total columns of the first `n` graphemes.
pub open spec fn columns_until(gs: Seq<Seq<char>>, n: int) -> nat
    decreases n,
{
    if n <= 0 || gs.len() == 0 {
        0
    } else if n > gs.len() {
        columns_until(gs, gs.len() as int)
    } else {
        columns_until(gs, n - 1) + columns_of(gs[n - 1])
    }
}

/// `n` clamped to the `usize` range.
pub open spec fn saturated(n: nat) -> usize {
    if n > usize::MAX {
        usize::MAX
    } else {
        n as usize
    }
}

/// The fragments of text `s`: one per grapheme, in order.
pub open spec fn fragments_of(fs: Seq<TextFragment>, s: Seq<char>) -> bool {
    let gs = grapheme_clusters(s);
    &&& fs.len() == gs.len()
    &&& forall|i: int| 0 <= i < gs.len() ==> #[trigger] fragment_of(fs[i], gs[i], offset_of(gs, i))
}

/// The graphemes from `g` up to `m` spell `q`.
pub open spec fn spans(gs: Seq<Seq<char>>, q: Seq<char>, g: int, m: int) -> bool {
    0 <= g < m <= gs.len() && joined(gs.subrange(g, m)) == q
}

/// A run of graphemes starting at `g` spells `q` and ends by byte `end`.
pub open spec fn match_at(gs: Seq<Seq<char>>, q: Seq<char>, g: int, end: nat) -> bool {
    exists|m: int| spans(gs, q, g, m) && offset_of(gs, m) <= end
}

/// Where the run of graphemes spelling `q` from `g` ends.
pub open spec fn match_end(gs: Seq<Seq<char>>, q: Seq<char>, g: int, end: nat) -> int {
    choose|m: int| spans(gs, q, g, m) && offset_of(gs, m) <= end
}

/// The matches of `q` at grapheme `g` or later that end by byte `end`, as
/// (byte offset, grapheme index) pairs, scanning left to right and resuming
/// after each match.
pub open spec fn matches_from(gs: Seq<Seq<char>>, q: Seq<char>, g: int, end: nat) -> Seq<
    (usize, usize),
>
    decreases gs.len() - g,
{
    if g < 0 || g >= gs.len() || q.len() == 0 {
        Seq::empty()
    } else if match_at(gs, q, g, end) {
        seq![(offset_of(gs, g) as usize, g as usize)] + matches_from(
            gs,
            q,
            match_end(gs, q, g, end),
            end,
        )
    } else {
        matches_from(gs, q, g + 1, end)
    }
}

/// The first grapheme at or after index `i` that starts at byte `b` or later.
pub open spec fn first_from(gs: Seq<Seq<char>>, b: int, i: int) -> int
    decreases gs.len() - i,
{
    if i >= gs.len() {
        gs.len() as int
    } else if offset_of(gs, i) >= b {
        i
    } else {
        first_from(gs, b, i + 1)
    }
}

/// `s` with `c` inserted before grapheme `at`, or appended if `at` is past
/// the last grapheme.
pub open spec fn insert_text(s: Seq<char>, c: char, at: int) -> Seq<char> {
    let gs = grapheme_clusters(s);
    if at < gs.len() {
        s.take(char_offset_of(gs, at)).push(c) + s.skip(char_offset_of(gs, at))
    } else {
        s.push(c)
    }
}

/// `s` without grapheme `at`; unchanged if there is none.
pub open spec fn delete_text(s: Seq<char>, at: int) -> Seq<char> {
    let gs = grapheme_clusters(s);
    if 0 <= at < gs.len() {
        s.take(char_offset_of(gs, at)) + s.skip(char_offset_of(gs, at + 1))
    } else {
        s
    }
}

/// What stays of `s` when it is split before grapheme `at`.
pub open spec fn split_head(s: Seq<char>, at: int) -> Seq<char> {
    let gs = grapheme_clusters(s);
    if at < gs.len() {
        s.take(char_offset_of(gs, at))
    } else {
        s
    }
}

/// The tail cut off `s` when it is split before grapheme `at`.
pub open spec fn split_tail(s: Seq<char>, at: int) -> Seq<char> {
    let gs = grapheme_clusters(s);
    if at < gs.len() {
        s.skip(char_offset_of(gs, at))
    } else {
        Seq::empty()
    }
}

/// Where a forward search for `q` in `s` from grapheme `from` lands.
pub open spec fn search_forward_text(s: Seq<char>, q: Seq<char>, from: int) -> Option<usize> {
    let gs = grapheme_clusters(s);
    if from >= gs.len() {
        None
    } else {
        first_match(matches_from(gs, q, from, blen(s)))
    }
}

/// Where a backward search for `q` in `s` before grapheme `from` lands.
pub open spec fn search_backward_text(s: Seq<char>, q: Seq<char>, from: int) -> Option<usize> {
    let gs = grapheme_clusters(s);
    if from == 0 {
        None
    } else {
        last_match(
            matches_from(
                gs,
                q,
                0,
                if from >= gs.len() {
                    blen(s)
                } else {
                    offset_of(gs, from)
                },
            ),
        )
    }
}

/// A line of text (with no line break in it) and its grapheme fragments.
#[derive(Clone, Debug)]
pub struct Line {
    fragments: Vec<TextFragment>,
    string: String,
}

impl View for Line {
    type V = Seq<char>;

    closed spec fn view(&self) -> Seq<char> {
        self.string@
    }
}

impl Line {
    /// The fragments are those of the text, and the graphemes spell it.
    pub closed spec fn wf(&self) -> bool {
        let gs = grapheme_clusters(self.string@);
        &&& fragments_of(self.fragments@, self.string@)
        &&& joined(gs) == self.string@
        &&& forall|i: int| 0 <= i < gs.len() ==> #[trigger] gs[i].len() > 0
    }

    /// The graphemes of the line.
    pub open spec fn graphemes(&self) -> Seq<Seq<char>> {
        grapheme_clusters(self@)
    }

    /// Byte offset where grapheme `i` starts.
    pub open spec fn offset(&self, i: int) -> nat {
        offset_of(self.graphemes(), i)
    }

    /// Character offset where grapheme `i` starts.
    pub open spec fn char_offset(&self, i: int) -> int {
        char_offset_of(self.graphemes(), i)
    }

    /// The graphemes spell the line, and none is empty.
    pub proof fn lemma_graphemes(&self)
        requires
            self.wf(),
        ensures
            joined(self.graphemes()) == self@,
            forall|i: int|
                0 <= i < self.graphemes().len() ==> #[trigger] self.graphemes()[i].len() > 0,
    {
    }

    /// The fragments for graphemes `clusters`, which take `widths` columns
    /// each: fragment `i` holds cluster `i`, starts after the bytes of the
    /// clusters before it, and is shown and sized by its width.
    pub fn fragments_from(clusters: &Vec<String>, widths: &Vec<usize>) -> (r: Vec<TextFragment>)
        requires
            clusters@.len() == widths@.len(),
            blen(joined(texts_of(clusters@))) <= usize::MAX,
        ensures
            r@.len() == clusters@.len(),
            forall|i: int|
                0 <= i < r@.len() ==> (#[trigger] r@[i]).grapheme@ == clusters@[i]@ && r@[i].start
                    == offset_of(texts_of(clusters@), i) && r@[i].replacement == replacement_with(
                    clusters@[i]@,
                    widths@[i],
                ) && r@[i].rendered_width == width_class_with(clusters@[i]@, widths@[i]),
    {
        let ghost g = texts_of(clusters@);
        let mut r: Vec<TextFragment> = Vec::new();
        let mut start: usize = 0;
        let mut i: usize = 0;
        while i < clusters.len()
            invariant
                clusters@.len() == widths@.len(),
                g == texts_of(clusters@),
                blen(joined(g)) <= usize::MAX,
                i <= clusters@.len(),
                r@.len() == i,
                start == offset_of(g, i as int),
                forall|j: int|
                    0 <= j < i ==> (#[trigger] r@[j]).grapheme@ == clusters@[j]@ && r@[j].start
                        == offset_of(g, j) && r@[j].replacement == replacement_with(
                        clusters@[j]@,
                        widths@[j],
                    ) && r@[j].rendered_width == width_class_with(clusters@[j]@, widths@[j]),
            decreases clusters.len() - i,
        {
            let grapheme = clusters[i].clone();
            let width = widths[i];
            let glen = byte_len(grapheme.as_str());
            let replacement = replacement_for(grapheme.as_str(), width);
            let rendered_width = if replacement.is_none() && width >= 2 {
                GraphemeWidth::Full
            } else {
                GraphemeWidth::Half
            };
            proof {
                assert(g[i as int] == clusters@[i as int]@);
                lemma_joined_take_next(g, i as int);
                lemma_blen_concat(joined(g.take(i as int)), g[i as int]);
                lemma_joined_take(g, i as int + 1);
                lemma_blen_concat(joined(g.take(i as int + 1)), joined(g.skip(i as int + 1)));
            }
            r.push(TextFragment { grapheme, rendered_width, replacement, start });
            start = start + glen;
            i = i + 1;
        }
        r
    }

    /// Builds the fragments of `s`.
    fn str_to_fragments(s: &str) -> (r: Vec<TextFragment>)
        ensures
            fragments_of(r@, s@),
            joined(grapheme_clusters(s@)) == s@,
            forall|i: int|
                0 <= i < grapheme_clusters(s@).len() ==> #[trigger] grapheme_clusters(s@)[i].len()
                    > 0,
    {
        let total = byte_len(s);
        let gs = split_graphemes(s);
        let ghost g = grapheme_clusters(s@);
        assert(texts_of(gs@) =~= g);
        let mut widths: Vec<usize> = Vec::new();
        let mut i: usize = 0;
        while i < gs.len()
            invariant
                i <= gs@.len(),
                widths@.len() == i,
                forall|j: int| 0 <= j < i ==> #[trigger] widths@[j] == display_width(gs@[j]@),
            decreases gs.len() - i,
        {
            widths.push(str_width(gs[i].as_str()));
            i = i + 1;
        }
        let r = Self::fragments_from(&gs, &widths);
        proof {
            assert forall|j: int| 0 <= j < g.len() implies #[trigger] fragment_of(r@[j], g[j], offset_of(g, j)) by {
                assert(r@[j].grapheme@ == gs@[j]@);
            }
        }
        r
    }

    /// A line holding `s`.
    pub fn from(s: &str) -> (r: Line)
        ensures
            r@ == s@,
            r.wf(),
    {
        let fragments = Self::str_to_fragments(s);
        Line { fragments, string: to_owned_string(s) }
    }

    fn rebuild_fragments(&mut self)
        ensures
            final(self)@ == old(self)@,
            final(self).wf(),
    {
        let fragments = Self::str_to_fragments(self.string.as_str());
        self.fragments = fragments;
    }

    /// The text of the line.
    pub fn as_str(&self) -> (r: &str)
        ensures
            r@ == self@,
    {
        self.string.as_str()
    }

    /// The text of the line, copied.
    pub fn to_text(&self) -> (r: String)
        ensures
            r@ == self@,
    {
        self.string.clone()
    }

    /// The fragment of grapheme `i`.
    pub fn fragment(&self, i: usize) -> (r: &TextFragment)
        requires
            self.wf(),
            i < self.graphemes().len(),
        ensures
            fragment_of(*r, self.graphemes()[i as int], self.offset(i as int)),
    {
        let ghost gs = self.graphemes();
        assert(fragment_of(self.fragments@[i as int], gs[i as int], offset_of(gs, i as int)));
        &self.fragments[i]
    }

    /// The number of graphemes.
    pub fn grapheme_count(&self) -> (r: usize)
        requires
            self.wf(),
        ensures
            r == self.graphemes().len(),
    {
        self.fragments.len()
    }

    /// Columns taken by the graphemes before index `idx` (all of them if
    /// `idx` is past the end), saturating at the largest `usize`.
    pub fn width_until(&self, idx: usize) -> (r: usize)
        requires
            self.wf(),
        ensures
            r == saturated(columns_until(self.graphemes(), idx as int)),
    {
        let ghost gs = self.graphemes();
        let n = if idx < self.fragments.len() {
            idx
        } else {
            self.fragments.len()
        };
        let mut sum: usize = 0;
        let mut i: usize = 0;
        while i < n
            invariant
                n <= self.fragments@.len(),
                fragments_of(self.fragments@, self@),
                gs == self.graphemes(),
                i <= n,
                sum == saturated(columns_until(gs, i as int)),
            decreases n - i,
        {
            assert(fragment_of(self.fragments@[i as int], gs[i as int], offset_of(gs, i as int)));
            sum = self.fragments[i].rendered_width.saturating_add(sum);
            i = i + 1;
        }
        sum
    }

    /// Columns taken by the whole line, saturating at the largest `usize`.
    pub fn width(&self) -> (r: usize)
        requires
            self.wf(),
        ensures
            r == saturated(columns_until(self.graphemes(), self.graphemes().len() as int)),
    {
        self.width_until(self.grapheme_count())
    }
}

impl Line {
    /// Grapheme `at` of a well-formed line starts at character `char_offset(at)`
    /// and byte `offset(at)`, and both are boundaries of the text.
    proof fn lemma_offsets(&self, at: int)
        requires
            self.wf(),
            0 <= at <= self.graphemes().len(),
        ensures
            0 <= self.char_offset(at) <= self@.len(),
            self@.take(self.char_offset(at)) == joined(self.graphemes().take(at)),
            blen(self@.take(self.char_offset(at))) == self.offset(at),
            self.offset(at) <= blen(self@),
            at_boundary(self@, self.offset(at) as int),
            at < self.graphemes().len() ==> self.char_offset(at + 1) == self.char_offset(at)
                + self.graphemes()[at].len(),
            at < self.graphemes().len() ==> self.offset(at + 1) == self.offset(at) + blen(
                self.graphemes()[at],
            ),
    {
        let gs = self.graphemes();
        lemma_joined_take(gs, at);
        lemma_prefix_at_boundary(self@, self.char_offset(at));
        assert(self@ =~= self@.take(self.char_offset(at)) + self@.skip(self.char_offset(at)));
        lemma_blen_concat(self@.take(self.char_offset(at)), self@.skip(self.char_offset(at)));
        if at < gs.len() {
            lemma_joined_take_next(gs, at);
            lemma_blen_concat(joined(gs.take(at)), gs[at]);
        }
    }

    /// Inserts `c` before grapheme `at`, or at the end if `at` is past the
    /// last grapheme.
    pub fn insert_char(&mut self, c: char, at: usize)
        requires
            old(self).wf(),
        ensures
            final(self).wf(),
            final(self)@ == insert_text(old(self)@, c, at as int),
    {
        if at < self.fragments.len() {
            proof {
                self.lemma_offsets(at as int);
                let gs = self.graphemes();
                assert(fragment_of(self.fragments@[at as int], gs[at as int], offset_of(gs, at as int)));
            }
            let start = self.fragments[at].start;
            string_insert(&mut self.string, start, c);
        } else {
            string_push(&mut self.string, c);
        }
        self.rebuild_fragments();
    }

    /// Appends `c` at the end.
    pub fn append_char(&mut self, c: char)
        requires
            old(self).wf(),
        ensures
            final(self).wf(),
            final(self)@ == old(self)@.push(c),
    {
        let n = self.grapheme_count();
        self.insert_char(c, n);
    }

    /// Removes grapheme `at`; nothing happens if there is none.
    pub fn delete(&mut self, at: usize)
        requires
            old(self).wf(),
        ensures
            final(self).wf(),
            final(self)@ == delete_text(old(self)@, at as int),
    {
        if at < self.fragments.len() {
            proof {
                self.lemma_offsets(at as int);
                self.lemma_offsets(at as int + 1);
                let gs = self.graphemes();
                assert(fragment_of(self.fragments@[at as int], gs[at as int], offset_of(gs, at as int)));
            }
            let start = self.fragments[at].start;
            let glen = byte_len(self.fragments[at].grapheme.as_str());
            let total = byte_len(self.string.as_str());
            let end = start + glen;
            string_replace_range(&mut self.string, start, end, "");
            proof {
                assert(""@ =~= Seq::<char>::empty()) by {
                    reveal_strlit("");
                }
            }
            self.rebuild_fragments();
        }
    }

    /// Removes the last grapheme, if any.
    pub fn delete_last(&mut self)
        requires
            old(self).wf(),
        ensures
            final(self).wf(),
            final(self)@ == (if old(self).graphemes().len() > 0 {
                old(self)@.take(old(self).char_offset(old(self).graphemes().len() - 1))
            } else {
                old(self)@
            }),
    {
        let n = self.grapheme_count();
        proof {
            self.lemma_offsets(n as int);
            if n > 0 {
                self.lemma_offsets(n - 1);
            }
            assert(self.graphemes().take(n as int) =~= self.graphemes());
            self.lemma_graphemes();
        }
        self.delete(n.saturating_sub(1));
        proof {
            if n > 0 {
                assert(old(self)@.skip(old(self).char_offset(n as int)) =~= Seq::<char>::empty());
            }
        }
    }

    /// Appends the text of `other`.
    pub fn append(&mut self, other: &Line)
        requires
            old(self).wf(),
        ensures
            final(self).wf(),
            final(self)@ == old(self)@ + other@,
    {
        string_push_str(&mut self.string, other.string.as_str());
        self.rebuild_fragments();
    }

    /// Cuts the line before grapheme `at` and returns the tail; if there is
    /// no grapheme `at`, returns an empty line and keeps this one.
    pub fn split(&mut self, at: usize) -> (r: Line)
        requires
            old(self).wf(),
        ensures
            final(self).wf(),
            r.wf(),
            final(self)@ == split_head(old(self)@, at as int),
            r@ == split_tail(old(self)@, at as int),
    {
        if at < self.fragments.len() {
            proof {
                self.lemma_offsets(at as int);
                let gs = self.graphemes();
                assert(fragment_of(self.fragments@[at as int], gs[at as int], offset_of(gs, at as int)));
            }
            let start = self.fragments[at].start;
            let rest = string_split_off(&mut self.string, start);
            self.rebuild_fragments();
            Line::from(rest.as_str())
        } else {
            proof {
                reveal_strlit("");
            }
            Line::from("")
        }
    }
}

impl Line {
    /// Byte offset of grapheme `i`, or the line's length for `i` at the end.
    fn offset_exec(&self, i: usize) -> (r: usize)
        requires
            self.wf(),
            i <= self.graphemes().len(),
        ensures
            r == self.offset(i as int),
    {
        proof {
            self.lemma_offsets(i as int);
        }
        if i < self.fragments.len() {
            let gs = Ghost(self.graphemes());
            assert(fragment_of(self.fragments@[i as int], gs@[i as int], offset_of(gs@, i as int)));
            self.fragments[i].start
        } else {
            proof {
                assert(self.graphemes().take(i as int) =~= self.graphemes());
                self.lemma_graphemes();
                assert(self@.take(self@.len() as int) =~= self@);
            }
            byte_len(self.string.as_str())
        }
    }

    /// Where a run of graphemes starting at `g` that spells `q` ends, if one does.
    fn span_end(&self, q: &Vec<char>, g: usize) -> (r: Option<usize>)
        requires
            self.wf(),
            g < self.graphemes().len(),
            q@.len() > 0,
        ensures
            r matches Some(m) ==> spans(self.graphemes(), q@, g as int, m as int),
            r is None ==> forall|m: int| !spans(self.graphemes(), q@, g as int, m),
    {
        let ghost gs = self.graphemes();
        proof {
            self.lemma_graphemes();
            assert(gs.subrange(g as int, g as int) =~= Seq::<Seq<char>>::empty());
            assert(joined(Seq::<Seq<char>>::empty()) =~= q@.take(0));
        }
        let n = self.fragments.len();
        let mut pos: usize = 0;
        let mut m: usize = g;
        while pos < q.len()
            invariant
                self.wf(),
                gs == self.graphemes(),
                n == gs.len(),
                g <= m <= n,
                pos <= q@.len(),
                joined(gs.subrange(g as int, m as int)) == q@.take(pos as int),
                forall|i: int| 0 <= i < gs.len() ==> #[trigger] gs[i].len() > 0,
                forall|m2: int| g < m2 <= m && m2 < m ==> !spans(gs, q@, g as int, m2),
                pos < q@.len() ==> forall|m2: int| g < m2 <= m ==> !spans(gs, q@, g as int, m2),
            decreases q@.len() - pos,
        {
            if m >= n {
                proof {
                    assert forall|m2: int| !spans(gs, q@, g as int, m2) by {
                        if spans(gs, q@, g as int, m2) {
                            assert(m2 <= m);
                        }
                    }
                }
                return None;
            }
            proof {
                assert(fragment_of(self.fragments@[m as int], gs[m as int], offset_of(gs, m as int)));
            }
            let cs = chars_of(self.fragments[m].grapheme.as_str());
            if cs.len() > q.len() - pos {
                proof {
                    self.lemma_no_span_past(q@, g as int, m as int, pos as int);
                }
                return None;
            }
            let mut k: usize = 0;
            while k < cs.len()
                invariant
                    self.wf(),
                    gs == self.graphemes(),
                    g <= m < gs.len(),
                    pos < q@.len(),
                    joined(gs.subrange(g as int, m as int)) == q@.take(pos as int),
                    forall|m2: int| g < m2 <= m ==> !spans(gs, q@, g as int, m2),
                    cs@ == gs[m as int],
                    q@.len() <= usize::MAX,
                    pos + cs@.len() <= q@.len(),
                    k <= cs@.len(),
                    forall|j: int| 0 <= j < k ==> cs@[j] == q@[pos + j],
                decreases cs.len() - k,
            {
                let qi = pos + k;
                if cs[k] != q[qi] {
                    proof {
                        self.lemma_no_span_past(q@, g as int, m as int, pos as int);
                    }
                    return None;
                }
                k = k + 1;
            }
            proof {
                assert(gs.subrange(g as int, m + 1) =~= gs.subrange(g as int, m as int).push(gs[m as int]));
                assert(gs.subrange(g as int, m + 1).drop_last() =~= gs.subrange(g as int, m as int));
                assert(q@.take(pos + cs@.len()) =~= q@.take(pos as int) + cs@);
                assert forall|m2: int| g < m2 <= m + 1 && m2 < m + 1 implies !spans(gs, q@, g as int, m2) by {
                    if m2 == m {
                        assert(joined(gs.subrange(g as int, m2)) == q@.take(pos as int));
                        assert(q@.take(pos as int).len() < q@.len());
                    }
                }
            }
            pos = pos + cs.len();
            m = m + 1;
        }
        proof {
            assert(q@.take(pos as int) =~= q@);
        }
        Some(m)
    }

    /// With the graphemes `g..m` spelling the first `pos < |q|` characters of
    /// `q` and grapheme `m` not spelling the next ones, no run from `g` spells `q`.
    proof fn lemma_no_span_past(&self, q: Seq<char>, g: int, m: int, pos: int)
        requires
            self.wf(),
            0 <= g <= m < self.graphemes().len(),
            0 <= pos < q.len(),
            joined(self.graphemes().subrange(g, m)) == q.take(pos),
            forall|m2: int| g < m2 <= m ==> !spans(self.graphemes(), q, g, m2),
            pos + self.graphemes()[m].len() > q.len() || q.subrange(
                pos,
                pos + self.graphemes()[m].len(),
            ) != self.graphemes()[m],
        ensures
            forall|m2: int| !spans(self.graphemes(), q, g, m2),
    {
        let gs = self.graphemes();
        assert forall|m2: int| !spans(gs, q, g, m2) by {
            if spans(gs, q, g, m2) && m2 > m {
                assert(gs.subrange(g, m2) =~= gs.subrange(g, m) + (seq![gs[m]] + gs.subrange(m + 1, m2)));
                lemma_joined_concat(gs.subrange(g, m), seq![gs[m]] + gs.subrange(m + 1, m2));
                lemma_joined_concat(seq![gs[m]], gs.subrange(m + 1, m2));
                assert(seq![gs[m]].drop_last() =~= Seq::<Seq<char>>::empty());
                assert(joined(Seq::<Seq<char>>::empty()) =~= Seq::<char>::empty());
                assert(seq![gs[m]].last() == gs[m]);
                assert(joined(seq![gs[m]]) =~= gs[m]);
                let rest = joined(gs.subrange(m + 1, m2));
                assert(q =~= q.take(pos) + (gs[m] + rest));
                assert(q.subrange(pos, pos + gs[m].len()) =~= gs[m]);
            }
        }
    }
}

/// A non-empty run of non-empty pieces joins to a non-empty text.
proof fn lemma_joined_nonempty(gs: Seq<Seq<char>>)
    requires
        gs.len() > 0,
        gs.last().len() > 0,
    ensures
        joined(gs).len() > 0,
{
}

impl Line {
    /// At most one run of graphemes from `g` spells `q`.
    proof fn lemma_span_unique(&self, q: Seq<char>, g: int, m1: int, m2: int)
        requires
            self.wf(),
            spans(self.graphemes(), q, g, m1),
            spans(self.graphemes(), q, g, m2),
        ensures
            m1 == m2,
    {
        let gs = self.graphemes();
        if m1 != m2 {
            let (a, b) = if m1 < m2 {
                (m1, m2)
            } else {
                (m2, m1)
            };
            assert(gs.subrange(g, b) =~= gs.subrange(g, a) + gs.subrange(a, b));
            lemma_joined_concat(gs.subrange(g, a), gs.subrange(a, b));
            assert(gs.subrange(a, b).last() == gs[b - 1]);
            lemma_joined_nonempty(gs.subrange(a, b));
        }
    }

    /// The matches of `q` from grapheme `g0` on that end by byte `end`.
    fn matches_in(&self, q: &Vec<char>, g0: usize, end: usize) -> (r: Vec<(usize, usize)>)
        requires
            self.wf(),
            g0 <= self.graphemes().len(),
        ensures
            r@ == matches_from(self.graphemes(), q@, g0 as int, end as nat),
    {
        let ghost gs = self.graphemes();
        let mut r: Vec<(usize, usize)> = Vec::new();
        if q.len() == 0 {
            return r;
        }
        let n = self.fragments.len();
        let mut g: usize = g0;
        assert(r@ + matches_from(gs, q@, g as int, end as nat) =~= matches_from(gs, q@, g0 as int, end as nat));
        while g < n
            invariant
                self.wf(),
                gs == self.graphemes(),
                n == gs.len(),
                q@.len() > 0,
                g <= n,
                r@ + matches_from(gs, q@, g as int, end as nat) == matches_from(gs, q@, g0 as int, end as nat),
            decreases n - g,
        {
            let span = self.span_end(q, g);
            let mut next = g + 1;
            match span {
                Some(m) => {
                    let e = self.offset_exec(m);
                    if e <= end {
                        let b = self.offset_exec(g);
                        proof {
                            assert(match_at(gs, q@, g as int, end as nat));
                            let m2 = match_end(gs, q@, g as int, end as nat);
                            self.lemma_span_unique(q@, g as int, m as int, m2);
                        }
                        r.push((b, g));
                        next = m;
                    } else {
                        proof {
                            assert(!match_at(gs, q@, g as int, end as nat)) by {
                                if match_at(gs, q@, g as int, end as nat) {
                                    let m2 = match_end(gs, q@, g as int, end as nat);
                                    self.lemma_span_unique(q@, g as int, m as int, m2);
                                }
                            }
                        }
                    }
                },
                None => {},
            }
            proof {
                let ghost old_r = r@;
                assert(r@ + matches_from(gs, q@, next as int, end as nat) =~= matches_from(gs, q@, g0 as int, end as nat));
            }
            g = next;
        }
        assert(r@ + matches_from(gs, q@, g as int, end as nat) =~= r@);
        r
    }
}

/// Inserting a character and then deleting the grapheme at the same index
/// gives the line back, when the character forms a grapheme of its own
/// where it was put.
pub proof fn lemma_insert_then_delete(line: Line, c: char, at: int)
    requires
        line.wf(),
        0 <= at <= line.graphemes().len(),
        at < grapheme_clusters(insert_text(line@, c, at)).len(),
        grapheme_clusters(insert_text(line@, c, at))[at] == seq![c],
        char_offset_of(grapheme_clusters(insert_text(line@, c, at)), at) == line.char_offset(at),
    ensures
        delete_text(insert_text(line@, c, at), at) == line@,
{
    let s = line@;
    let t = insert_text(s, c, at);
    let k = line.char_offset(at);
    line.lemma_offsets(at);
    if at == line.graphemes().len() {
        line.lemma_graphemes();
        assert(line.graphemes().take(at) =~= line.graphemes());
        assert(t == s.push(c));
    }
    lemma_joined_take_next(grapheme_clusters(t), at);
    assert(t.take(k) =~= s.take(k));
    assert(t.skip(k + 1) =~= s.skip(k));
    assert(s.take(k) + s.skip(k) =~= s);
}

/// The first match in a list of matches, by grapheme index.
pub open spec fn first_match(ms: Seq<(usize, usize)>) -> Option<usize> {
    if ms.len() > 0 {
        Some(ms[0].1)
    } else {
        None
    }
}

/// The last match in a list of matches, by grapheme index.
pub open spec fn last_match(ms: Seq<(usize, usize)>) -> Option<usize> {
    if ms.len() > 0 {
        Some(ms.last().1)
    } else {
        None
    }
}

impl Line {
    /// The first grapheme that starts at byte `b` or later, scanning from `i`.
    fn first_from_exec(&self, b: usize) -> (r: usize)
        requires
            self.wf(),
        ensures
            r == first_from(self.graphemes(), b as int, 0),
            r <= self.graphemes().len(),
    {
        let ghost gs = self.graphemes();
        let n = self.fragments.len();
        let mut i: usize = 0;
        while i < n
            invariant
                self.wf(),
                gs == self.graphemes(),
                n == gs.len(),
                i <= n,
                first_from(gs, b as int, 0) == first_from(gs, b as int, i as int),
            decreases n - i,
        {
            let start = self.offset_exec(i);
            if start >= b {
                return i;
            }
            i = i + 1;
        }
        i
    }

    /// Every match of `query` inside the byte window `range` (clipped to the
    /// line), as (byte offset, grapheme index) pairs: a match is a run of
    /// whole graphemes spelling `query`; the scan goes left to right and
    /// resumes after each match.
    pub fn find_all(&self, query: &str, range: std::ops::Range<usize>) -> (r: Vec<(usize, usize)>)
        requires
            self.wf(),
        ensures
            ({
                let end = if range.end < blen(self@) {
                    range.end as nat
                } else {
                    blen(self@)
                };
                r@ == (if range.start > end {
                    Seq::empty()
                } else {
                    matches_from(
                        self.graphemes(),
                        query@,
                        first_from(self.graphemes(), range.start as int, 0),
                        end,
                    )
                })
            }),
    {
        let len = byte_len(self.string.as_str());
        let end = if range.end < len {
            range.end
        } else {
            len
        };
        if range.start > end {
            return Vec::new();
        }
        let g0 = self.first_from_exec(range.start);
        let q = chars_of(query);
        self.matches_in(&q, g0, end)
    }

    /// The grapheme index of the first match of `query` that starts at
    /// grapheme `from` or later; none for an empty query or `from` at or
    /// past the end.
    pub fn search_forward(&self, query: &str, from: usize) -> (r: Option<usize>)
        requires
            self.wf(),
        ensures
            r == search_forward_text(self@, query@, from as int),
    {
        let n = self.fragments.len();
        if from >= n {
            return None;
        }
        let len = byte_len(self.string.as_str());
        let q = chars_of(query);
        let ms = self.matches_in(&q, from, len);
        if ms.len() > 0 {
            Some(ms[0].1)
        } else {
            None
        }
    }

    /// The grapheme index of the last match of `query` that ends before
    /// grapheme `from` (or by the end of the line, for `from` at or past the
    /// end); none for an empty query or `from` zero.
    pub fn search_backward(&self, query: &str, from: usize) -> (r: Option<usize>)
        requires
            self.wf(),
        ensures
            r == search_backward_text(self@, query@, from as int),
    {
        if from == 0 {
            return None;
        }
        let n = self.fragments.len();
        let end = if from >= n {
            byte_len(self.string.as_str())
        } else {
            self.offset_exec(from)
        };
        let q = chars_of(query);
        proof {
            self.lemma_graphemes();
        }
        let ms = self.matches_in(&q, 0, end);
        if ms.len() > 0 {
            Some(ms[ms.len() - 1].1)
        } else {
            None
        }
    }

    /// The first grapheme that starts at byte `b` or later; none if `b` is
    /// past the end of the line or no grapheme starts there.
    pub fn byte_idx_to_grapheme_idx(&self, b: usize) -> (r: Option<usize>)
        requires
            self.wf(),
        ensures
            r == (if b > blen(self@) || first_from(self.graphemes(), b as int, 0)
                == self.graphemes().len() {
                None
            } else {
                Some(first_from(self.graphemes(), b as int, 0) as usize)
            }),
    {
        let len = byte_len(self.string.as_str());
        if b > len {
            return None;
        }
        let g = self.first_from_exec(b);
        if g == self.fragments.len() {
            None
        } else {
            Some(g)
        }
    }

    /// The byte offset where grapheme `g` starts; an index past the end
    /// counts as the end of the line.
    pub fn grapheme_idx_to_byte_idx(&self, g: usize) -> (r: usize)
        requires
            self.wf(),
        ensures
            r == self.offset(
                if g < self.graphemes().len() {
                    g as int
                } else {
                    self.graphemes().len() as int
                },
            ),
    {
        let n = self.fragments.len();
        if g < n {
            self.offset_exec(g)
        } else {
            self.offset_exec(n)
        }
    }
}

/// How a grapheme is shown: its replacement character, or itself.
pub open spec fn shown_as(g: Seq<char>) -> Seq<char> {
    match replacement_of(g) {
        Some(c) => seq![c],
        None => g,
    }
}

/// What grapheme `i` contributes to the window of columns `a..b`: itself as
/// shown if it lies inside, an ellipsis if it sticks out past the right
/// edge, nothing otherwise.
pub open spec fn piece(gs: Seq<Seq<char>>, i: int, a: nat, b: nat) -> Seq<char> {
    let start = columns_until(gs, i);
    let end = columns_until(gs, i + 1);
    if start >= a && end <= b {
        shown_as(gs[i])
    } else if start < b && end > b {
        seq!['⋯']
    } else {
        Seq::empty()
    }
}

/// The pieces of graphemes `i..` in the window `a..b`.
pub open spec fn visible_from(gs: Seq<Seq<char>>, i: int, a: nat, b: nat) -> Seq<char>
    decreases gs.len() - i,
{
    if i < 0 || i >= gs.len() {
        Seq::empty()
    } else {
        piece(gs, i, a, b) + visible_from(gs, i + 1, a, b)
    }
}

/// Some grapheme sticks out past the left edge of the window `a..b` and
/// ends inside it.
pub open spec fn cut_on_left(gs: Seq<Seq<char>>, a: nat, b: nat) -> bool {
    exists|i: int|
        0 <= i < gs.len() && columns_until(gs, i) < a && a < #[trigger] columns_until(gs, i + 1)
            && columns_until(gs, i + 1) <= b
}

/// The text of a line shown in the window of columns `a..b`: an ellipsis
/// where a grapheme is cut by the left edge, the graphemes inside as they
/// are shown, and an ellipsis where one is cut by the right edge.
pub open spec fn visible_text(gs: Seq<Seq<char>>, a: nat, b: nat) -> Seq<char> {
    if a >= b {
        Seq::empty()
    } else if cut_on_left(gs, a, b) {
        seq!['⋯'] + visible_from(gs, 0, a, b)
    } else {
        visible_from(gs, 0, a, b)
    }
}

/// Columns grow by at least one per grapheme.
proof fn lemma_columns_step(gs: Seq<Seq<char>>, i: int)
    requires
        0 <= i < gs.len(),
    ensures
        columns_until(gs, i + 1) == columns_until(gs, i) + columns_of(gs[i]),
        columns_of(gs[i]) >= 1,
{
}

/// Columns never shrink.
proof fn lemma_columns_mono(gs: Seq<Seq<char>>, i: int, j: int)
    requires
        0 <= i <= j <= gs.len(),
    ensures
        columns_until(gs, i) <= columns_until(gs, j),
        i < j ==> columns_until(gs, i) < columns_until(gs, j),
    decreases j - i,
{
    if i < j {
        lemma_columns_mono(gs, i, j - 1);
        lemma_columns_step(gs, j - 1);
    }
}

/// Nothing from grapheme `i` on shows when it starts at or past the right edge.
proof fn lemma_visible_from_right(gs: Seq<Seq<char>>, i: int, a: nat, b: nat)
    requires
        0 <= i,
        i >= gs.len() || columns_until(gs, i) >= b,
    ensures
        visible_from(gs, i, a, b) == Seq::<char>::empty(),
    decreases gs.len() - i,
{
    if i < gs.len() {
        lemma_columns_step(gs, i);
        lemma_visible_from_right(gs, i + 1, a, b);
        assert(piece(gs, i, a, b) == Seq::<char>::empty());
        assert(visible_from(gs, i, a, b) =~= Seq::<char>::empty());
    }
}

/// Graphemes that end by the right edge and start before the left edge
/// contribute nothing.
proof fn lemma_visible_from_left(gs: Seq<Seq<char>>, i: int, j: int, a: nat, b: nat)
    requires
        0 <= i <= j + 1,
        j < gs.len(),
        columns_until(gs, j) < a,
        columns_until(gs, j + 1) <= b,
    ensures
        visible_from(gs, i, a, b) == visible_from(gs, j + 1, a, b),
    decreases j + 1 - i,
{
    if i <= j {
        lemma_columns_mono(gs, i, j);
        lemma_columns_mono(gs, i + 1, j + 1);
        assert(piece(gs, i, a, b) == Seq::<char>::empty());
        lemma_visible_from_left(gs, i + 1, j, a, b);
        assert(visible_from(gs, i, a, b) =~= visible_from(gs, j + 1, a, b));
    }
}

/// The pieces of graphemes `i..k` in the window `a..b`.
pub open spec fn pieces_between(gs: Seq<Seq<char>>, i: int, k: int, a: nat, b: nat) -> Seq<char>
    decreases k - i,
{
    if i < 0 || i >= k || i >= gs.len() {
        Seq::empty()
    } else {
        piece(gs, i, a, b) + pieces_between(gs, i + 1, k, a, b)
    }
}

/// Grapheme `k` lies inside the window `a..b` and is shown as itself.
pub open spec fn shown_plain(gs: Seq<Seq<char>>, k: int, a: nat, b: nat) -> bool {
    &&& columns_until(gs, k) >= a
    &&& columns_until(gs, k + 1) <= b
    &&& replacement_of(gs[k]) is None
}

/// Each byte of each grapheme `k >= i` shown as itself in the window `a..b`
/// carries, in `anns`, the tag its original byte carried in `orig`; the
/// pieces from grapheme `i` on start at byte `base`.
pub open spec fn tags_kept(
    anns: Seq<Annotation>,
    orig: Seq<Annotation>,
    gs: Seq<Seq<char>>,
    a: nat,
    b: nat,
    i: int,
    base: int,
) -> bool {
    forall|k: int, off: int|
        #![trigger shown_plain(gs, k, a, b), tag_at(orig, offset_of(gs, k) + off)]
        i <= k < gs.len() && shown_plain(gs, k, a, b) && 0 <= off < blen(gs[k]) ==> tag_at(
            anns,
            base + blen(pieces_between(gs, i, k, a, b)) + off,
        ) == tag_at(orig, offset_of(gs, k) + off)
}

/// The bytes before `m` carry in `anns` the tags they carry in `orig`.
pub open spec fn prefix_kept(anns: Seq<Annotation>, orig: Seq<Annotation>, m: int) -> bool {
    forall|x: int| 0 <= x < m ==> #[trigger] tag_at(anns, x) == tag_at(orig, x)
}

/// The pieces from `i` on are those up to `k` followed by those from `k` on.
proof fn lemma_pieces_split(gs: Seq<Seq<char>>, i: int, k: int, a: nat, b: nat)
    requires
        0 <= i <= k <= gs.len(),
    ensures
        visible_from(gs, i, a, b) == pieces_between(gs, i, k, a, b) + visible_from(gs, k, a, b),
    decreases k - i,
{
    if i < k {
        lemma_pieces_split(gs, i + 1, k, a, b);
        assert(visible_from(gs, i, a, b) =~= pieces_between(gs, i, k, a, b) + visible_from(gs, k, a, b));
    } else {
        assert(pieces_between(gs, i, k, a, b) + visible_from(gs, k, a, b) =~= visible_from(gs, k, a, b));
    }
}

/// Bytes inside grapheme `k`, shown as itself, lie inside the pieces from `i` on.
proof fn lemma_shown_inside(gs: Seq<Seq<char>>, i: int, k: int, a: nat, b: nat, off: int)
    requires
        0 <= i <= k < gs.len(),
        shown_plain(gs, k, a, b),
        0 <= off < blen(gs[k]),
    ensures
        blen(pieces_between(gs, i, k, a, b)) + off < blen(visible_from(gs, i, a, b)),
{
    lemma_pieces_split(gs, i, k, a, b);
    assert(piece(gs, k, a, b) == gs[k]);
    lemma_blen_concat(pieces_between(gs, i, k, a, b), visible_from(gs, k, a, b));
    lemma_blen_concat(gs[k], visible_from(gs, k + 1, a, b));
}

/// An edit before byte `base` moves the kept tags of the pieces from `i` on
/// along with them.
proof fn lemma_tags_shift(
    old_anns: Seq<Annotation>,
    new_anns: Seq<Annotation>,
    orig: Seq<Annotation>,
    gs: Seq<Seq<char>>,
    a: nat,
    b: nat,
    i: int,
    base: int,
    st: usize,
    nl: nat,
    tl: nat,
)
    requires
        0 <= i <= gs.len(),
        st <= base <= usize::MAX,
        new_anns == crate::annotated::rebase_all(old_anns, st, base as usize, nl, tl),
        tags_kept(old_anns, orig, gs, a, b, i, base),
        tl <= usize::MAX,
        tl >= st + nl + blen(visible_from(gs, i, a, b)),
    ensures
        tags_kept(new_anns, orig, gs, a, b, i, st + nl),
{
    assert forall|k: int, off: int|
        #![trigger shown_plain(gs, k, a, b), tag_at(orig, offset_of(gs, k) + off)]
        i <= k < gs.len() && shown_plain(gs, k, a, b) && 0 <= off < blen(gs[k]) implies tag_at(
            new_anns,
            st + nl + blen(pieces_between(gs, i, k, a, b)) + off,
        ) == tag_at(orig, offset_of(gs, k) + off) by {
        lemma_shown_inside(gs, i, k, a, b, off);
        let p = base + blen(pieces_between(gs, i, k, a, b)) + off;
        crate::annotated::lemma_rebase_keeps_tags(old_anns, st, base as usize, nl, tl, p, p - (base - st) + nl);
    }
}

/// The bytes before `st` keep their tags through an edit starting at `st`.
proof fn lemma_prefix_after_edit(
    old_anns: Seq<Annotation>,
    new_anns: Seq<Annotation>,
    orig: Seq<Annotation>,
    m: int,
    st: usize,
    e: usize,
    nl: nat,
    tl: nat,
)
    requires
        prefix_kept(old_anns, orig, m),
        st <= m,
        st <= e,
        st <= tl <= usize::MAX,
        new_anns == crate::annotated::rebase_all(old_anns, st, e, nl, tl),
    ensures
        prefix_kept(new_anns, orig, st as int),
{
    assert forall|x: int| 0 <= x < st implies #[trigger] tag_at(new_anns, x) == tag_at(orig, x) by {
        crate::annotated::lemma_rebase_keeps_tags(old_anns, st, e, nl, tl, x, x);
        assert(tag_at(old_anns, x) == tag_at(orig, x));
    }
}

/// Taking grapheme `j` into the kept pieces: its own bytes (if it is shown as
/// itself) start at `base`, the later pieces after its piece.
proof fn lemma_tags_extend(
    anns: Seq<Annotation>,
    orig: Seq<Annotation>,
    gs: Seq<Seq<char>>,
    a: nat,
    b: nat,
    j: int,
    base: int,
)
    requires
        0 <= j < gs.len(),
        tags_kept(anns, orig, gs, a, b, j + 1, base + blen(piece(gs, j, a, b))),
        shown_plain(gs, j, a, b) ==> forall|off: int|
            0 <= off < blen(gs[j]) ==> #[trigger] tag_at(anns, base + off) == tag_at(
                orig,
                offset_of(gs, j) + off,
            ),
    ensures
        tags_kept(anns, orig, gs, a, b, j, base),
{
    assert forall|k: int, off: int|
        #![trigger shown_plain(gs, k, a, b), tag_at(orig, offset_of(gs, k) + off)]
        j <= k < gs.len() && shown_plain(gs, k, a, b) && 0 <= off < blen(gs[k]) implies tag_at(
            anns,
            base + blen(pieces_between(gs, j, k, a, b)) + off,
        ) == tag_at(orig, offset_of(gs, k) + off) by {
        if k == j {
            assert(pieces_between(gs, j, k, a, b) =~= Seq::<char>::empty());
            assert(tag_at(anns, base + off) == tag_at(orig, offset_of(gs, j) + off));
        } else {
            assert(pieces_between(gs, j, k, a, b) == piece(gs, j, a, b) + pieces_between(gs, j + 1, k, a, b));
            lemma_blen_concat(piece(gs, j, a, b), pieces_between(gs, j + 1, k, a, b));
        }
    }
}

/// Graphemes before `i` that start left of the window and end by its right
/// edge contribute nothing, so the kept pieces may as well start at the
/// first grapheme.
proof fn lemma_tags_from_start(
    anns: Seq<Annotation>,
    orig: Seq<Annotation>,
    gs: Seq<Seq<char>>,
    a: nat,
    b: nat,
    i: int,
    base: int,
)
    requires
        0 <= i <= gs.len(),
        tags_kept(anns, orig, gs, a, b, i, base),
        forall|k: int| 0 <= k < i ==> #[trigger] columns_until(gs, k) < a && columns_until(gs, k + 1) <= b,
    ensures
        tags_kept(anns, orig, gs, a, b, 0, base),
{
    assert forall|k: int, off: int|
        #![trigger shown_plain(gs, k, a, b), tag_at(orig, offset_of(gs, k) + off)]
        0 <= k < gs.len() && shown_plain(gs, k, a, b) && 0 <= off < blen(gs[k]) implies tag_at(
            anns,
            base + blen(pieces_between(gs, 0, k, a, b)) + off,
        ) == tag_at(orig, offset_of(gs, k) + off) by {
        if k < i {
            assert(columns_until(gs, k) < a);
        } else {
            lemma_pieces_skip_empty(gs, 0, i, k, a, b);
        }
    }
}

/// No grapheme from `j` on is shown when `j` starts at or past the right edge.
proof fn lemma_tags_none_shown(
    anns: Seq<Annotation>,
    orig: Seq<Annotation>,
    gs: Seq<Seq<char>>,
    a: nat,
    b: nat,
    j: int,
    base: int,
)
    requires
        0 <= j <= gs.len(),
        j == gs.len() || columns_until(gs, j) >= b,
    ensures
        tags_kept(anns, orig, gs, a, b, j, base),
{
    assert forall|k: int, off: int|
        #![trigger shown_plain(gs, k, a, b), tag_at(orig, offset_of(gs, k) + off)]
        j <= k < gs.len() && shown_plain(gs, k, a, b) && 0 <= off < blen(gs[k]) implies tag_at(
            anns,
            base + blen(pieces_between(gs, j, k, a, b)) + off,
        ) == tag_at(orig, offset_of(gs, k) + off) by {
        lemma_columns_mono(gs, j, k);
        lemma_columns_step(gs, k);
    }
}

/// Pieces of graphemes before `i` that are empty can be dropped.
proof fn lemma_pieces_skip_empty(gs: Seq<Seq<char>>, h: int, i: int, k: int, a: nat, b: nat)
    requires
        0 <= h <= i <= k <= gs.len(),
        forall|m: int| 0 <= m < i ==> #[trigger] columns_until(gs, m) < a && columns_until(gs, m + 1) <= b,
    ensures
        pieces_between(gs, h, k, a, b) == pieces_between(gs, i, k, a, b),
    decreases i - h,
{
    if h < i {
        assert(columns_until(gs, h) < a);
        assert(piece(gs, h, a, b) =~= Seq::<char>::empty());
        lemma_pieces_skip_empty(gs, h + 1, i, k, a, b);
        assert(pieces_between(gs, h, k, a, b) =~= pieces_between(gs, h + 1, k, a, b));
    }
}

impl Line {
    /// The line as shown in the window of columns `range`: graphemes inside
    /// it shown as they are displayed, an ellipsis where the window cuts a
    /// grapheme, and the given annotations moved along with the text.
    #[verifier::rlimit(100)]
    #[verifier::spinoff_prover]
    pub fn get_annotated_visible_substr(
        &self,
        range: std::ops::Range<usize>,
        annotations: Option<&Vec<Annotation>>,
    ) -> (r: AnnotatedString)
        requires
            self.wf(),
            columns_until(self.graphemes(), self.graphemes().len() as int) <= usize::MAX,
            annotations matches Some(v) ==> forall|k: int|
                0 <= k < v@.len() ==> #[trigger] v@[k].start <= v@[k].end,
        ensures
            r.text() == visible_text(self.graphemes(), range.start as nat, range.end as nat),
            annotations is None ==> r.annotations().len() == 0,
            range.start < range.end && annotations is Some ==> tags_kept(
                r.annotations(),
                annotations->0@,
                self.graphemes(),
                range.start as nat,
                range.end as nat,
                0,
                if cut_on_left(self.graphemes(), range.start as nat, range.end as nat) {
                    blen(seq!['⋯']) as int
                } else {
                    0
                },
            ),
    {
        let a = range.start;
        let b = range.end;
        if a >= b {
            return AnnotatedString::new();
        }
        let ghost gs = self.graphemes();
        let ghost s = self@;
        let n = self.fragments.len();
        let ghost orig: Seq<Annotation> = match annotations {
            Some(v) => v@,
            None => Seq::empty(),
        };
        let mut result = AnnotatedString::from(self.string.as_str());
        match annotations {
            Some(v) => {
                let mut k: usize = 0;
                while k < v.len()
                    invariant
                        k <= v@.len(),
                        result.text() == s,
                        result.annotations() == v@.take(k as int),
                        forall|j: int| 0 <= j < v@.len() ==> #[trigger] v@[j].start <= v@[j].end,
                    decreases v.len() - k,
                {
                    result.add_annotation(v[k].annotation_type, v[k].start, v[k].end);
                    k = k + 1;
                    assert(result.annotations() =~= v@.take(k as int));
                }
                assert(v@.take(k as int) =~= v@);
            },
            None => {
                assert(result.annotations() =~= orig);
            },
        }
        let len = byte_len(self.string.as_str());
        let mut fragment_start = self.width();
        proof {
            assert(gs.take(n as int) =~= gs);
            self.lemma_graphemes();
            assert(s.take(s.len() as int) =~= s);
            assert(s.skip(s.len() as int) =~= Seq::<char>::empty());
            self.lemma_offsets(n as int);
        }
        let mut i: usize = n;
        let mut done = false;
        let ghost mut cut = false;
        proof {
            lemma_tags_none_shown(result.annotations(), orig, gs, a as nat, b as nat, n as int, self.offset(n as int) as int);
        }
        while i > 0 && !done
            invariant
                self.wf(),
                gs == self.graphemes(),
                s == self@,
                n == gs.len(),
                len == blen(s),
                a < b,
                columns_until(gs, n as int) <= usize::MAX,
                i <= n,
                !done ==> fragment_start == columns_until(gs, i as int),
                !done ==> result.text() == s.take(self.char_offset(i as int)) + (if cut {
                    visible_from(gs, i as int, a as nat, b as nat)
                } else {
                    s.skip(self.char_offset(i as int))
                }),
                !done && cut ==> columns_until(gs, i as int) <= b,
                !done && !cut ==> i == n || columns_until(gs, i as int) > b,
                !done ==> forall|k: int|
                    i <= k < n && #[trigger] columns_until(gs, k + 1) <= b ==> columns_until(gs, k)
                        >= a,
                done ==> result.text() == visible_text(gs, a as nat, b as nat),
                !done ==> prefix_kept(result.annotations(), orig, self.offset(i as int) as int),
                !done ==> tags_kept(result.annotations(), orig, gs, a as nat, b as nat, i as int, self.offset(i as int) as int),
                done ==> tags_kept(result.annotations(), orig, gs, a as nat, b as nat, 0, if cut_on_left(gs, a as nat, b as nat) {
                    blen(seq!['⋯']) as int
                } else {
                    0
                }),
                orig.len() == 0 ==> result.annotations().len() == 0,
            decreases i,
        {
            let j = i - 1;
            proof {
                lemma_columns_step(gs, j as int);
                self.lemma_offsets(j as int);
                self.lemma_offsets(i as int);
                assert(fragment_of(self.fragments@[j as int], gs[j as int], offset_of(gs, j as int)));
                assert(self@.take(self.char_offset(i as int)) =~= self@.take(self.char_offset(j as int)) + gs[j as int]) by {
                    lemma_joined_take(gs, i as int);
                    lemma_joined_take_next(gs, j as int);
                }
            }
            let fragment_end = fragment_start;
            let w = self.fragments[j].rendered_width.columns();
            fragment_start = fragment_end - w;
            let fstart = self.fragments[j].start;
            let glen = byte_len(self.fragments[j].grapheme.as_str());
            let fend = fstart + glen;
            let ghost t = result.text();
            let ghost old_anns = result.annotations();
            let ghost pre = s.take(self.char_offset(j as int));
            let ghost g = gs[j as int];
            if fragment_start > b {
                proof {
                    if cut {
                        lemma_columns_mono(gs, j as int, i as int);
                    }
                    assert(s.take(self.char_offset(i as int)) + s.skip(self.char_offset(i as int)) =~= s);
                    assert(s.take(self.char_offset(j as int)) + s.skip(self.char_offset(j as int)) =~= s);
                    lemma_tags_none_shown(old_anns, orig, gs, a as nat, b as nat, j as int, self.offset(j as int) as int);
                }
                i = j;
            } else if fragment_start < b && fragment_end > b {
                proof {
                    assert(!cut);
                    assert(t == s) by {
                        assert(s.take(self.char_offset(i as int)) + s.skip(self.char_offset(i as int)) =~= s);
                    }
                    assert(s.take(s.len() as int) =~= s);
                    lemma_prefix_at_boundary(s, s.len() as int);
                }
                result.replace(fstart, len, "⋯");
                let tl = result.len();
                proof {
                    lemma_blen_concat(pre, "⋯"@);
                    lemma_prefix_after_edit(old_anns, result.annotations(), orig, self.offset(i as int) as int, fstart, len, blen("⋯"@), tl as nat);
                    lemma_tags_none_shown(result.annotations(), orig, gs, a as nat, b as nat, i as int, (self.offset(j as int) + blen(piece(gs, j as int, a as nat, b as nat))) as int);
                    lemma_tags_extend(result.annotations(), orig, gs, a as nat, b as nat, j as int, self.offset(j as int) as int);
                    if orig.len() == 0 {
                        assert(old_anns =~= Seq::<Annotation>::empty());
                        crate::annotated::lemma_rebase_none(fstart, len, blen("⋯"@), tl as nat);
                    }
                    lemma_visible_from_right(gs, i as int, a as nat, b as nat);
                    crate::text::lemma_encode_take(s, self.char_offset(j as int));
                    lemma_encode_concat(pre, "⋯"@);
                    assert(bytes_of(s).skip(len as int) =~= Seq::<u8>::empty());
                    assert(bytes_of(result.text()) =~= bytes_of(pre + "⋯"@));
                    lemma_encode_injective(result.text(), pre + "⋯"@);
                    reveal_strlit("⋯");
                    assert("⋯"@ =~= seq!['⋯']);
                    assert(visible_from(gs, j as int, a as nat, b as nat) =~= seq!['⋯']);
                    cut = true;
                }
                i = j;
            } else if fragment_start == b {
                proof {
                    assert(!cut);
                    assert(t == s) by {
                        assert(s.take(self.char_offset(i as int)) + s.skip(self.char_offset(i as int)) =~= s);
                    }
                }
                result.truncate_right_from(fstart);
                let tl = result.len();
                proof {
                    lemma_visible_from_right(gs, j as int, a as nat, b as nat);
                    lemma_prefix_after_edit(old_anns, result.annotations(), orig, self.offset(i as int) as int, fstart, len, 0, tl as nat);
                    lemma_tags_none_shown(result.annotations(), orig, gs, a as nat, b as nat, j as int, self.offset(j as int) as int);
                    if orig.len() == 0 {
                        assert(old_anns =~= Seq::<Annotation>::empty());
                        crate::annotated::lemma_rebase_none(fstart, len, 0, tl as nat);
                    }
                    crate::text::lemma_encode_take(s, self.char_offset(j as int));
                    lemma_encode_injective(result.text(), pre);
                    assert(pre + Seq::<char>::empty() =~= pre);
                    cut = true;
                }
                i = j;
            } else {
                let ghost tail = visible_from(gs, i as int, a as nat, b as nat);
                proof {
                    if !cut {
                        assert(i == n);
                        assert(s.skip(self.char_offset(n as int)) =~= Seq::<char>::empty());
                        lemma_visible_from_right(gs, n as int, a as nat, b as nat);
                    }
                    assert(t == pre + g + tail);
                    assert(t.take(self.char_offset(j as int)) =~= pre);
                    assert(t.take(self.char_offset(i as int)) =~= pre + g);
                    lemma_prefix_at_boundary(t, self.char_offset(j as int));
                    lemma_prefix_at_boundary(t, self.char_offset(i as int));
                    lemma_prefix_at_boundary(t, 0);
                    assert(t.take(0) =~= Seq::<char>::empty());
                    crate::text::lemma_encode_take(t, self.char_offset(i as int));
                    crate::text::lemma_encode_take(t, self.char_offset(j as int));
                    crate::text::lemma_encode_take(t, 0);
                    assert(t.skip(self.char_offset(i as int)) =~= tail);
                    assert(t.skip(self.char_offset(j as int)) =~= g + tail);
                    assert(t.skip(0) =~= t);
                    lemma_blen_concat(pre + g, tail);
                }
                if fragment_end <= a {
                    result.truncate_left_until(fend);
                    let tl = result.len();
                    proof {
                        lemma_encode_injective(result.text(), tail);
                        lemma_tags_shift(old_anns, result.annotations(), orig, gs, a as nat, b as nat, i as int, fend as int, 0, 0, tl as nat);
                        assert forall|k: int| 0 <= k < i implies #[trigger] columns_until(gs, k) < a && columns_until(gs, k + 1) <= b by {
                            lemma_columns_mono(gs, k + 1, i as int);
                            lemma_columns_step(gs, k);
                        }
                        lemma_tags_from_start(result.annotations(), orig, gs, a as nat, b as nat, i as int, 0);
                        if orig.len() == 0 {
                            assert(old_anns =~= Seq::<Annotation>::empty());
                            crate::annotated::lemma_rebase_none(0, fend, 0, tl as nat);
                        }
                        lemma_visible_from_left(gs, 0, j as int, a as nat, b as nat);
                        assert(!cut_on_left(gs, a as nat, b as nat)) by {
                            if cut_on_left(gs, a as nat, b as nat) {
                                let k = choose|k: int|
                                    0 <= k < gs.len() && columns_until(gs, k) < a && a < #[trigger] columns_until(gs, k + 1)
                                        && columns_until(gs, k + 1) <= b;
                                if k <= j {
                                    lemma_columns_mono(gs, k + 1, j + 1);
                                }
                            }
                        }
                    }
                    done = true;
                    i = 0;
                } else if fragment_start < a && fragment_end > a {
                    result.replace(0, fend, "⋯");
                    let tl = result.len();
                    proof {
                        reveal_strlit("⋯");
                        lemma_blen_concat("⋯"@, tail);
                        lemma_tags_shift(old_anns, result.annotations(), orig, gs, a as nat, b as nat, i as int, fend as int, 0, blen("⋯"@), tl as nat);
                        assert forall|k: int| 0 <= k < i implies #[trigger] columns_until(gs, k) < a && columns_until(gs, k + 1) <= b by {
                            lemma_columns_mono(gs, k, j as int);
                            lemma_columns_mono(gs, k + 1, i as int);
                        }
                        lemma_tags_from_start(result.annotations(), orig, gs, a as nat, b as nat, i as int, blen("⋯"@) as int);
                        if orig.len() == 0 {
                            assert(old_anns =~= Seq::<Annotation>::empty());
                            crate::annotated::lemma_rebase_none(0, fend, blen("⋯"@), tl as nat);
                        }
                        assert(bytes_of(t).take(0) =~= Seq::<u8>::empty());
                        lemma_encode_concat("⋯"@, tail);
                        assert(bytes_of(result.text()) =~= bytes_of("⋯"@ + tail));
                        lemma_encode_injective(result.text(), "⋯"@ + tail);
                        assert("⋯"@ =~= seq!['⋯']);
                        lemma_visible_from_left(gs, 0, j as int, a as nat, b as nat);
                        assert(cut_on_left(gs, a as nat, b as nat));
                    }
                    done = true;
                    i = 0;
                } else {
                    match self.fragments[j].replacement {
                        Some(rep) => {
                            let mut rs = String::new();
                            string_push(&mut rs, rep);
                            result.replace(fstart, fend, rs.as_str());
                            let tl = result.len();
                            proof {
                                assert(rs@ =~= seq![rep]);
                                lemma_blen_concat(pre, rs@);
                                lemma_blen_concat(pre + rs@, tail);
                                lemma_prefix_after_edit(old_anns, result.annotations(), orig, self.offset(i as int) as int, fstart, fend, blen(rs@), tl as nat);
                                lemma_tags_shift(old_anns, result.annotations(), orig, gs, a as nat, b as nat, i as int, fend as int, fstart, blen(rs@), tl as nat);
                                assert(piece(gs, j as int, a as nat, b as nat) == rs@);
                                lemma_tags_extend(result.annotations(), orig, gs, a as nat, b as nat, j as int, fstart as int);
                                if orig.len() == 0 {
                                    assert(old_anns =~= Seq::<Annotation>::empty());
                                    crate::annotated::lemma_rebase_none(fstart, fend, blen(rs@), tl as nat);
                                }
                                lemma_encode_concat(pre, rs@);
                                lemma_encode_concat(pre + rs@, tail);
                                assert(bytes_of(result.text()) =~= bytes_of(pre + rs@ + tail));
                                lemma_encode_injective(result.text(), pre + rs@ + tail);
                            }
                        },
                        None => {
                            proof {
                                assert(piece(gs, j as int, a as nat, b as nat) == g);
                                lemma_tags_extend(result.annotations(), orig, gs, a as nat, b as nat, j as int, fstart as int);
                            }
                        },
                    }
                    proof {
                        assert(visible_from(gs, j as int, a as nat, b as nat) == shown_as(g) + tail);
                        assert(result.text() =~= pre + (shown_as(g) + tail));
                        cut = true;
                    }
                    i = j;
                }
            }
        }
        proof {
            if !done {
                assert(i == 0);
                if n > 0 {
                    assert(cut);
                }
                assert(s.take(self.char_offset(0)) =~= Seq::<char>::empty()) by {
                    assert(gs.take(0) =~= Seq::<Seq<char>>::empty());
                }
                if !cut {
                    assert(s.skip(self.char_offset(0)) =~= s);
                    assert(s.len() == 0) by {
                        self.lemma_graphemes();
                        assert(gs.take(0) =~= gs);
                    }
                    assert(visible_from(gs, 0, a as nat, b as nat) =~= Seq::<char>::empty());
                    assert(s =~= Seq::<char>::empty());
                }
                assert(!cut_on_left(gs, a as nat, b as nat)) by {
                    if cut_on_left(gs, a as nat, b as nat) {
                        let k = choose|k: int|
                            0 <= k < gs.len() && columns_until(gs, k) < a && a < #[trigger] columns_until(gs, k + 1)
                                && columns_until(gs, k + 1) <= b;
                    }
                }
                assert(result.text() =~= visible_from(gs, 0, a as nat, b as nat));
                assert(self.offset(0) == 0) by {
                    assert(gs.take(0) =~= Seq::<Seq<char>>::empty());
                }
            }
        }
        result
    }

    /// Whether the columns of the whole line can be counted in a `usize`.
    pub fn width_fits(&self) -> (r: bool)
        requires
            self.wf(),
        ensures
            r == (columns_until(self.graphemes(), self.graphemes().len() as int) <= usize::MAX),
    {
        let ghost gs = self.graphemes();
        let n = self.fragments.len();
        let mut sum: usize = 0;
        let mut i: usize = 0;
        while i < n
            invariant
                n == self.fragments@.len(),
                fragments_of(self.fragments@, self@),
                gs == self.graphemes(),
                i <= n,
                sum == columns_until(gs, i as int),
            decreases n - i,
        {
            assert(fragment_of(self.fragments@[i as int], gs[i as int], offset_of(gs, i as int)));
            let w = self.fragments[i].rendered_width.columns();
            if sum > usize::MAX - w {
                proof {
                    lemma_columns_mono(gs, i as int + 1, n as int);
                }
                return false;
            }
            sum = sum + w;
            i = i + 1;
        }
        true
    }

    /// The text of the line as shown in the window of columns `range`.
    pub fn get_visible_graphemes(&self, range: std::ops::Range<usize>) -> (r: String)
        requires
            self.wf(),
            columns_until(self.graphemes(), self.graphemes().len() as int) <= usize::MAX,
        ensures
            r@ == visible_text(self.graphemes(), range.start as nat, range.end as nat),
    {
        self.get_annotated_visible_substr(range, None).as_string()
    }
}

} // verus!
