//! Which parts of each line to highlight: single digits, every match of the
//! search query, and the selected match.

use crate::annotated::{sat_add, Annotation, AnnotationType};
use crate::buffer::Location;
use crate::fileinfo::FileType;
use crate::line::{first_from, matches_from, offset_of, Line};
use crate::text::{blen, byte_len, chars_of, to_owned_string};
use crate::unicode::grapheme_clusters;
use std::collections::HashMap;
use vstd::prelude::*;

verus! {

broadcast use vstd::std_specs::hash::group_hash_axioms;

/// A grapheme that is one ASCII digit.
pub open spec fn is_digit_grapheme(g: Seq<char>) -> bool {
    g.len() == 1 && '0' <= g[0] <= '9'
}

/// Digit annotations for the first `n` graphemes: one byte at each digit.
pub open spec fn digit_annotations(gs: Seq<Seq<char>>, n: int) -> Seq<Annotation>
    decreases n,
{
    if n <= 0 || n > gs.len() {
        Seq::empty()
    } else if is_digit_grapheme(gs[n - 1]) {
        digit_annotations(gs, n - 1).push(
            Annotation {
                annotation_type: AnnotationType::Digit,
                start: offset_of(gs, n - 1) as usize,
                end: sat_add(offset_of(gs, n - 1) as usize, 1),
            },
        )
    } else {
        digit_annotations(gs, n - 1)
    }
}

/// Annotations of type `ty` over matches of a query `qlen` bytes long.
pub open spec fn match_annotations(ms: Seq<(usize, usize)>, qlen: nat, ty: AnnotationType) -> Seq<
    Annotation,
> {
    ms.map_values(|m: (usize, usize)| Annotation { annotation_type: ty, start: m.0, end: sat_add(m.0, qlen) })
}

/// The annotations of line `idx` with text `s`, given whether the lexical
/// rules apply, the search query and the selected match: digits (under the
/// lexical rules), then every match, then the selected one, so that each
/// source takes precedence over the ones before it.
pub open spec fn line_annotations(
    s: Seq<char>,
    idx: usize,
    lexical: bool,
    word: Option<Seq<char>>,
    selected: Option<Location>,
) -> Seq<Annotation> {
    let gs = grapheme_clusters(s);
    let digits = if lexical {
        digit_annotations(gs, gs.len() as int)
    } else {
        Seq::empty()
    };
    let matches = match word {
        Some(w) => if w.len() == 0 {
            Seq::empty()
        } else {
            match_annotations(matches_from(gs, w, 0, blen(s)), blen(w), AnnotationType::Match)
        },
        None => Seq::empty(),
    };
    let chosen = match (word, selected) {
        (Some(w), Some(l)) => if w.len() == 0 || l.line_idx != idx {
            Seq::empty()
        } else {
            let g = if l.grapheme_idx < gs.len() {
                l.grapheme_idx as int
            } else {
                gs.len() as int
            };
            let start = offset_of(gs, g) as usize;
            seq![
                Annotation {
                    annotation_type: AnnotationType::SelectedMatch,
                    start,
                    end: sat_add(start, blen(w)),
                },
            ]
        },
        _ => Seq::empty(),
    };
    digits + matches + chosen
}

/// The lexical rules for Rust source: single digits stand out.
#[derive(Clone, Copy, Debug)]
pub struct RustSyntaxHighlighter;

impl RustSyntaxHighlighter {
    /// Adds an annotation for each grapheme of `line` that is a single digit.
    pub fn highlight_digits(line: &Line, result: &mut Vec<Annotation>)
        requires
            line.wf(),
        ensures
            final(result)@ == old(result)@ + digit_annotations(line.graphemes(), line.graphemes().len() as int),
    {
        let ghost gs = line.graphemes();
        let n = line.grapheme_count();
        let mut i: usize = 0;
        while i < n
            invariant
                line.wf(),
                gs == line.graphemes(),
                n == gs.len(),
                i <= n,
                result@ == old(result)@ + digit_annotations(gs, i as int),
            decreases n - i,
        {
            let f = line.fragment(i);
            let cs = chars_of(f.grapheme.as_str());
            if cs.len() == 1 && '0' <= cs[0] && cs[0] <= '9' {
                result.push(Annotation {
                    annotation_type: AnnotationType::Digit,
                    start: f.start,
                    end: f.start.saturating_add(1),
                });
            }
            i = i + 1;
            assert(result@ =~= old(result)@ + digit_annotations(gs, i as int));
        }
    }
}

/// The highlights of lines, worked out one line at a time from the lexical
/// rules of the file's type and from the search under way.
#[derive(Debug)]
pub struct Highlighter {
    syntax_highlighter: Option<RustSyntaxHighlighter>,
    matched_word: Option<String>,
    selected_match: Option<Location>,
    highlights: HashMap<usize, Vec<Annotation>>,
}

impl Highlighter {
    /// The search query being highlighted.
    pub closed spec fn word(&self) -> Option<Seq<char>> {
        match self.matched_word {
            Some(w) => Some(w@),
            None => None,
        }
    }

    /// Whether the lexical rules apply.
    pub closed spec fn lexical(&self) -> bool {
        self.syntax_highlighter is Some
    }

    /// The selected match.
    pub closed spec fn selected(&self) -> Option<Location> {
        self.selected_match
    }

    /// The annotations worked out so far, by line.
    pub closed spec fn highlights(&self) -> Map<usize, Seq<Annotation>> {
        self.highlights@.map_values(|v: Vec<Annotation>| v@)
    }

    /// Every annotation worked out so far starts no later than it ends.
    pub closed spec fn wf(&self) -> bool {
        forall|i: usize|
            #[trigger] self.highlights@.contains_key(i) ==> forall|k: int|
                0 <= k < self.highlights@[i]@.len() ==> #[trigger] self.highlights@[i]@[k].start
                    <= self.highlights@[i]@[k].end
    }

    /// A highlighter for a file of type `file_type`, for `matched_word` (if a
    /// search is under way) and the selected match, with nothing worked out
    /// yet.
    pub fn new(matched_word: Option<&str>, selected_match: Option<Location>, file_type: FileType) -> (r: Highlighter)
        ensures
            r.wf(),
            r.lexical() == (file_type == FileType::Rust),
            r.word() == (match matched_word {
                Some(w) => Some(w@),
                None => None::<Seq<char>>,
            }),
            r.selected() == selected_match,
            r.highlights() == Map::<usize, Seq<Annotation>>::empty(),
    {
        let word = match matched_word {
            Some(w) => Some(to_owned_string(w)),
            None => None,
        };
        let syntax_highlighter = match file_type {
            FileType::Rust => Some(RustSyntaxHighlighter),
            FileType::PlainText => None,
        };
        let r = Highlighter { syntax_highlighter, matched_word: word, selected_match, highlights: HashMap::new() };
        assert(r.highlights() =~= Map::<usize, Seq<Annotation>>::empty());
        r
    }

    /// The annotations worked out for line `idx`, if any.
    pub fn get_annotations(&self, idx: usize) -> (r: Option<&Vec<Annotation>>)
        requires
            self.wf(),
        ensures
            self.highlights().contains_key(idx) ==> (r matches Some(v) && v@ == self.highlights()[idx]),
            !self.highlights().contains_key(idx) ==> r is None,
            r matches Some(v) ==> forall|k: int| 0 <= k < v@.len() ==> #[trigger] v@[k].start <= v@[k].end,
    {
        self.highlights.get(&idx)
    }

    /// Adds an annotation for each match of the query in `line`.
    fn highlight_matched_words(&self, line: &Line, result: &mut Vec<Annotation>)
        requires
            line.wf(),
        ensures
            final(result)@ == old(result)@ + (match self.word() {
                Some(w) => if w.len() == 0 {
                    Seq::empty()
                } else {
                    match_annotations(matches_from(line.graphemes(), w, 0, blen(line@)), blen(w), AnnotationType::Match)
                },
                None => Seq::empty(),
            }),
    {
        match &self.matched_word {
            Some(w) => {
                let wlen = byte_len(w.as_str());
                proof {
                    crate::text::lemma_blen_ge_len(w@);
                }
                if wlen == 0 {
                    assert(old(result)@ + Seq::<Annotation>::empty() =~= old(result)@);
                    return;
                }
                let len = byte_len(line.as_str());
                let ms = line.find_all(w.as_str(), 0..len);
                assert(first_from(line.graphemes(), 0, 0) == 0);
                let mut k: usize = 0;
                while k < ms.len()
                    invariant
                        k <= ms@.len(),
                        result@ == old(result)@ + match_annotations(ms@.take(k as int), wlen as nat, AnnotationType::Match),
                    decreases ms.len() - k,
                {
                    let start = ms[k].0;
                    result.push(Annotation {
                        annotation_type: AnnotationType::Match,
                        start,
                        end: start.saturating_add(wlen),
                    });
                    k = k + 1;
                    assert(ms@.take(k as int).drop_last() =~= ms@.take(k as int - 1));
                    assert(result@ =~= old(result)@ + match_annotations(ms@.take(k as int), wlen as nat, AnnotationType::Match));
                }
                assert(ms@.take(k as int) =~= ms@);
            },
            None => {
                assert(old(result)@ + Seq::<Annotation>::empty() =~= old(result)@);
            },
        }
    }

    /// Works out and keeps the annotations of line `idx`, whose line is `line`.
    pub fn highlight(&mut self, idx: usize, line: &Line)
        requires
            old(self).wf(),
            line.wf(),
        ensures
            final(self).wf(),
            final(self).word() == old(self).word(),
            final(self).lexical() == old(self).lexical(),
            final(self).selected() == old(self).selected(),
            final(self).highlights() == old(self).highlights().insert(
                idx,
                line_annotations(line@, idx, old(self).lexical(), old(self).word(), old(self).selected()),
            ),
    {
        let mut result: Vec<Annotation> = Vec::new();
        if self.syntax_highlighter.is_some() {
            RustSyntaxHighlighter::highlight_digits(line, &mut result);
        }
        assert(result@ =~= (if self.lexical() {
            digit_annotations(line.graphemes(), line.graphemes().len() as int)
        } else {
            Seq::empty()
        }));
        self.highlight_matched_words(line, &mut result);
        match (&self.matched_word, self.selected_match) {
            (Some(w), Some(l)) => {
                let wlen = byte_len(w.as_str());
                if wlen > 0 && l.line_idx == idx {
                    let start = line.grapheme_idx_to_byte_idx(l.grapheme_idx);
                    result.push(Annotation {
                        annotation_type: AnnotationType::SelectedMatch,
                        start,
                        end: start.saturating_add(wlen),
                    });
                }
                proof {
                    crate::text::lemma_blen_ge_len(w@);
                }
            },
            _ => {},
        }
        proof {
            let gs = line.graphemes();
            assert(result@ =~= line_annotations(line@, idx, self.lexical(), self.word(), self.selected()));
            assert forall|k: int| 0 <= k < result@.len() implies #[trigger] result@[k].start <= result@[k].end by {
                lemma_digit_annotations_ordered(gs, gs.len() as int);
            }
        }
        self.highlights.insert(idx, result);
        proof {
            assert(self.highlights() =~= old(self).highlights().insert(
                idx,
                line_annotations(line@, idx, old(self).lexical(), old(self).word(), old(self).selected()),
            ));
        }
    }
}

/// Digit annotations start no later than they end.
proof fn lemma_digit_annotations_ordered(gs: Seq<Seq<char>>, n: int)
    ensures
        forall|k: int| 0 <= k < digit_annotations(gs, n).len() ==> #[trigger] digit_annotations(gs, n)[k].start <= digit_annotations(gs, n)[k].end,
    decreases n,
{
    if n > 0 && n <= gs.len() {
        lemma_digit_annotations_ordered(gs, n - 1);
    }
}

} // verus!
