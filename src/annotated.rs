//! Text with byte-range style annotations that follow edits of the text and
//! split it into tagged parts for rendering.

use crate::text::{
    at_boundary, blen, byte_len, is_boundary, joined, lemma_blen_prefix_injective, lemma_encode_concat,
    lemma_encode_subrange, lemma_encode_take, str_slice, string_replace_range, to_owned_string,
};
use vstd::prelude::*;
use vstd::utf8::encode_utf8;

verus! {

/// The kind of highlight an annotation asks for.
#[derive(Clone, Copy, Debug, PartialEq, Eq, Structural)]
pub enum AnnotationType {
    Match,
    SelectedMatch,
    Digit,
}

/// A tagged byte range `[start, end)`.
#[derive(Clone, Copy, Debug, PartialEq, Eq, Structural)]
pub struct Annotation {
    pub annotation_type: AnnotationType,
    pub start: usize,
    pub end: usize,
}

/// `p - d`, or zero.
pub open spec fn sat_sub(p: usize, d: nat) -> usize {
    if p >= d {
        (p - d) as usize
    } else {
        0
    }
}

/// `p + d`, or the largest `usize`.
pub open spec fn sat_add(p: usize, d: nat) -> usize {
    if p + d > usize::MAX {
        usize::MAX
    } else {
        (p + d) as usize
    }
}

/// Where position `p` goes when bytes `start..end` are replaced by `new_len`
/// bytes (with `new_len` differing from `end - start`).
pub open spec fn rebase_pos(p: usize, start: usize, end: usize, new_len: nat) -> usize {
    let old_len = end - start;
    let shortened = new_len < old_len;
    let d: nat = if shortened {
        (old_len - new_len) as nat
    } else {
        (new_len - old_len) as nat
    };
    if p >= end {
        if shortened {
            sat_sub(p, d)
        } else {
            sat_add(p, d)
        }
    } else if p >= start {
        if shortened {
            let q = sat_sub(p, d);
            if q > start {
                q
            } else {
                start
            }
        } else {
            let q = sat_add(p, d);
            if q < end {
                q
            } else {
                end
            }
        }
    } else {
        p
    }
}

/// An annotation after its ends are rebased.
pub open spec fn rebase(a: Annotation, start: usize, end: usize, new_len: nat) -> Annotation {
    Annotation {
        annotation_type: a.annotation_type,
        start: rebase_pos(a.start, start, end, new_len),
        end: rebase_pos(a.end, start, end, new_len),
    }
}

/// An annotation survives an edit if it is non-empty and starts inside the text.
pub open spec fn survives(a: Annotation, text_len: nat) -> bool {
    a.start < a.end && a.start < text_len
}

/// The annotations after bytes `start..end` are replaced by `new_len` bytes,
/// leaving a text of `text_len` bytes: untouched if the length did not
/// change, else rebased and then filtered.
pub open spec fn rebase_all(
    anns: Seq<Annotation>,
    start: usize,
    end: usize,
    new_len: nat,
    text_len: nat,
) -> Seq<Annotation> {
    if new_len == end - start {
        anns
    } else {
        anns.map_values(|a: Annotation| rebase(a, start, end, new_len)).filter(
            |a: Annotation| survives(a, text_len),
        )
    }
}

/// The UTF-8 bytes of a text.
pub open spec fn bytes_of(s: Seq<char>) -> Seq<u8> {
    encode_utf8(s)
}

/// The tag of the last annotation in `anns` that covers byte `b`, if any.
pub open spec fn tag_at(anns: Seq<Annotation>, b: int) -> Option<AnnotationType>
    decreases anns.len(),
{
    if anns.len() == 0 {
        None
    } else if anns.last().start <= b < anns.last().end {
        Some(anns.last().annotation_type)
    } else {
        tag_at(anns.drop_last(), b)
    }
}

/// Annotation `k` covers byte `b`.
pub open spec fn covers(anns: Seq<Annotation>, k: int, b: int) -> bool {
    anns[k].start <= b < anns[k].end
}

/// The index of the last annotation in `anns` that covers byte `b`, if any.
pub open spec fn last_cover(anns: Seq<Annotation>, b: int) -> Option<int>
    decreases anns.len(),
{
    if anns.len() == 0 {
        None
    } else if covers(anns, anns.len() - 1, b) {
        Some(anns.len() - 1)
    } else {
        last_cover(anns.drop_last(), b)
    }
}

/// How far a part may run from byte `idx` before its tag could change: to
/// the end of the winning annotation (or of the text, if none wins), but
/// not past the start of any later annotation that begins after `idx`.
pub open spec fn part_limit(anns: Seq<Annotation>, len: nat, idx: int) -> int {
    match last_cover(anns, idx) {
        Some(w) => if anns[w].end < len {
            anns[w].end as int
        } else {
            len as int
        },
        None => len as int,
    }
}

/// The annotations that may cut a part beginning at byte `idx`: those added
/// after the winning one.
pub open spec fn first_cutter(anns: Seq<Annotation>, idx: int) -> int {
    match last_cover(anns, idx) {
        Some(w) => w + 1,
        None => 0,
    }
}

/// A part beginning at byte `idx` ends at `e`: at the limit set by the
/// winning annotation, or earlier at the first start of a later annotation
/// that begins after `idx`.
pub open spec fn part_ends_at(anns: Seq<Annotation>, len: nat, idx: int, e: int) -> bool {
    &&& e <= part_limit(anns, len, idx)
    &&& forall|k: int|
        first_cutter(anns, idx) <= k < anns.len() && #[trigger] anns[k].start > idx ==> e
            <= anns[k].start
    &&& (e == part_limit(anns, len, idx) || exists|k: int|
        first_cutter(anns, idx) <= k < anns.len() && #[trigger] anns[k].start > idx && e
            == anns[k].start)
}

/// With `w` the last annotation covering `b`, it is the one `last_cover` finds.
proof fn lemma_last_cover_winner(anns: Seq<Annotation>, w: int, b: int)
    requires
        0 <= w < anns.len(),
        covers(anns, w, b),
        forall|k: int| w < k < anns.len() ==> !covers(anns, k, b),
    ensures
        last_cover(anns, b) == Some(w),
    decreases anns.len(),
{
    if w < anns.len() - 1 {
        assert(!covers(anns, anns.len() - 1, b));
        assert forall|k: int| w < k < anns.drop_last().len() implies !covers(anns.drop_last(), k, b) by {
            assert(anns.drop_last()[k] == anns[k]);
            assert(!covers(anns, k, b));
        }
        assert(anns.drop_last()[w] == anns[w]);
        lemma_last_cover_winner(anns.drop_last(), w, b);
    }
}

/// With no annotation covering `b`, `last_cover` finds none.
proof fn lemma_last_cover_none(anns: Seq<Annotation>, b: int)
    requires
        forall|k: int| 0 <= k < anns.len() ==> !covers(anns, k, b),
    ensures
        last_cover(anns, b) is None,
    decreases anns.len(),
{
    if anns.len() > 0 {
        assert(!covers(anns, anns.len() - 1, b));
        assert forall|k: int| 0 <= k < anns.drop_last().len() implies !covers(anns.drop_last(), k, b) by {
            assert(anns.drop_last()[k] == anns[k]);
            assert(!covers(anns, k, b));
        }
        lemma_last_cover_none(anns.drop_last(), b);
    }
}

/// Every annotation end that falls inside the text falls between two characters.
pub open spec fn ends_on_boundaries(text: Seq<char>, anns: Seq<Annotation>) -> bool {
    forall|k: int|
        0 <= k < anns.len() ==> (anns[k].start <= blen(text) ==> at_boundary(
            text,
            #[trigger] anns[k].start as int,
        )) && (anns[k].end <= blen(text) ==> at_boundary(text, anns[k].end as int))
}

/// With `w` the last annotation covering `b`, `b` takes its tag.
proof fn lemma_tag_at_winner(anns: Seq<Annotation>, w: int, b: int)
    requires
        0 <= w < anns.len(),
        covers(anns, w, b),
        forall|k: int| w < k < anns.len() ==> !covers(anns, k, b),
    ensures
        tag_at(anns, b) == Some(anns[w].annotation_type),
    decreases anns.len(),
{
    if w < anns.len() - 1 {
        assert(!covers(anns, anns.len() - 1, b));
        assert forall|k: int| w < k < anns.drop_last().len() implies !covers(anns.drop_last(), k, b) by {
            assert(anns.drop_last()[k] == anns[k]);
            assert(!covers(anns, k, b));
        }
        lemma_tag_at_winner(anns.drop_last(), w, b);
    }
}

/// With no annotation covering `b`, `b` is untagged.
proof fn lemma_tag_at_none(anns: Seq<Annotation>, b: int)
    requires
        forall|k: int| 0 <= k < anns.len() ==> !covers(anns, k, b),
    ensures
        tag_at(anns, b) is None,
    decreases anns.len(),
{
    if anns.len() > 0 {
        assert(!covers(anns, anns.len() - 1, b));
        assert forall|k: int| 0 <= k < anns.drop_last().len() implies !covers(anns.drop_last(), k, b) by {
            assert(anns.drop_last()[k] == anns[k]);
            assert(!covers(anns, k, b));
        }
        lemma_tag_at_none(anns.drop_last(), b);
    }
}

/// Every annotation is non-empty and lies inside a text of `len` bytes.
pub open spec fn in_text(anns: Seq<Annotation>, len: nat) -> bool {
    forall|k: int| 0 <= k < anns.len() ==> #[trigger] anns[k].start < anns[k].end <= len
}

/// Replacing bytes `start..end` of a text of `old_len` bytes by `new_len`
/// bytes keeps annotations well placed: if each was non-empty and inside the
/// text before, each surviving one is non-empty and inside the new text.
pub proof fn lemma_replace_keeps_annotations_in_text(
    anns: Seq<Annotation>,
    start: usize,
    end: usize,
    new_len: nat,
    old_len: nat,
)
    requires
        start <= end <= old_len,
        old_len - (end - start) + new_len <= usize::MAX,
        in_text(anns, old_len),
    ensures
        in_text(rebase_all(anns, start, end, new_len, (old_len - (end - start) + new_len) as nat), (old_len - (end - start) + new_len) as nat),
{
    let text_len = (old_len - (end - start) + new_len) as nat;
    if new_len != end - start {
        let mapped = anns.map_values(|a: Annotation| rebase(a, start, end, new_len));
        let pred = |a: Annotation| survives(a, text_len);
        let r = mapped.filter(pred);
        assert forall|k: int| 0 <= k < r.len() implies #[trigger] r[k].start < r[k].end <= text_len by {
            mapped.lemma_filter_pred(pred, k);
            assert(r.contains(r[k]));
            mapped.lemma_filter_contains_rev(pred, r[k]);
            let i = choose|i: int| 0 <= i < mapped.len() && mapped[i] == r[k];
            assert(anns[i].start < anns[i].end <= old_len);
        }
    }
}

/// One annotation, rebased for an edit of bytes `start..end` into `new_len`
/// bytes, covers the new place of byte `b` exactly when it covered `b`, and
/// then survives.
proof fn lemma_rebase_covers(
    a: Annotation,
    start: usize,
    end: usize,
    new_len: nat,
    text_len: nat,
    b: int,
    b2: int,
)
    requires
        start <= end,
        new_len != end - start,
        0 <= b,
        (b < start && b2 == b) || (b >= end && b2 == b - (end - start) + new_len),
        0 <= b2 < text_len,
        text_len <= usize::MAX,
        b < start ==> b2 < start + new_len,
    ensures
        (rebase(a, start, end, new_len).start <= b2 < rebase(a, start, end, new_len).end) <==> (
        a.start <= b < a.end),
        (rebase(a, start, end, new_len).start <= b2 < rebase(a, start, end, new_len).end) ==> survives(
            rebase(a, start, end, new_len),
            text_len,
        ),
{
}

/// The edit of bytes `start..end` into `new_len` bytes keeps the tag of
/// every byte outside the edited range, at its new place.
pub proof fn lemma_rebase_keeps_tags(
    anns: Seq<Annotation>,
    start: usize,
    end: usize,
    new_len: nat,
    text_len: nat,
    b: int,
    b2: int,
)
    requires
        start <= end,
        0 <= b,
        (b < start && b2 == b) || (b >= end && b2 == b - (end - start) + new_len),
        0 <= b2 < text_len,
        text_len <= usize::MAX,
        b < start ==> b2 < start + new_len,
    ensures
        tag_at(rebase_all(anns, start, end, new_len, text_len), b2) == tag_at(anns, b),
    decreases anns.len(),
{
    if new_len != end - start && anns.len() > 0 {
        let rest = anns.drop_last();
        let a = anns.last();
        let f = |x: Annotation| rebase(x, start, end, new_len);
        let pred = |x: Annotation| survives(x, text_len);
        lemma_rebase_keeps_tags(rest, start, end, new_len, text_len, b, b2);
        lemma_rebase_covers(a, start, end, new_len, text_len, b, b2);
        assert(anns.map_values(f) =~= rest.map_values(f).push(f(a)));
        reveal(Seq::filter);
        assert(rest.map_values(f).push(f(a)).drop_last() =~= rest.map_values(f));
        let kept = rest.map_values(f).filter(pred);
        if pred(f(a)) {
            assert(anns.map_values(f).filter(pred) == kept.push(f(a)));
            assert(kept.push(f(a)).drop_last() =~= kept);
        } else {
            assert(anns.map_values(f).filter(pred) == kept);
        }
    }
}

/// Rebasing no annotations leaves none.
pub proof fn lemma_rebase_none(start: usize, end: usize, new_len: nat, text_len: nat)
    ensures
        rebase_all(Seq::empty(), start, end, new_len, text_len).len() == 0,
{
    reveal(Seq::filter);
    let f = |x: Annotation| rebase(x, start, end, new_len);
    assert(Seq::<Annotation>::empty().map_values(f) =~= Seq::<Annotation>::empty());
}

/// A run of the text with the tag it is shown with (none for plain text),
/// and the bytes `start..end` it spans.
#[derive(Debug)]
pub struct AnnotatedStringPart {
    pub string: String,
    pub annotation_type: Option<AnnotationType>,
    pub start: usize,
    pub end: usize,
}

/// Part `p` spans bytes `p.start..p.end` of `text`, is non-empty, each of
/// its bytes takes its tag from the last annotation covering it, and it runs
/// as far as that tag is sure to hold.
pub open spec fn part_ok(p: AnnotatedStringPart, text: Seq<char>, anns: Seq<Annotation>) -> bool {
    &&& p.start < p.end <= blen(text)
    &&& part_ends_at(anns, blen(text), p.start as int, p.end as int)
    &&& bytes_of(p.string@) == bytes_of(text).subrange(p.start as int, p.end as int)
    &&& forall|b: int| p.start <= b < p.end ==> tag_at(anns, b) == p.annotation_type
}

/// The texts of some parts.
pub open spec fn part_texts(ps: Seq<AnnotatedStringPart>) -> Seq<Seq<char>> {
    ps.map_values(|p: AnnotatedStringPart| p.string@)
}

/// `ps` cuts `text` into consecutive parts, from its first byte to its last.
pub open spec fn is_partition(
    ps: Seq<AnnotatedStringPart>,
    text: Seq<char>,
    anns: Seq<Annotation>,
) -> bool {
    &&& (ps.len() == 0 <==> blen(text) == 0)
    &&& ps.len() > 0 ==> ps[0].start == 0 && ps.last().end == blen(text)
    &&& forall|i: int| 0 <= i < ps.len() - 1 ==> #[trigger] ps[i].end == ps[i + 1].start
    &&& forall|i: int| 0 <= i < ps.len() ==> #[trigger] part_ok(ps[i], text, anns)
}

/// A text and its annotations, in the order they were added: a later one
/// takes precedence where two overlap.
#[derive(Debug)]
pub struct AnnotatedString {
    string: String,
    annotations: Vec<Annotation>,
}

impl View for AnnotatedString {
    type V = (Seq<char>, Seq<Annotation>);

    closed spec fn view(&self) -> (Seq<char>, Seq<Annotation>) {
        (self.string@, self.annotations@)
    }
}

impl AnnotatedString {
    /// The text.
    pub open spec fn text(&self) -> Seq<char> {
        self@.0
    }

    /// The annotations, oldest first.
    pub open spec fn annotations(&self) -> Seq<Annotation> {
        self@.1
    }

    /// `s` with no annotations.
    pub fn from(s: &str) -> (r: AnnotatedString)
        ensures
            r.text() == s@,
            r.annotations().len() == 0,
    {
        AnnotatedString { string: to_owned_string(s), annotations: Vec::new() }
    }

    /// Empty text with no annotations.
    pub fn new() -> (r: AnnotatedString)
        ensures
            r.text().len() == 0,
            r.annotations().len() == 0,
    {
        AnnotatedString { string: String::new(), annotations: Vec::new() }
    }

    /// The byte length of the text.
    pub fn len(&self) -> (r: usize)
        ensures
            r == blen(self.text()),
    {
        byte_len(self.string.as_str())
    }

    /// The text, copied.
    pub fn as_string(&self) -> (r: String)
        ensures
            r@ == self.text(),
    {
        self.string.clone()
    }

    /// The annotations, copied.
    pub fn annotation_list(&self) -> (r: Vec<Annotation>)
        ensures
            r@ == self.annotations(),
    {
        let mut r: Vec<Annotation> = Vec::new();
        let mut i: usize = 0;
        while i < self.annotations.len()
            invariant
                i <= self.annotations@.len(),
                r@ == self.annotations@.take(i as int),
            decreases self.annotations.len() - i,
        {
            r.push(self.annotations[i]);
            i = i + 1;
            assert(r@ =~= self.annotations@.take(i as int));
        }
        assert(self.annotations@.take(i as int) =~= self.annotations@);
        r
    }

    /// Adds an annotation over bytes `start..end`; it takes precedence over
    /// all added before it.
    pub fn add_annotation(&mut self, annotation_type: AnnotationType, start: usize, end: usize)
        requires
            start <= end,
        ensures
            final(self).text() == old(self).text(),
            final(self).annotations() == old(self).annotations().push(
                Annotation { annotation_type, start, end },
            ),
    {
        self.annotations.push(Annotation { annotation_type, start, end });
    }

    /// Replaces bytes `start..end` (with `end` clipped to the text) by
    /// `new_string` and rebases the annotations; nothing happens if `start`
    /// is past the clipped end.
    pub fn replace(&mut self, start: usize, end: usize, new_string: &str)
        requires
            ({
                let e = if end < blen(old(self).text()) {
                    end as int
                } else {
                    blen(old(self).text()) as int
                };
                start <= e ==> at_boundary(old(self).text(), start as int) && at_boundary(
                    old(self).text(),
                    e,
                )
            }),
        ensures
            ({
                let e = if end < blen(old(self).text()) {
                    end as usize
                } else {
                    blen(old(self).text()) as usize
                };
                if start > e {
                    final(self)@ == old(self)@
                } else {
                    &&& bytes_of(final(self).text()) == bytes_of(old(self).text()).take(start as int)
                        + bytes_of(new_string@) + bytes_of(old(self).text()).skip(e as int)
                    &&& final(self).annotations() == rebase_all(
                        old(self).annotations(),
                        start,
                        e,
                        blen(new_string@),
                        blen(final(self).text()),
                    )
                }
            }),
            in_text(old(self).annotations(), blen(old(self).text())) ==> in_text(
                final(self).annotations(),
                blen(final(self).text()),
            ),
    {
        let len = byte_len(self.string.as_str());
        let end = if end < len {
            end
        } else {
            len
        };
        if start > end {
            return;
        }
        let ghost old_text = self.string@;
        string_replace_range(&mut self.string, start, end, new_string);
        proof {
            let i = choose|i: int| 0 <= i <= old_text.len() && #[trigger] blen(old_text.take(i)) == start;
            let j = choose|j: int| 0 <= j <= old_text.len() && #[trigger] blen(old_text.take(j)) == end;
            if j < i {
                crate::text::lemma_blen_prefix_strict(old_text, j, i);
            }
            lemma_encode_take(old_text, i);
            lemma_encode_take(old_text, j);
            lemma_encode_concat(old_text.take(i), new_string@);
            lemma_encode_concat(old_text.take(i) + new_string@, old_text.skip(j));
        }
        let new_len = byte_len(new_string);
        let old_len = end - start;
        proof {
            assert(bytes_of(self.string@) == bytes_of(old_text).take(start as int) + bytes_of(new_string@)
                + bytes_of(old_text).skip(end as int));
            assert(blen(self.string@) == start + new_len + (len - end));
        }
        if new_len == old_len {
            return;
        }
        let total = byte_len(self.string.as_str());
        let ghost mapped = self.annotations@.map_values(
            |a: Annotation| rebase(a, start, end, new_len as nat),
        );
        let mut kept: Vec<Annotation> = Vec::new();
        let mut i: usize = 0;
        while i < self.annotations.len()
            invariant
                i <= self.annotations@.len(),
                mapped.len() == self.annotations@.len(),
                start <= end,
                new_len != end - start,
                forall|k: int|
                    0 <= k < mapped.len() ==> #[trigger] mapped[k] == rebase(
                        self.annotations@[k],
                        start,
                        end,
                        new_len as nat,
                    ),
                kept@ == mapped.take(i as int).filter(|a: Annotation| survives(a, total as nat)),
            decreases self.annotations.len() - i,
        {
            let a = self.annotations[i];
            let s = Self::rebase_pos_exec(a.start, start, end, new_len);
            let e = Self::rebase_pos_exec(a.end, start, end, new_len);
            let b = Annotation { annotation_type: a.annotation_type, start: s, end: e };
            proof {
                assert(mapped.take(i as int + 1).drop_last() =~= mapped.take(i as int));
                assert(mapped.take(i as int + 1).last() == b);
            }
            if s < e && s < total {
                kept.push(b);
            }
            proof {
                let pred = |a: Annotation| survives(a, total as nat);
                reveal(Seq::filter);
                assert(mapped.take(i as int + 1).filter(pred) == (if pred(b) {
                    mapped.take(i as int).filter(pred).push(b)
                } else {
                    mapped.take(i as int).filter(pred)
                }));
            }
            i = i + 1;
        }
        assert(mapped.take(i as int) =~= mapped);
        self.annotations = kept;
        proof {
            assert(total == (len - (end - start) + new_len) as nat);
            let oa = old(self).annotations();
            if in_text(oa, blen(old(self).text())) {
                assert(blen(old(self).text()) == len as nat);
                lemma_replace_keeps_annotations_in_text(oa, start, end, new_len as nat, len as nat);
            }
        }
    }

    /// Where the part that begins at byte `idx` ends, and its tag: the tag of
    /// the last annotation covering `idx`, up to where that could change.
    fn part_from(&self, idx: usize) -> (r: (usize, Option<AnnotationType>))
        requires
            idx < blen(self.text()),
            ends_on_boundaries(self.text(), self.annotations()),
        ensures
            idx < r.0 <= blen(self.text()),
            at_boundary(self.text(), r.0 as int),
            forall|b: int| idx <= b < r.0 ==> tag_at(self.annotations(), b) == r.1,
            part_ends_at(self.annotations(), blen(self.text()), idx as int, r.0 as int),
    {
        let ghost anns = self.annotations@;
        let len = byte_len(self.string.as_str());
        let n = self.annotations.len();
        let mut winner: Option<usize> = None;
        let mut k: usize = 0;
        while k < n
            invariant
                n == anns.len(),
                anns == self.annotations@,
                k <= n,
                match winner {
                    Some(w) => w < k && covers(anns, w as int, idx as int) && forall|j: int|
                        w < j < k ==> !covers(anns, j, idx as int),
                    None => forall|j: int| 0 <= j < k ==> !covers(anns, j, idx as int),
                },
            decreases n - k,
        {
            let a = self.annotations[k];
            if a.start <= idx && idx < a.end {
                winner = Some(k);
            }
            k = k + 1;
        }
        proof {
            match winner {
                Some(w) => lemma_last_cover_winner(anns, w as int, idx as int),
                None => lemma_last_cover_none(anns, idx as int),
            }
        }
        let first_later: usize = match winner {
            Some(w) => w + 1,
            None => 0,
        };
        let mut end = match winner {
            Some(w) => if self.annotations[w].end < len {
                self.annotations[w].end
            } else {
                len
            },
            None => len,
        };
        proof {
            crate::text::lemma_prefix_at_boundary(self.string@, self.string@.len() as int);
            assert(self.string@.take(self.string@.len() as int) =~= self.string@);
        }
        let mut j: usize = first_later;
        while j < n
            invariant
                n == anns.len(),
                anns == self.annotations@,
                ends_on_boundaries(self.string@, anns),
                len == blen(self.string@),
                first_later <= j <= n,
                idx < end <= len,
                at_boundary(self.string@, end as int),
                forall|i: int| first_later <= i < j && anns[i].start > idx ==> end <= anns[i].start,
                first_later == first_cutter(anns, idx as int),
                end <= part_limit(anns, len as nat, idx as int),
                end == part_limit(anns, len as nat, idx as int) || exists|k: int|
                    first_cutter(anns, idx as int) <= k < anns.len() && #[trigger] anns[k].start > idx
                        && end == anns[k].start,
                match winner {
                    Some(w) => first_later == w + 1 && end <= anns[w as int].end,
                    None => first_later == 0,
                },
            decreases n - j,
        {
            let st = self.annotations[j].start;
            if st > idx && st < end {
                end = st;
            }
            j = j + 1;
        }
        proof {
            assert forall|b: int| idx <= b < end implies tag_at(anns, b) == match winner {
                Some(w) => Some(anns[w as int].annotation_type),
                None => None::<AnnotationType>,
            } by {
                match winner {
                    Some(w) => {
                        assert forall|i: int| w < i < anns.len() implies !covers(anns, i, b) by {
                            if anns[i].start <= idx {
                                assert(!covers(anns, i, idx as int));
                            }
                        }
                        lemma_tag_at_winner(anns, w as int, b);
                    },
                    None => {
                        assert forall|i: int| 0 <= i < anns.len() implies !covers(anns, i, b) by {
                            if anns[i].start <= idx {
                                assert(!covers(anns, i, idx as int));
                            }
                        }
                        lemma_tag_at_none(anns, b);
                    },
                }
            }
        }
        let tag = match winner {
            Some(w) => Some(self.annotations[w].annotation_type),
            None => None,
        };
        (end, tag)
    }

    /// Whether every annotation end inside the text falls between two
    /// characters, so that the text can be cut into parts.
    pub fn annotations_on_boundaries(&self) -> (r: bool)
        ensures
            r == ends_on_boundaries(self.text(), self.annotations()),
    {
        let len = byte_len(self.string.as_str());
        let mut k: usize = 0;
        while k < self.annotations.len()
            invariant
                k <= self.annotations@.len(),
                len == blen(self.string@),
                forall|j: int| 0 <= j < k ==> (#[trigger] self.annotations@[j]).start <= blen(self.string@) ==> at_boundary(
                    self.string@,
                    self.annotations@[j].start as int,
                ),
                forall|j: int| 0 <= j < k ==> (#[trigger] self.annotations@[j]).end <= blen(self.string@) ==> at_boundary(
                    self.string@,
                    self.annotations@[j].end as int,
                ),
            decreases self.annotations.len() - k,
        {
            let a = self.annotations[k];
            if a.start <= len && !is_boundary(self.string.as_str(), a.start) {
                return false;
            }
            if a.end <= len && !is_boundary(self.string.as_str(), a.end) {
                return false;
            }
            k = k + 1;
        }
        proof {
            assert forall|j: int| 0 <= j < self.annotations@.len() implies (self.annotations@[j].start
                <= blen(self.string@) ==> at_boundary(
                self.string@,
                #[trigger] self.annotations@[j].start as int,
            )) && (self.annotations@[j].end <= blen(self.string@) ==> at_boundary(
                self.string@,
                self.annotations@[j].end as int,
            )) by {
                assert(self.annotations@[j] == self.annotations@[j]);
            }
        }
        true
    }

    /// The part of the text that begins at byte `idx`.
    fn part_at(&self, idx: usize) -> (r: AnnotatedStringPart)
        requires
            idx < blen(self.text()),
            at_boundary(self.text(), idx as int),
            ends_on_boundaries(self.text(), self.annotations()),
        ensures
            r.start == idx,
            part_ok(r, self.text(), self.annotations()),
            at_boundary(self.text(), r.end as int),
            forall|i: int, j: int|
                0 <= i <= j <= self.text().len() && #[trigger] blen(self.text().take(i)) == idx
                    && #[trigger] blen(self.text().take(j)) == r.end ==> r.string@
                    == self.text().subrange(i, j),
    {
        let (end, tag) = self.part_from(idx);
        let slice = str_slice(self.string.as_str(), idx, end);
        let string = to_owned_string(slice);
        proof {
            let t = self.string@;
            let i = choose|i: int| 0 <= i <= t.len() && #[trigger] blen(t.take(i)) == idx;
            let j = choose|j: int| 0 <= j <= t.len() && #[trigger] blen(t.take(j)) == end;
            if j < i {
                crate::text::lemma_blen_prefix_strict(t, j, i);
            }
            lemma_encode_subrange(t, i, j);
            assert forall|i2: int, j2: int|
                0 <= i2 <= j2 <= t.len() && #[trigger] blen(t.take(i2)) == idx
                    && #[trigger] blen(t.take(j2)) == end implies string@ == t.subrange(i2, j2) by {
                lemma_blen_prefix_injective(t, i, i2);
                lemma_blen_prefix_injective(t, j, j2);
            }
        }
        AnnotatedStringPart { string, annotation_type: tag, start: idx, end }
    }

    /// The text cut into consecutive non-empty parts, each tagged with the
    /// annotation that wins on its bytes: the last-added one covering them.
    pub fn parts(&self) -> (r: Vec<AnnotatedStringPart>)
        requires
            ends_on_boundaries(self.text(), self.annotations()),
        ensures
            is_partition(r@, self.text(), self.annotations()),
            joined(part_texts(r@)) == self.text(),
    {
        let ghost t = self.string@;
        let len = byte_len(self.string.as_str());
        let mut r: Vec<AnnotatedStringPart> = Vec::new();
        let mut idx: usize = 0;
        let ghost mut ci: int = 0;
        proof {
            crate::text::lemma_prefix_at_boundary(t, 0);
            assert(t.take(0) =~= Seq::<char>::empty());
            assert(part_texts(r@) =~= Seq::<Seq<char>>::empty());
        }
        while idx < len
            invariant
                t == self.string@,
                len == blen(t),
                ends_on_boundaries(t, self.annotations@),
                idx <= len,
                0 <= ci <= t.len(),
                blen(t.take(ci)) == idx,
                joined(part_texts(r@)) == t.take(ci),
                r@.len() == 0 <==> idx == 0,
                r@.len() > 0 ==> r@[0].start == 0 && r@.last().end == idx,
                forall|i: int| 0 <= i < r@.len() - 1 ==> #[trigger] r@[i].end == r@[i + 1].start,
                forall|i: int| 0 <= i < r@.len() ==> #[trigger] part_ok(r@[i], t, self.annotations@),
            decreases len - idx,
        {
            proof {
                crate::text::lemma_prefix_at_boundary(t, ci);
            }
            let p = self.part_at(idx);
            proof {
                let j = choose|j: int| 0 <= j <= t.len() && #[trigger] blen(t.take(j)) == p.end;
                if j <= ci {
                    if j < ci {
                        crate::text::lemma_blen_prefix_strict(t, j, ci);
                    }
                }
                assert(p.string@ == t.subrange(ci, j));
                let old_r = r@;
                assert(part_texts(old_r.push(p)) =~= part_texts(old_r).push(p.string@));
                assert(part_texts(old_r).push(p.string@).drop_last() =~= part_texts(old_r));
                assert(t.take(j) =~= t.take(ci) + t.subrange(ci, j));
                ci = j;
            }
            idx = p.end;
            r.push(p);
        }
        proof {
            assert(t.take(ci) =~= t) by {
                if ci < t.len() {
                    crate::text::lemma_blen_prefix_strict(t, ci, t.len() as int);
                    assert(t.take(t.len() as int) =~= t);
                }
            }
        }
        r
    }

    /// `rebase_pos`, computed.
    fn rebase_pos_exec(p: usize, start: usize, end: usize, new_len: usize) -> (r: usize)
        requires
            start <= end,
            new_len != end - start,
        ensures
            r == rebase_pos(p, start, end, new_len as nat),
    {
        let old_len = end - start;
        let shortened = new_len < old_len;
        let d = if shortened {
            old_len - new_len
        } else {
            new_len - old_len
        };
        if p >= end {
            if shortened {
                p.saturating_sub(d)
            } else {
                p.saturating_add(d)
            }
        } else if p >= start {
            if shortened {
                let q = p.saturating_sub(d);
                if q > start {
                    q
                } else {
                    start
                }
            } else {
                let q = p.saturating_add(d);
                if q < end {
                    q
                } else {
                    end
                }
            }
        } else {
            p
        }
    }

    /// Removes the bytes before `until` (clipped to the text).
    pub fn truncate_left_until(&mut self, until: usize)
        requires
            at_boundary(
                old(self).text(),
                if until < blen(old(self).text()) {
                    until as int
                } else {
                    blen(old(self).text()) as int
                },
            ),
        ensures
            ({
                let e = if until < blen(old(self).text()) {
                    until as usize
                } else {
                    blen(old(self).text()) as usize
                };
                &&& bytes_of(final(self).text()) == bytes_of(old(self).text()).skip(e as int)
                &&& final(self).annotations() == rebase_all(
                    old(self).annotations(),
                    0,
                    e,
                    0,
                    blen(final(self).text()),
                )
            }),
    {
        proof {
            reveal_strlit("");
            crate::text::lemma_prefix_at_boundary(old(self).text(), 0);
            assert(old(self).text().take(0) =~= Seq::<char>::empty());
            assert(bytes_of(old(self).text()).take(0) + bytes_of(""@) =~= Seq::<u8>::empty());
        }
        self.replace(0, until, "");
        proof {
            let e = if until < blen(old(self).text()) {
                until as int
            } else {
                blen(old(self).text()) as int
            };
            assert(bytes_of(old(self).text()).take(0) + bytes_of(""@) + bytes_of(
                old(self).text(),
            ).skip(e) =~= bytes_of(old(self).text()).skip(e));
        }
    }

    /// Removes the bytes from `from` on; nothing happens if `from` is past
    /// the end of the text.
    pub fn truncate_right_from(&mut self, from: usize)
        requires
            from <= blen(old(self).text()) ==> at_boundary(old(self).text(), from as int),
        ensures
            from > blen(old(self).text()) ==> final(self)@ == old(self)@,
            from <= blen(old(self).text()) ==> bytes_of(final(self).text()) == bytes_of(
                old(self).text(),
            ).take(from as int) && final(self).annotations() == rebase_all(
                old(self).annotations(),
                from,
                blen(old(self).text()) as usize,
                0,
                blen(final(self).text()),
            ),
    {
        let len = byte_len(self.string.as_str());
        proof {
            reveal_strlit("");
            crate::text::lemma_prefix_at_boundary(old(self).text(), old(self).text().len() as int);
            assert(old(self).text().take(old(self).text().len() as int) =~= old(self).text());
        }
        self.replace(from, len, "");
        proof {
            if from <= len {
                assert(bytes_of(old(self).text()).skip(len as int) =~= Seq::<u8>::empty());
                assert(bytes_of(old(self).text()).take(from as int) + bytes_of(""@) + bytes_of(
                    old(self).text(),
                ).skip(len as int) =~= bytes_of(old(self).text()).take(from as int));
            }
        }
    }
}

/// Walks the parts of an annotated text from byte `current_idx` on.
pub struct AnnotatedStringIterator<'a> {
    pub annotated_string: &'a AnnotatedString,
    pub current_idx: usize,
}

impl<'a> AnnotatedStringIterator<'a> {
    /// The part that begins at the current byte, moving past it; none at the
    /// end of the text.
    pub fn next(&mut self) -> (r: Option<AnnotatedStringPart>)
        requires
            ends_on_boundaries(old(self).annotated_string.text(), old(self).annotated_string.annotations()),
            old(self).current_idx < blen(old(self).annotated_string.text()) ==> at_boundary(
                old(self).annotated_string.text(),
                old(self).current_idx as int,
            ),
        ensures
            final(self).annotated_string == old(self).annotated_string,
            old(self).current_idx >= blen(old(self).annotated_string.text()) ==> r is None
                && final(self).current_idx == old(self).current_idx,
            old(self).current_idx < blen(old(self).annotated_string.text()) ==> (r matches Some(p)
                && p.start == old(self).current_idx && final(self).current_idx == p.end && part_ok(
                p,
                old(self).annotated_string.text(),
                old(self).annotated_string.annotations(),
            ) && at_boundary(old(self).annotated_string.text(), p.end as int)),
    {
        let len = byte_len(self.annotated_string.string.as_str());
        if self.current_idx >= len {
            return None;
        }
        let p = self.annotated_string.part_at(self.current_idx);
        self.current_idx = p.end;
        Some(p)
    }
}

impl AnnotatedString {
    /// An iterator over the parts, from the start of the text.
    pub fn iter(&self) -> (r: AnnotatedStringIterator<'_>)
        ensures
            r.annotated_string == self,
            r.current_idx == 0,
    {
        AnnotatedStringIterator { annotated_string: self, current_idx: 0 }
    }
}

} // verus!
