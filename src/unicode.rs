//! Grapheme segmentation, display widths and the character classes that
//! decide how a grapheme is shown on a terminal.

use crate::text::{chars_of, joined};
use unicode_segmentation::UnicodeSegmentation;
use unicode_width::UnicodeWidthStr;
use vstd::prelude::*;

verus! {

/// The extended grapheme clusters of a text, as Unicode segments it.
pub uninterp spec fn grapheme_clusters(s: Seq<char>) -> Seq<Seq<char>>;

/// The number of terminal columns a text takes, as Unicode width tables give it.
pub uninterp spec fn display_width(s: Seq<char>) -> usize;

/// Relies on unicode_segmentation's `graphemes(true)`: the extended grapheme
/// clusters of `s`, in order; each is non-empty and together they spell `s`.
#[verifier::external_body]
pub(crate) fn split_graphemes(s: &str) -> (r: Vec<String>)
    ensures
        r@.len() == grapheme_clusters(s@).len(),
        forall|i: int| 0 <= i < r@.len() ==> #[trigger] r@[i]@ == grapheme_clusters(s@)[i],
        joined(r@.map_values(|g: String| g@)) == s@,
        forall|i: int| 0 <= i < r@.len() ==> #[trigger] r@[i]@.len() > 0,
{
    s.graphemes(true).map(|g| g.to_string()).collect()
}

/// Relies on unicode_width's `UnicodeWidthStr::width`: the columns `s` takes.
#[verifier::external_body]
pub(crate) fn str_width(s: &str) -> (r: usize)
    ensures
        r == display_width(s@),
{
    s.width()
}

/// Characters with Unicode's White_Space property.
pub open spec fn is_whitespace_char(c: char) -> bool {
    let u = c as u32;
    (0x9 <= u <= 0xd) || u == 0x20 || u == 0x85 || u == 0xa0 || u == 0x1680 || (0x2000 <= u
        <= 0x200a) || u == 0x2028 || u == 0x2029 || u == 0x202f || u == 0x205f || u == 0x3000
}

/// Characters of the general category Cc (control codes).
pub open spec fn is_control_char(c: char) -> bool {
    let u = c as u32;
    u <= 0x1f || (0x7f <= u <= 0x9f)
}

/// Whether `c` is a whitespace character.
pub fn is_whitespace(c: char) -> (r: bool)
    ensures
        r == is_whitespace_char(c),
{
    let u = c as u32;
    (0x9 <= u && u <= 0xd) || u == 0x20 || u == 0x85 || u == 0xa0 || u == 0x1680 || (0x2000 <= u
        && u <= 0x200a) || u == 0x2028 || u == 0x2029 || u == 0x202f || u == 0x205f || u == 0x3000
}

/// Whether `c` is a control character.
pub fn is_control(c: char) -> (r: bool)
    ensures
        r == is_control_char(c),
{
    let u = c as u32;
    u <= 0x1f || (0x7f <= u && u <= 0x9f)
}

/// Every character of `g` is whitespace.
pub open spec fn all_whitespace(g: Seq<char>) -> bool {
    forall|i: int| 0 <= i < g.len() ==> #[trigger] is_whitespace_char(g[i])
}

/// The character shown in place of a grapheme that takes `width` columns,
/// if it is not shown as itself: a tab shows as a space, other visible
/// whitespace as an open box, a lone invisible control character as a
/// rectangle and any other invisible grapheme as a middle dot.
pub open spec fn replacement_with(g: Seq<char>, width: usize) -> Option<char> {
    if g == seq![' '] {
        None
    } else if g == seq!['\t'] {
        Some(' ')
    } else if width > 0 && all_whitespace(g) {
        Some('␣')
    } else if width == 0 {
        if g.len() == 1 && is_control_char(g[0]) {
            Some('▯')
        } else {
            Some('·')
        }
    } else {
        None
    }
}

/// The character shown in place of a grapheme, if any.
pub open spec fn replacement_of(g: Seq<char>) -> Option<char> {
    replacement_with(g, display_width(g))
}

/// How many columns a grapheme that takes `width` columns is given on
/// screen: one, or two for a wide glyph that is shown as itself.
pub open spec fn columns_with(g: Seq<char>, width: usize) -> nat {
    if replacement_with(g, width) is None && width >= 2 {
        2
    } else {
        1
    }
}

/// How many columns a grapheme is given on screen.
pub open spec fn columns_of(g: Seq<char>) -> nat {
    columns_with(g, display_width(g))
}

/// The replacement character of `g`, computed.
pub fn replacement_character(g: &str) -> (r: Option<char>)
    ensures
        r == replacement_of(g@),
{
    replacement_for(g, str_width(g))
}

/// The replacement character of a grapheme `g` that takes `width` columns.
pub fn replacement_for(g: &str, width: usize) -> (r: Option<char>)
    ensures
        r == replacement_with(g@, width),
{
    let cs = chars_of(g);
    if cs.len() == 1 && cs[0] == ' ' {
        assert(g@ =~= seq![' ']);
        return None;
    }
    if cs.len() == 1 && cs[0] == '\t' {
        assert(g@ =~= seq!['\t']);
        return Some(' ');
    }
    assert(g@ != seq![' ']) by {
        if g@ == seq![' '] {
            assert(cs@[0] == ' ');
        }
    }
    assert(g@ != seq!['\t']) by {
        if g@ == seq!['\t'] {
            assert(cs@[0] == '\t');
        }
    }
    if width > 0 {
        let mut all_ws = true;
        let mut i: usize = 0;
        while i < cs.len()
            invariant
                i <= cs@.len(),
                cs@ == g@,
                all_ws == (forall|j: int| 0 <= j < i ==> #[trigger] is_whitespace_char(cs@[j])),
            decreases cs.len() - i,
        {
            all_ws = all_ws && is_whitespace(cs[i]);
            i = i + 1;
        }
        if all_ws {
            Some('␣')
        } else {
            None
        }
    } else if cs.len() == 1 && is_control(cs[0]) {
        Some('▯')
    } else {
        Some('·')
    }
}

} // verus!
