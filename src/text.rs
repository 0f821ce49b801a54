//! Byte-level facts about UTF-8 text and the small string operations the
//! editor's text model is built from.

use vstd::prelude::*;
use vstd::utf8::*;

verus! {

broadcast use vstd::string::group_string_axioms;

/// Number of bytes in the UTF-8 encoding of `s`.
pub open spec fn blen(s: Seq<char>) -> nat {
    encode_utf8(s).len()
}

/// The concatenation of a sequence of pieces, built from the back.
pub open spec fn joined(gs: Seq<Seq<char>>) -> Seq<char>
    decreases gs.len(),
{
    if gs.len() == 0 {
        Seq::empty()
    } else {
        joined(gs.drop_last()) + gs.last()
    }
}

/// Joining distributes over concatenation.
pub proof fn lemma_joined_concat(a: Seq<Seq<char>>, b: Seq<Seq<char>>)
    ensures
        joined(a + b) == joined(a) + joined(b),
    decreases b.len(),
{
    if b.len() == 0 {
        assert(a + b =~= a);
        assert(joined(a) + joined(b) =~= joined(a));
    } else {
        assert((a + b).drop_last() =~= a + b.drop_last());
        lemma_joined_concat(a, b.drop_last());
        assert(joined(a) + joined(b) =~= joined(a) + joined(b.drop_last()) + b.last());
    }
}

/// Joining a prefix gives a prefix of the whole.
pub proof fn lemma_joined_take(gs: Seq<Seq<char>>, i: int)
    requires
        0 <= i <= gs.len(),
    ensures
        joined(gs) == joined(gs.take(i)) + joined(gs.skip(i)),
        joined(gs).take(joined(gs.take(i)).len() as int) == joined(gs.take(i)),
        joined(gs).skip(joined(gs.take(i)).len() as int) == joined(gs.skip(i)),
{
    assert(gs =~= gs.take(i) + gs.skip(i));
    lemma_joined_concat(gs.take(i), gs.skip(i));
    assert(joined(gs).take(joined(gs.take(i)).len() as int) =~= joined(gs.take(i)));
    assert(joined(gs).skip(joined(gs.take(i)).len() as int) =~= joined(gs.skip(i)));
}

/// One more piece extends the joined prefix by that piece.
pub proof fn lemma_joined_take_next(gs: Seq<Seq<char>>, i: int)
    requires
        0 <= i < gs.len(),
    ensures
        joined(gs.take(i + 1)) == joined(gs.take(i)) + gs[i],
{
    assert(gs.take(i + 1).drop_last() =~= gs.take(i));
}

/// Encoding distributes over concatenation.
pub proof fn lemma_encode_concat(a: Seq<char>, b: Seq<char>)
    ensures
        encode_utf8(a + b) == encode_utf8(a) + encode_utf8(b),
    decreases a.len(),
{
    if a.len() == 0 {
        assert(a + b =~= b);
        assert(encode_utf8(a) + encode_utf8(b) =~= encode_utf8(b));
    } else {
        assert((a + b).drop_first() =~= a.drop_first() + b);
        assert((a + b)[0] == a[0]);
        lemma_encode_concat(a.drop_first(), b);
        assert(encode_utf8(a + b) =~= encode_utf8(a) + encode_utf8(b));
    }
}

/// Encoding lengths add up over concatenation.
pub proof fn lemma_blen_concat(a: Seq<char>, b: Seq<char>)
    ensures
        blen(a + b) == blen(a) + blen(b),
{
    lemma_encode_concat(a, b);
}

/// The encoding of a prefix is the prefix of the encoding.
pub proof fn lemma_encode_take(s: Seq<char>, k: int)
    requires
        0 <= k <= s.len(),
    ensures
        encode_utf8(s.take(k)) == encode_utf8(s).take(blen(s.take(k)) as int),
        encode_utf8(s.skip(k)) == encode_utf8(s).skip(blen(s.take(k)) as int),
{
    assert(s =~= s.take(k) + s.skip(k));
    lemma_encode_concat(s.take(k), s.skip(k));
    assert(encode_utf8(s.take(k)) =~= encode_utf8(s).take(blen(s.take(k)) as int));
    assert(encode_utf8(s.skip(k)) =~= encode_utf8(s).skip(blen(s.take(k)) as int));
}

/// The encoding of a slice is the matching slice of the encoding.
pub proof fn lemma_encode_subrange(s: Seq<char>, i: int, j: int)
    requires
        0 <= i <= j <= s.len(),
    ensures
        encode_utf8(s.subrange(i, j)) == encode_utf8(s).subrange(
            blen(s.take(i)) as int,
            blen(s.take(j)) as int,
        ),
        blen(s.take(i)) <= blen(s.take(j)),
{
    lemma_encode_take(s, i);
    lemma_encode_take(s, j);
    assert(s =~= s.take(j) + s.skip(j));
    lemma_blen_concat(s.take(j), s.skip(j));
    assert(s.take(j) =~= s.take(i) + s.subrange(i, j));
    lemma_encode_concat(s.take(i), s.subrange(i, j));
    let e = encode_utf8(s);
    let bi = blen(s.take(i)) as int;
    let bj = blen(s.take(j)) as int;
    assert(e.take(bj) == encode_utf8(s.take(i)) + encode_utf8(s.subrange(i, j)));
    assert forall|k: int| 0 <= k < encode_utf8(s.subrange(i, j)).len() implies encode_utf8(
        s.subrange(i, j),
    )[k] == e[bi + k] by {
        assert(e.take(bj)[bi + k] == e[bi + k]);
    }
    assert(encode_utf8(s.subrange(i, j)) =~= encode_utf8(s).subrange(
        blen(s.take(i)) as int,
        blen(s.take(j)) as int,
    ));
}

/// Texts with the same encoding are the same.
pub proof fn lemma_encode_injective(a: Seq<char>, b: Seq<char>)
    requires
        encode_utf8(a) == encode_utf8(b),
    ensures
        a == b,
{
    encode_utf8_decode_utf8(a);
    encode_utf8_decode_utf8(b);
}

/// Every character takes at least one byte.
pub proof fn lemma_blen_ge_len(s: Seq<char>)
    ensures
        blen(s) >= s.len(),
    decreases s.len(),
{
    if s.len() > 0 {
        lemma_blen_ge_len(s.drop_first());
    }
}

/// A longer prefix takes strictly more bytes.
pub proof fn lemma_blen_prefix_strict(s: Seq<char>, i: int, j: int)
    requires
        0 <= i < j <= s.len(),
    ensures
        blen(s.take(i)) < blen(s.take(j)),
{
    assert(s.take(j) =~= s.take(i) + s.subrange(i, j));
    lemma_blen_concat(s.take(i), s.subrange(i, j));
    lemma_blen_ge_len(s.subrange(i, j));
}

/// Byte offsets of prefixes determine the prefix.
pub proof fn lemma_blen_prefix_injective(s: Seq<char>, i: int, j: int)
    requires
        0 <= i <= s.len(),
        0 <= j <= s.len(),
        blen(s.take(i)) == blen(s.take(j)),
    ensures
        i == j,
{
    if i < j {
        lemma_blen_prefix_strict(s, i, j);
    } else if j < i {
        lemma_blen_prefix_strict(s, j, i);
    }
}

/// The byte length of a string.
pub fn byte_len(s: &str) -> (r: usize)
    ensures
        r == blen(s@),
{
    s.as_bytes().len()
}

/// True when byte offset `b` falls between two characters of `s`.
pub open spec fn at_boundary(s: Seq<char>, b: int) -> bool {
    exists|k: int| 0 <= k <= s.len() && #[trigger] blen(s.take(k)) == b
}

/// Every prefix ends on a character boundary.
pub proof fn lemma_prefix_at_boundary(s: Seq<char>, k: int)
    requires
        0 <= k <= s.len(),
    ensures
        at_boundary(s, blen(s.take(k)) as int),
{
}

/// The decimal digit for `d < 10`.
pub open spec fn digit_char(d: nat) -> char {
    if d == 0 { '0' } else if d == 1 { '1' } else if d == 2 { '2' } else if d == 3 { '3' }
    else if d == 4 { '4' } else if d == 5 { '5' } else if d == 6 { '6' } else if d == 7 { '7' }
    else if d == 8 { '8' } else { '9' }
}

/// The decimal notation of `n`.
pub open spec fn decimal(n: nat) -> Seq<char>
    decreases n,
{
    if n < 10 {
        seq![digit_char(n)]
    } else {
        decimal(n / 10).push(digit_char(n % 10))
    }
}

/// Appends the decimal notation of `n`.
pub fn push_decimal(s: &mut String, n: usize)
    ensures
        final(s)@ == old(s)@ + decimal(n as nat),
    decreases n,
{
    if n >= 10 {
        push_decimal(s, n / 10);
    }
    let d = n % 10;
    let c = if d == 0 { '0' } else if d == 1 { '1' } else if d == 2 { '2' } else if d == 3 { '3' }
    else if d == 4 { '4' } else if d == 5 { '5' } else if d == 6 { '6' } else if d == 7 { '7' }
    else if d == 8 { '8' } else { '9' };
    string_push(s, c);
    proof {
        if n >= 10 {
            assert(old(s)@ + decimal(n as nat) =~= old(s)@ + decimal((n / 10) as nat) + seq![c]);
        } else {
            assert(old(s)@ + decimal(n as nat) =~= old(s)@.push(c));
        }
    }
}

/// The number of bytes in the encoding of `c`.
pub fn char_len(c: char) -> (r: usize)
    ensures
        r == blen(seq![c]),
{
    proof {
        assert(seq![c].drop_first() =~= Seq::<char>::empty());
        assert(encode_utf8(seq![c]) == encode_scalar(c as u32) + encode_utf8(Seq::<char>::empty()));
    }
    let u = c as u32;
    if u <= 0x7f {
        1
    } else if u <= 0x7ff {
        2
    } else if u <= 0xffff {
        proof {
            char_is_scalar(c);
        }
        3
    } else {
        4
    }
}

/// Whether byte offset `b` falls between two characters of `s`.
pub fn is_boundary(s: &str, b: usize) -> (r: bool)
    ensures
        r == at_boundary(s@, b as int),
{
    let cs = chars_of(s);
    let mut pos: usize = 0;
    let mut i: usize = 0;
    let total = byte_len(s);
    proof {
        assert(cs@.take(0) =~= Seq::<char>::empty());
    }
    while i < cs.len()
        invariant
            cs@ == s@,
            total == blen(s@),
            i <= cs@.len(),
            pos == blen(cs@.take(i as int)),
            forall|k: int| 0 <= k < i ==> #[trigger] blen(cs@.take(k)) != b,
        decreases cs.len() - i,
    {
        if pos == b {
            return true;
        }
        let n = char_len(cs[i]);
        proof {
            assert(cs@.take(i as int + 1) =~= cs@.take(i as int) + seq![cs@[i as int]]);
            lemma_blen_concat(cs@.take(i as int), seq![cs@[i as int]]);
            assert(cs@ =~= cs@.take(i as int + 1) + cs@.skip(i as int + 1));
            lemma_blen_concat(cs@.take(i as int + 1), cs@.skip(i as int + 1));
        }
        pos = pos + n;
        i = i + 1;
    }
    assert(cs@.take(i as int) =~= cs@);
    if pos == b {
        true
    } else {
        false
    }
}

/// `n` spaces.
pub open spec fn spaces(n: nat) -> Seq<char> {
    Seq::new(n, |i: int| ' ')
}

/// Appends `n` spaces.
pub fn push_spaces(s: &mut String, n: usize)
    ensures
        final(s)@ == old(s)@ + spaces(n as nat),
{
    let mut i: usize = 0;
    while i < n
        invariant
            i <= n,
            s@ == old(s)@ + spaces(i as nat),
        decreases n - i,
    {
        string_push(s, ' ');
        i = i + 1;
        assert(s@ =~= old(s)@ + spaces(i as nat));
    }
}

/// The characters of a string, in order.
pub fn chars_of(s: &str) -> (r: Vec<char>)
    ensures
        r@ == s@,
{
    let mut r: Vec<char> = Vec::new();
    for c in it: s.chars()
        invariant
            it.seq() == s@,
            r@ == it.seq().take(it.index() as int),
    {
        r.push(c);
    }
    r
}

/// Relies on `String::push`: appends one character.
#[verifier::external_body]
pub(crate) fn string_push(s: &mut String, c: char)
    ensures
        final(s)@ == old(s)@.push(c),
{
    s.push(c)
}

/// Relies on `String::push_str`: appends a string.
#[verifier::external_body]
pub(crate) fn string_push_str(s: &mut String, t: &str)
    ensures
        final(s)@ == old(s)@ + t@,
{
    s.push_str(t)
}

/// Relies on `String::insert`: puts `c` at byte offset `idx`, which must fall
/// between two characters.
#[verifier::external_body]
pub(crate) fn string_insert(s: &mut String, idx: usize, c: char)
    requires
        at_boundary(old(s)@, idx as int),
    ensures
        forall|k: int|
            0 <= k <= old(s)@.len() && #[trigger] blen(old(s)@.take(k)) == idx ==> final(s)@ == old(
                s,
            )@.take(k).push(c) + old(s)@.skip(k),
{
    s.insert(idx, c)
}

/// Relies on `String::replace_range`: replaces the bytes `start..end`, both
/// between characters, with `t`.
#[verifier::external_body]
pub(crate) fn string_replace_range(s: &mut String, start: usize, end: usize, t: &str)
    requires
        start <= end,
        at_boundary(old(s)@, start as int),
        at_boundary(old(s)@, end as int),
    ensures
        forall|i: int, j: int|
            0 <= i <= j <= old(s)@.len() && #[trigger] blen(old(s)@.take(i)) == start
                && #[trigger] blen(old(s)@.take(j)) == end ==> final(s)@ == old(s)@.take(i) + t@
                + old(s)@.skip(j),
{
    s.replace_range(start..end, t)
}

/// Relies on `String::split_off`: keeps the bytes before `idx`, which must
/// fall between two characters, and returns the rest.
#[verifier::external_body]
pub(crate) fn string_split_off(s: &mut String, idx: usize) -> (r: String)
    requires
        at_boundary(old(s)@, idx as int),
    ensures
        forall|k: int|
            0 <= k <= old(s)@.len() && #[trigger] blen(old(s)@.take(k)) == idx ==> final(s)@ == old(
                s,
            )@.take(k) && r@ == old(s)@.skip(k),
{
    s.split_off(idx)
}

/// Relies on indexing a `str` by a byte range: the text between two
/// character boundaries.
#[verifier::external_body]
pub(crate) fn str_slice(s: &str, start: usize, end: usize) -> (r: &str)
    requires
        start <= end,
        at_boundary(s@, start as int),
        at_boundary(s@, end as int),
    ensures
        forall|i: int, j: int|
            0 <= i <= j <= s@.len() && #[trigger] blen(s@.take(i)) == start && #[trigger] blen(
                s@.take(j),
            ) == end ==> r@ == s@.subrange(i, j),
{
    &s[start..end]
}

/// A new string holding `s`.
pub fn to_owned_string(s: &str) -> (r: String)
    ensures
        r@ == s@,
{
    s.to_owned()
}

} // verus!
