//! Cutting text into grapheme clusters and word bounds, and the searches an
//! editor runs over the pieces.
//!
//! The segmentation itself is Unicode's (UAX #29) and comes from
//! `unicode-segmentation`; what is here is what the editor asks of the pieces:
//! the last one starting before a byte offset, the first one ending after it,
//! the nearest boundary at or before an arbitrary offset.
//!
//! Offsets are bytes into the UTF-8 encoding of the text, which is what every
//! Rust string operation uses.

use unicode_segmentation::UnicodeSegmentation;
use vstd::prelude::*;
use vstd::string::StringSliceAdditionalSpecFns;
use vstd::utf8::*;

verus! {

broadcast use vstd::utf8::group_utf8_lib;

/// One piece of a string: where it starts, in bytes, and what it is.
#[derive(Debug, Clone, PartialEq)]
pub struct Segment {
    pub start: usize,
    pub text: String,
}

/// The UTF-8 encoding of a character sequence.
pub open spec fn bytes(text: Seq<char>) -> Seq<u8> {
    encode_utf8(text)
}

/// The pieces as plain values: offset and characters.
pub open spec fn pieces(segments: Seq<Segment>) -> Seq<(usize, Seq<char>)> {
    segments.map_values(|s: Segment| (s.start, s.text@))
}

/// Where a piece ends, in bytes.
pub open spec fn end_of(piece: (usize, Seq<char>)) -> int {
    piece.0 + bytes(piece.1).len()
}

/// `piece` is a slice of `text`: its bytes are the text's bytes between its
/// start and its end, and both of those fall on character boundaries.
pub open spec fn is_slice_of(text: Seq<char>, piece: (usize, Seq<char>)) -> bool {
    let all = bytes(text);
    &&& end_of(piece) <= all.len()
    &&& all.subrange(piece.0 as int, end_of(piece)) == bytes(piece.1)
    &&& is_char_boundary(all, piece.0 as int)
    &&& is_char_boundary(all, end_of(piece))
}

/// Every piece is a slice of `text`.
pub open spec fn slices_of(text: Seq<char>, pieces: Seq<(usize, Seq<char>)>) -> bool {
    forall|i: int| 0 <= i < pieces.len() ==> is_slice_of(text, #[trigger] pieces[i])
}

/// The pieces lie end to end over the whole text: the first starts at its
/// first byte, each next one starts where the one before it ends, and the last
/// ends at its last byte; an empty text has none.
pub open spec fn tiles(text: Seq<char>, pieces: Seq<(usize, Seq<char>)>) -> bool {
    &&& (pieces.len() == 0 <==> bytes(text).len() == 0)
    &&& pieces.len() > 0 ==> pieces[0].0 == 0 && end_of(pieces.last()) == bytes(text).len()
    &&& forall|i: int, j: int|
        #![trigger pieces[i], pieces[j]]
        0 <= i && j == i + 1 && j < pieces.len() ==> pieces[j].0 == end_of(pieces[i])
}

/// No piece is empty.
pub open spec fn none_empty(pieces: Seq<(usize, Seq<char>)>) -> bool {
    forall|i: int| 0 <= i < pieces.len() ==> bytes((#[trigger] pieces[i]).1).len() > 0
}

/// The extended grapheme clusters of a text, with their byte offsets, in the
/// order `UnicodeSegmentation::grapheme_indices` gives them.
pub uninterp spec fn grapheme_pieces(text: Seq<char>) -> Seq<(usize, Seq<char>)>;

/// The word-bound pieces of a text, with their byte offsets, in the order
/// `UnicodeSegmentation::split_word_bound_indices` gives them.
pub uninterp spec fn word_pieces(text: Seq<char>) -> Seq<(usize, Seq<char>)>;

/// Whether a character has Unicode's White_Space property, which is what
/// `char::is_whitespace` and `str::trim` go by.
pub open spec fn is_white_space(c: char) -> bool {
    let n = c as u32;
    ||| 0x9 <= n <= 0xd
    ||| n == 0x20
    ||| n == 0x85
    ||| n == 0xa0
    ||| n == 0x1680
    ||| 0x2000 <= n <= 0x200a
    ||| n == 0x2028
    ||| n == 0x2029
    ||| n == 0x202f
    ||| n == 0x205f
    ||| n == 0x3000
}

/// A text with its leading white space taken off.
pub open spec fn without_leading_white_space(text: Seq<char>) -> Seq<char>
    decreases text.len(),
{
    if text.len() > 0 && is_white_space(text[0]) {
        without_leading_white_space(text.drop_first())
    } else {
        text
    }
}

/// A text with its trailing white space taken off.
pub open spec fn without_trailing_white_space(text: Seq<char>) -> Seq<char>
    decreases text.len(),
{
    if text.len() > 0 && is_white_space(text.last()) {
        without_trailing_white_space(text.drop_last())
    } else {
        text
    }
}

/// A text with its leading and trailing white space taken off.
pub open spec fn trimmed(text: Seq<char>) -> Seq<char> {
    without_trailing_white_space(without_leading_white_space(text))
}

/// `UnicodeSegmentation::grapheme_indices(text, true)`, collected.
///
/// Trusted: the result is the named `grapheme_pieces` of the text; each
/// piece is a slice of it (the crate hands out `&text[start..next]`); and the
/// pieces lie end to end over the whole text, none empty (the crate's cursor
/// starts at 0 and each step moves it to the next boundary strictly after it,
/// until it meets the end). Which clusters Unicode's rules make is not stated
/// here.
#[verifier::external_body]
pub(crate) fn grapheme_segments(text: &str) -> (segments: Vec<Segment>)
    ensures
        pieces(segments@) == grapheme_pieces(text@),
        slices_of(text@, pieces(segments@)),
        tiles(text@, pieces(segments@)),
        none_empty(pieces(segments@)),
{
    text.grapheme_indices(true).map(|(start, g)| Segment { start, text: g.to_string() }).collect()
}

/// `UnicodeSegmentation::split_word_bound_indices(text)`, collected.
///
/// Trusted: the result is the named `word_pieces` of the text; each piece is
/// a slice of it; and the pieces lie end to end over the whole text (the
/// crate hands out `&rest[..idx]` and goes on with `&rest[idx..]` until
/// nothing is left). Where Unicode's word rules put the bounds is not stated
/// here.
#[verifier::external_body]
pub(crate) fn word_segments(text: &str) -> (segments: Vec<Segment>)
    ensures
        pieces(segments@) == word_pieces(text@),
        slices_of(text@, pieces(segments@)),
        tiles(text@, pieces(segments@)),
{
    text.split_word_bound_indices().map(|(start, w)| Segment { start, text: w.to_string() }).collect()
}

/// `str::trim`.
///
/// Trusted: the result is its argument with the leading and trailing
/// characters that have the White_Space property taken off, as std documents
/// it.
#[verifier::external_body]
fn trim(text: &str) -> (out: &str)
    ensures
        out@ == trimmed(text@),
{
    text.trim()
}

/// The start of the last piece, among the first `n`, that starts before `at`.
pub open spec fn start_below_within(pieces: Seq<(usize, Seq<char>)>, at: int, n: int) -> Option<usize>
    decreases n,
{
    if n <= 0 {
        None
    } else if pieces[n - 1].0 < at {
        Some(pieces[n - 1].0)
    } else {
        start_below_within(pieces, at, n - 1)
    }
}

/// The start of the last piece that starts before `at`.
pub open spec fn start_below(pieces: Seq<(usize, Seq<char>)>, at: int) -> Option<usize> {
    start_below_within(pieces, at, pieces.len() as int)
}

/// The start of the last piece, among the first `n`, that starts at or before `at`.
pub open spec fn start_at_or_below_within(pieces: Seq<(usize, Seq<char>)>, at: int, n: int) -> Option<usize>
    decreases n,
{
    if n <= 0 {
        None
    } else if pieces[n - 1].0 <= at {
        Some(pieces[n - 1].0)
    } else {
        start_at_or_below_within(pieces, at, n - 1)
    }
}

/// The start of the last piece that starts at or before `at`.
pub open spec fn start_at_or_below(pieces: Seq<(usize, Seq<char>)>, at: int) -> Option<usize> {
    start_at_or_below_within(pieces, at, pieces.len() as int)
}

/// The end of the first piece, from the `i`th on, that ends after `at`.
pub open spec fn end_above_from(pieces: Seq<(usize, Seq<char>)>, at: int, i: int) -> Option<int>
    decreases pieces.len() - i,
{
    if i < 0 || i >= pieces.len() {
        None
    } else if end_of(pieces[i]) > at {
        Some(end_of(pieces[i]))
    } else {
        end_above_from(pieces, at, i + 1)
    }
}

/// The end of the first piece that ends after `at`.
pub open spec fn end_above(pieces: Seq<(usize, Seq<char>)>, at: int) -> Option<int> {
    end_above_from(pieces, at, 0)
}

/// Whether some piece starts exactly at `at`.
pub open spec fn starts_at(pieces: Seq<(usize, Seq<char>)>, at: int) -> bool {
    exists|i: int| 0 <= i < pieces.len() && #[trigger] pieces[i].0 == at
}

/// The nearest boundary at or before `at`: `at` itself (clamped to the end
/// of the text) when it is a character boundary where a piece starts, or the
/// end of the text; otherwise the start of the last piece starting at or
/// before it; otherwise the start of the text.
pub open spec fn snapped(text: Seq<char>, pieces: Seq<(usize, Seq<char>)>, at: int) -> int {
    let len = bytes(text).len() as int;
    let a = if at < len { at } else { len };
    if (is_char_boundary(bytes(text), a) && starts_at(pieces, a)) || a == len {
        a
    } else {
        match start_at_or_below(pieces, a) {
            Some(s) => s as int,
            None => 0,
        }
    }
}

/// Whether a piece of text is nothing but white space.
pub open spec fn is_blank(text: Seq<char>) -> bool {
    trimmed(text).len() == 0
}

/// Taking off leading white space leaves nothing exactly when the text is all
/// white space, and otherwise leaves a text that starts with something else.
proof fn lemma_without_leading(text: Seq<char>)
    ensures
        without_leading_white_space(text).len() == 0 <==> forall|i: int|
            0 <= i < text.len() ==> is_white_space(#[trigger] text[i]),
        without_leading_white_space(text).len() > 0 ==> !is_white_space(
            without_leading_white_space(text)[0],
        ),
    decreases text.len(),
{
    if text.len() > 0 && is_white_space(text[0]) {
        let rest = text.drop_first();
        lemma_without_leading(rest);
        if forall|i: int| 0 <= i < rest.len() ==> is_white_space(#[trigger] rest[i]) {
            assert forall|i: int| 0 <= i < text.len() implies is_white_space(#[trigger] text[i]) by {
                if i > 0 {
                    assert(text[i] == rest[i - 1]);
                }
            }
        } else {
            let j = choose|j: int| 0 <= j < rest.len() && !is_white_space(#[trigger] rest[j]);
            assert(text[j + 1] == rest[j]);
        }
    } else if text.len() > 0 {
        assert(!is_white_space(text[0]));
    }
}

/// Taking off trailing white space never empties a text that starts with
/// something else.
proof fn lemma_without_trailing_keeps_the_first(text: Seq<char>)
    requires
        text.len() > 0,
        !is_white_space(text[0]),
    ensures
        without_trailing_white_space(text).len() > 0,
    decreases text.len(),
{
    if is_white_space(text.last()) {
        assert(text.len() > 1);
        assert(text.drop_last()[0] == text[0]);
        lemma_without_trailing_keeps_the_first(text.drop_last());
    }
}

/// A piece counts as blank for a word jump exactly when every character in
/// it is white space.
pub proof fn blank_means_nothing_but_white_space(text: Seq<char>)
    ensures
        is_blank(text) <==> forall|i: int| 0 <= i < text.len() ==> is_white_space(#[trigger] text[i]),
{
    lemma_without_leading(text);
    let lead = without_leading_white_space(text);
    if lead.len() > 0 {
        lemma_without_trailing_keeps_the_first(lead);
    } else {
        assert(without_trailing_white_space(lead) == lead);
    }
}

/// Where a word jump to the left from `caret` lands, looking at the pieces
/// from the `i`th on, with `found` the answer so far: the start of the last
/// piece that is not blank, among those before the first piece that starts
/// at or after `caret`.
pub open spec fn word_left_from(pieces: Seq<(usize, Seq<char>)>, caret: int, i: int, found: int) -> int
    decreases pieces.len() - i,
{
    if i < 0 || i >= pieces.len() {
        found
    } else if pieces[i].0 >= caret {
        found
    } else {
        word_left_from(
            pieces,
            caret,
            i + 1,
            if is_blank(pieces[i].1) { found } else { pieces[i].0 as int },
        )
    }
}

/// Where a word jump to the right from `caret` lands, looking at the pieces
/// from the `i`th on: the end of the first piece that starts after `caret`
/// and is not blank, or `len` when there is none.
pub open spec fn word_right_from(pieces: Seq<(usize, Seq<char>)>, caret: int, len: int, i: int) -> int
    decreases pieces.len() - i,
{
    if i < 0 || i >= pieces.len() {
        len
    } else if pieces[i].0 > caret && !is_blank(pieces[i].1) {
        end_of(pieces[i])
    } else {
        word_right_from(pieces, caret, len, i + 1)
    }
}

/// Every piece ends where a `usize` can say.
pub open spec fn ends_fit(pieces: Seq<(usize, Seq<char>)>) -> bool {
    forall|i: int| 0 <= i < pieces.len() ==> end_of(#[trigger] pieces[i]) <= usize::MAX
}

/// The last piece starting at or before `at`, among the first `n`, starts
/// at or before `at`, and is one of them.
proof fn lemma_start_at_or_below_is_a_start(p: Seq<(usize, Seq<char>)>, at: int, n: int)
    requires
        0 <= n <= p.len(),
    ensures
        start_at_or_below_within(p, at, n) matches Some(s) ==> s <= at && starts_at(p, s as int),
    decreases n,
{
    if n > 0 {
        if p[n - 1].0 <= at {
            assert(p[n - 1].0 == p[n - 1].0);
        } else {
            lemma_start_at_or_below_is_a_start(p, at, n - 1);
        }
    }
}

/// Snapping never moves an offset forward, and lands where a piece starts,
/// at the start of the text, or at its end: the edge of the grapheme the
/// offset was inside.
pub proof fn snapping_lands_on_the_edge_before(text: Seq<char>, p: Seq<(usize, Seq<char>)>, at: int)
    requires
        at >= 0,
    ensures
        snapped(text, p, at) <= at,
        snapped(text, p, at) <= bytes(text).len(),
        ({
            let s = snapped(text, p, at);
            s == 0 || s == bytes(text).len() || starts_at(p, s)
        }),
{
    let len = bytes(text).len() as int;
    let a = if at < len { at } else { len };
    lemma_start_at_or_below_is_a_start(p, a, p.len() as int);
}

/// Of pieces that lie end to end, a later one starts at or after the end of
/// an earlier one.
pub(crate) proof fn lemma_later_starts_after(text: Seq<char>, p: Seq<(usize, Seq<char>)>, i: int, j: int)
    requires
        tiles(text, p),
        0 <= i < j < p.len(),
    ensures
        p[j].0 >= end_of(p[i]),
    decreases j - i,
{
    if j == i + 1 {
        assert(p[j].0 == end_of(p[i]));
    } else {
        lemma_later_starts_after(text, p, i, j - 1);
        assert(p[j].0 == end_of(p[j - 1]));
    }
}

/// Of pieces that lie end to end, none empty, each starts before it ends and
/// ends inside the text.
pub(crate) proof fn lemma_piece_inside(text: Seq<char>, p: Seq<(usize, Seq<char>)>, k: int)
    requires
        tiles(text, p),
        none_empty(p),
        0 <= k < p.len(),
    ensures
        p[k].0 < end_of(p[k]) <= bytes(text).len(),
{
    assert(bytes(p[k].1).len() > 0);
    let last = p.len() - 1;
    if k < last {
        lemma_later_starts_after(text, p, k, last);
        assert(bytes(p[last].1).len() > 0);
    }
}

/// The last piece, among the first `n`, starting before an offset that lies
/// after the start of the `k`th and no later than its end is the `k`th.
pub(crate) proof fn lemma_start_below_is_the_holder(
    text: Seq<char>,
    p: Seq<(usize, Seq<char>)>,
    at: int,
    k: int,
    n: int,
)
    requires
        tiles(text, p),
        none_empty(p),
        0 <= k < n <= p.len(),
        p[k].0 < at <= end_of(p[k]),
    ensures
        start_below_within(p, at, n) == Some(p[k].0),
    decreases n,
{
    if n - 1 != k {
        lemma_later_starts_after(text, p, k, n - 1);
        lemma_start_below_is_the_holder(text, p, at, k, n - 1);
    }
}

/// The last piece, among the first `n`, starting at or before an offset
/// inside the `k`th is the `k`th.
proof fn lemma_start_at_or_below_is_the_holder(
    text: Seq<char>,
    p: Seq<(usize, Seq<char>)>,
    at: int,
    k: int,
    n: int,
)
    requires
        tiles(text, p),
        none_empty(p),
        0 <= k < n <= p.len(),
        p[k].0 <= at < end_of(p[k]),
    ensures
        start_at_or_below_within(p, at, n) == Some(p[k].0),
    decreases n,
{
    if n - 1 != k {
        lemma_later_starts_after(text, p, k, n - 1);
        lemma_start_at_or_below_is_the_holder(text, p, at, k, n - 1);
    }
}

/// The first piece, from the `i`th on, ending after an offset inside the
/// `k`th is the `k`th.
pub(crate) proof fn lemma_end_above_is_the_holder(
    text: Seq<char>,
    p: Seq<(usize, Seq<char>)>,
    at: int,
    k: int,
    i: int,
)
    requires
        tiles(text, p),
        none_empty(p),
        0 <= i <= k < p.len(),
        p[k].0 <= at < end_of(p[k]),
    ensures
        end_above_from(p, at, i) == Some(end_of(p[k])),
    decreases k - i,
{
    if i < k {
        lemma_later_starts_after(text, p, i, k);
        lemma_end_above_is_the_holder(text, p, at, k, i + 1);
    }
}

/// With pieces that lie end to end, none empty, snapping an offset inside
/// the `k`th piece lands on that piece's start, which is the greatest start
/// at or before the offset.
pub proof fn snapping_lands_on_the_start_of_the_piece_holding_it(
    text: Seq<char>,
    p: Seq<(usize, Seq<char>)>,
    at: int,
    k: int,
)
    requires
        tiles(text, p),
        none_empty(p),
        0 <= k < p.len(),
        p[k].0 <= at < end_of(p[k]),
    ensures
        snapped(text, p, at) == p[k].0,
        forall|j: int| 0 <= j < p.len() && (#[trigger] p[j]).0 <= at ==> p[j].0 <= p[k].0,
{
    lemma_piece_inside(text, p, k);
    assert forall|j: int| 0 <= j < p.len() && (#[trigger] p[j]).0 <= at implies p[j].0 <= p[k].0 by {
        if j > k {
            lemma_later_starts_after(text, p, k, j);
        } else if j < k {
            lemma_later_starts_after(text, p, j, k);
            assert(bytes(p[j].1).len() > 0);
        }
    }
    if starts_at(p, at) {
        let j = choose|j: int| 0 <= j < p.len() && #[trigger] p[j].0 == at;
        if j > k {
            lemma_later_starts_after(text, p, k, j);
        } else if j < k {
            lemma_later_starts_after(text, p, j, k);
            assert(bytes(p[j].1).len() > 0);
        }
    }
    lemma_start_at_or_below_is_the_holder(text, p, at, k, p.len() as int);
}

/// From the `i`th piece on, up to and including the `k`th, a word jump to
/// the left ends on the `k`th piece's start, whatever it had found so far.
proof fn lemma_word_left_reaches(
    text: Seq<char>,
    p: Seq<(usize, Seq<char>)>,
    caret: int,
    k: int,
    i: int,
    found: int,
)
    requires
        tiles(text, p),
        0 <= i <= k < p.len(),
        p[k].0 < caret <= end_of(p[k]),
        !is_blank(p[k].1),
    ensures
        word_left_from(p, caret, i, found) == p[k].0,
    decreases k - i,
{
    if i < k {
        lemma_later_starts_after(text, p, i, k);
        lemma_word_left_reaches(
            text,
            p,
            caret,
            k,
            i + 1,
            if is_blank(p[i].1) { found } else { p[i].0 as int },
        );
    } else {
        if k + 1 < p.len() {
            assert(p[k + 1].0 == end_of(p[k]));
        }
        assert(word_left_from(p, caret, k + 1, p[k].0 as int) == p[k].0);
    }
}

/// With word pieces that lie end to end, a word jump to the left from a
/// caret past the start of a word and no further than its end lands on that
/// word's start: the word the caret is in, or has just finished, and not one
/// before it.
pub proof fn a_word_jump_left_lands_on_the_word_the_caret_is_in(
    text: Seq<char>,
    p: Seq<(usize, Seq<char>)>,
    caret: int,
    k: int,
)
    requires
        tiles(text, p),
        0 <= k < p.len(),
        p[k].0 < caret <= end_of(p[k]),
        !is_blank(p[k].1),
    ensures
        word_left_from(p, caret, 0, 0) == p[k].0,
{
    lemma_word_left_reaches(text, p, caret, k, 0, 0);
}

/// From the `i`th piece on, a word jump to the right ends at the end of the
/// `k`th when that is the first piece from there starting after the caret
/// that is not blank.
proof fn lemma_word_right_reaches(p: Seq<(usize, Seq<char>)>, caret: int, len: int, k: int, i: int)
    requires
        0 <= i <= k < p.len(),
        p[k].0 > caret,
        !is_blank(p[k].1),
        forall|j: int| i <= j < k && (#[trigger] p[j]).0 > caret ==> is_blank(p[j].1),
    ensures
        word_right_from(p, caret, len, i) == end_of(p[k]),
    decreases k - i,
{
    if i < k {
        assert(p[i].0 > caret ==> is_blank(p[i].1));
        lemma_word_right_reaches(p, caret, len, k, i + 1);
    }
}

/// A word jump to the right lands at the end of the first word that starts
/// after the caret, skipping the white space before it, and not at the end
/// of any later word.
pub proof fn a_word_jump_right_lands_at_the_end_of_the_next_word(
    p: Seq<(usize, Seq<char>)>,
    caret: int,
    len: int,
    k: int,
)
    requires
        0 <= k < p.len(),
        p[k].0 > caret,
        !is_blank(p[k].1),
        forall|j: int| 0 <= j < k && (#[trigger] p[j]).0 > caret ==> is_blank(p[j].1),
    ensures
        word_right_from(p, caret, len, 0) == end_of(p[k]),
{
    lemma_word_right_reaches(p, caret, len, k, 0);
}

proof fn lemma_pieces_index(segments: Seq<Segment>, i: int)
    requires
        0 <= i < segments.len(),
    ensures
        pieces(segments)[i] == (segments[i].start, segments[i].text@),
        pieces(segments).len() == segments.len(),
{
}

/// The start of the last piece that starts before `at`, or `None`.
pub fn last_start_below(segments: &[Segment], at: usize) -> (found: Option<usize>)
    ensures
        found == start_below(pieces(segments@), at as int),
{
    let ghost p = pieces(segments@);
    let mut i: usize = segments.len();
    while i > 0
        invariant
            i <= segments@.len(),
            p == pieces(segments@),
            start_below(p, at as int) == start_below_within(p, at as int, i as int),
        decreases i,
    {
        proof {
            lemma_pieces_index(segments@, i - 1);
        }
        if segments[i - 1].start < at {
            return Some(segments[i - 1].start);
        }
        i = i - 1;
    }
    None
}

/// The start of the last piece that starts at or before `at`, or `None`.
pub fn last_start_at_or_below(segments: &[Segment], at: usize) -> (found: Option<usize>)
    ensures
        found == start_at_or_below(pieces(segments@), at as int),
{
    let ghost p = pieces(segments@);
    let mut i: usize = segments.len();
    while i > 0
        invariant
            i <= segments@.len(),
            p == pieces(segments@),
            start_at_or_below(p, at as int) == start_at_or_below_within(p, at as int, i as int),
        decreases i,
    {
        proof {
            lemma_pieces_index(segments@, i - 1);
        }
        if segments[i - 1].start <= at {
            return Some(segments[i - 1].start);
        }
        i = i - 1;
    }
    None
}

/// Whether some piece starts exactly at `at`.
pub fn has_start_at(segments: &[Segment], at: usize) -> (found: bool)
    ensures
        found == starts_at(pieces(segments@), at as int),
{
    let ghost p = pieces(segments@);
    let mut i: usize = 0;
    while i < segments.len()
        invariant
            i <= segments@.len(),
            p == pieces(segments@),
            p.len() == segments@.len(),
            forall|j: int| 0 <= j < i ==> #[trigger] p[j].0 != at,
        decreases segments@.len() - i,
    {
        proof {
            lemma_pieces_index(segments@, i as int);
        }
        if segments[i].start == at {
            assert(p[i as int].0 == at);
            return true;
        }
        i = i + 1;
    }
    false
}

/// The end of the first piece that ends after `at`, or `None`.
pub fn first_end_above(segments: &[Segment], at: usize) -> (found: Option<usize>)
    requires
        ends_fit(pieces(segments@)),
    ensures
        found matches Some(e) ==> end_above(pieces(segments@), at as int) == Some(e as int),
        found is None ==> end_above(pieces(segments@), at as int) is None,
{
    let ghost p = pieces(segments@);
    let mut i: usize = 0;
    while i < segments.len()
        invariant
            i <= segments@.len(),
            p == pieces(segments@),
            p.len() == segments@.len(),
            ends_fit(p),
            end_above(p, at as int) == end_above_from(p, at as int, i as int),
        decreases segments@.len() - i,
    {
        proof {
            lemma_pieces_index(segments@, i as int);
            assert(end_of(p[i as int]) <= usize::MAX);
        }
        let end: usize = segments[i].start + byte_len(segments[i].text.as_str());
        if end > at {
            return Some(end);
        }
        i = i + 1;
    }
    None
}

/// The length of a string in bytes.
pub fn byte_len(text: &str) -> (len: usize)
    ensures
        len == bytes(text@).len(),
{
    text.as_bytes().len()
}

/// The nearest grapheme boundary at or before `at` in `text`, given the
/// text's grapheme pieces.
pub fn snap_to(text: &str, segments: &[Segment], at: usize) -> (snapped_at: usize)
    ensures
        snapped_at == snapped(text@, pieces(segments@), at as int),
{
    let len: usize = byte_len(text);
    let a: usize = if at < len { at } else { len };
    if text.is_char_boundary(a) && has_start_at(segments, a) {
        return a;
    }
    if a == len {
        return a;
    }
    match last_start_at_or_below(segments, a) {
        Some(start) => start,
        None => 0,
    }
}

/// Where alt+left from `caret` lands, given the text's word pieces.
pub fn word_start_before(words: &[Segment], caret: usize) -> (at: usize)
    ensures
        at == word_left_from(pieces(words@), caret as int, 0, 0),
{
    let ghost p = pieces(words@);
    let mut at: usize = 0;
    let mut i: usize = 0;
    while i < words.len()
        invariant
            i <= words@.len(),
            p == pieces(words@),
            p.len() == words@.len(),
            word_left_from(p, caret as int, 0, 0) == word_left_from(p, caret as int, i as int, at as int),
        decreases words@.len() - i,
    {
        proof {
            lemma_pieces_index(words@, i as int);
        }
        if words[i].start >= caret {
            return at;
        }
        if !trim(words[i].text.as_str()).is_empty() {
            at = words[i].start;
        }
        i = i + 1;
    }
    at
}

/// Where alt+right from `caret` lands, given the text's word pieces and the
/// text's length in bytes.
pub fn word_end_after(words: &[Segment], caret: usize, len: usize) -> (at: usize)
    requires
        ends_fit(pieces(words@)),
    ensures
        at == word_right_from(pieces(words@), caret as int, len as int, 0),
{
    let ghost p = pieces(words@);
    let mut i: usize = 0;
    while i < words.len()
        invariant
            i <= words@.len(),
            p == pieces(words@),
            p.len() == words@.len(),
            ends_fit(p),
            word_right_from(p, caret as int, len as int, 0) == word_right_from(p, caret as int, len as int, i as int),
        decreases words@.len() - i,
    {
        proof {
            lemma_pieces_index(words@, i as int);
            assert(end_of(p[i as int]) <= usize::MAX);
        }
        if words[i].start > caret && !trim(words[i].text.as_str()).is_empty() {
            return words[i].start + byte_len(words[i].text.as_str());
        }
        i = i + 1;
    }
    len
}

} // verus!
