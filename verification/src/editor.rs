//! One editable string, and everything that can be done to it.
//!
//! No rendering and no events: an [`Editor`] is a string, where the caret is,
//! where the selection started, and what the input method is in the middle of
//! composing. That makes the interesting parts -- what backspace does to a
//! selection, where the caret lands after a word jump, what happens when a
//! Hangul syllable is half typed -- checkable without a window.
//!
//! Indices are byte offsets into the string, which is what everything that
//! touches Rust text uses, and every operation moves them by whole **grapheme
//! clusters** rather than by chars. A char is not a character: `가` typed on a
//! decomposing keyboard is three of them, an emoji with a skin tone is two, and
//! a backspace that eats one leaves a fragment on screen.

use vstd::prelude::*;
use vstd::string::StringExecFns;
use vstd::string::StringSliceAdditionalSpecFns;
use vstd::utf8::*;

use crate::segment::{
    byte_len, bytes, end_above, first_end_above, grapheme_pieces, grapheme_segments,
    last_start_below, pieces, slices_of, snap_to, snapped, start_at_or_below,
    start_at_or_below_within, start_below, start_below_within, end_above_from, word_end_after,
    word_left_from, word_pieces, word_right_from, word_segments, word_start_before, ends_fit,
    is_slice_of, end_of, Segment, tiles, none_empty, lemma_piece_inside,
    lemma_start_below_is_the_holder, lemma_end_above_is_the_holder, starts_at,
};

verus! {

broadcast use vstd::utf8::group_utf8_lib;

/// What the input method is composing, before it is committed.
///
/// Hangul, Japanese and Chinese are all typed this way: keystrokes go to the
/// system's input method, which hands back a string that is not yet part of
/// the document and replaces it as it changes. It is drawn at the caret and
/// underlined, and it is *not* in [`Editor::text`] -- putting it there would
/// mean every reader of the field seeing half-finished syllables.
#[derive(Debug, Clone, PartialEq)]
pub struct Preedit {
    pub text: String,
    /// The input method's own caret inside the composing text, in bytes.
    pub cursor: Option<(usize, usize)>,
}

impl Default for Preedit {
    /// Nothing being composed.
    fn default() -> (preedit: Self)
        ensures
            preedit.text@ == Seq::<char>::empty(),
            preedit.cursor is None,
    {
        Preedit { text: String::new(), cursor: None }
    }
}

/// An editable string.
#[derive(Debug, Clone, PartialEq)]
pub struct Editor {
    text: String,
    caret: usize,
    /// Where a selection began. Equal to the caret when there is no selection.
    anchor: usize,
    preedit: Preedit,
}

/// An editor as a value: its text, the caret and the selection's anchor as
/// byte offsets, and what the input method is composing.
pub struct EditorView {
    pub text: Seq<char>,
    pub caret: usize,
    pub anchor: usize,
    pub preedit: Seq<char>,
    pub cursor: Option<(usize, usize)>,
}

/// The text with the bytes from `from` to `to` taken out.
pub open spec fn cut(text: Seq<char>, from: int, to: int) -> Seq<char> {
    let all = bytes(text);
    decode_utf8(all.subrange(0, from)) + decode_utf8(all.subrange(to, all.len() as int))
}

/// The text with `what` put in at byte offset `at`.
pub open spec fn splice(text: Seq<char>, at: int, what: Seq<char>) -> Seq<char> {
    let all = bytes(text);
    decode_utf8(all.subrange(0, at)) + what + decode_utf8(all.subrange(at, all.len() as int))
}

impl EditorView {
    /// A field holding `text`, with the caret at its end and nothing composing.
    pub open spec fn fresh(text: Seq<char>) -> EditorView {
        EditorView {
            text,
            caret: bytes(text).len() as usize,
            anchor: bytes(text).len() as usize,
            preedit: Seq::empty(),
            cursor: None,
        }
    }

    /// The length of the text in bytes.
    pub open spec fn len(self) -> nat {
        bytes(self.text).len()
    }

    /// The caret and the anchor are inside the text, on character boundaries.
    pub open spec fn well_placed(self) -> bool {
        &&& self.len() <= usize::MAX
        &&& self.caret <= self.len()
        &&& self.anchor <= self.len()
        &&& is_char_boundary(bytes(self.text), self.caret as int)
        &&& is_char_boundary(bytes(self.text), self.anchor as int)
    }

    /// The selected range, low to high, or `None` when nothing is selected.
    pub open spec fn selection(self) -> Option<(usize, usize)> {
        if self.caret != self.anchor {
            if self.caret < self.anchor {
                Some((self.caret, self.anchor))
            } else {
                Some((self.anchor, self.caret))
            }
        } else {
            None
        }
    }

    /// What is selected, or nothing.
    pub open spec fn selected_text(self) -> Seq<char> {
        match self.selection() {
            Some((from, to)) => decode_utf8(bytes(self.text).subrange(from as int, to as int)),
            None => Seq::empty(),
        }
    }

    /// `at` snapped to the nearest grapheme boundary at or before it.
    pub open spec fn snap(self, at: int) -> usize {
        snapped(self.text, grapheme_pieces(self.text), at) as usize
    }

    /// The caret put at `at`, snapped; the anchor moved with it unless
    /// `select`.
    pub open spec fn placed(self, at: int, select: bool) -> EditorView {
        let c = self.snap(at);
        EditorView { caret: c, anchor: if select { self.anchor } else { c }, ..self }
    }

    /// The selection taken out of the text and the caret left where it began.
    pub open spec fn selection_removed(self) -> EditorView {
        match self.selection() {
            Some((from, to)) => EditorView {
                text: cut(self.text, from as int, to as int),
                ..self
            }.placed(from as int, false),
            None => self,
        }
    }

    /// Committed text put in at the caret, over the selection, ending any
    /// composition.
    pub open spec fn inserted(self, what: Seq<char>) -> EditorView {
        let w = self.selection_removed();
        let c = (w.caret + bytes(what).len()) as usize;
        EditorView {
            text: splice(w.text, w.caret as int, what),
            caret: c,
            anchor: c,
            preedit: Seq::empty(),
            cursor: None,
        }
    }

    /// Backspace: the selection, or else the grapheme before the caret.
    pub open spec fn backspaced(self) -> EditorView {
        if self.selection() is Some {
            self.selection_removed()
        } else {
            match start_below(grapheme_pieces(self.text), self.caret as int) {
                Some(p) => EditorView {
                    text: cut(self.text, p as int, self.caret as int),
                    caret: p,
                    anchor: p,
                    ..self
                },
                None => self,
            }
        }
    }

    /// Forward delete: the selection, or else the grapheme after the caret.
    pub open spec fn deleted(self) -> EditorView {
        if self.selection() is Some {
            self.selection_removed()
        } else {
            match end_above(grapheme_pieces(self.text), self.caret as int) {
                Some(n) => EditorView { text: cut(self.text, self.caret as int, n), ..self },
                None => self,
            }
        }
    }

    /// The left arrow: a selection collapses to its start unless `select`;
    /// otherwise one grapheme back.
    pub open spec fn moved_left(self, select: bool) -> EditorView {
        let to = match (select, self.selection()) {
            (false, Some((from, _))) => from as int,
            _ => match start_below(grapheme_pieces(self.text), self.caret as int) {
                Some(s) => s as int,
                None => 0,
            },
        };
        self.placed(to, select)
    }

    /// The right arrow: a selection collapses to its end unless `select`;
    /// otherwise one grapheme on.
    pub open spec fn moved_right(self, select: bool) -> EditorView {
        let to = match (select, self.selection()) {
            (false, Some((_, to))) => to as int,
            _ => match end_above(grapheme_pieces(self.text), self.caret as int) {
                Some(e) => e,
                None => self.len() as int,
            },
        };
        self.placed(to, select)
    }

    /// Alt+left: to the start of the last word beginning before the caret.
    pub open spec fn word_left(self, select: bool) -> EditorView {
        self.placed(word_left_from(word_pieces(self.text), self.caret as int, 0, 0), select)
    }

    /// Alt+right: to the end of the first word beginning after the caret.
    pub open spec fn word_right(self, select: bool) -> EditorView {
        self.placed(
            word_right_from(word_pieces(self.text), self.caret as int, self.len() as int, 0),
            select,
        )
    }

    /// Everything selected, the caret at the end.
    pub open spec fn all_selected(self) -> EditorView {
        EditorView { anchor: 0, caret: self.len() as usize, ..self }
    }

    /// The input method composing `text` with its caret at `cursor`.
    pub open spec fn composed(self, text: Seq<char>, cursor: Option<(usize, usize)>) -> EditorView {
        EditorView { preedit: text, cursor, ..self }
    }
}

impl View for Editor {
    type V = EditorView;

    closed spec fn view(&self) -> EditorView {
        EditorView {
            text: self.text@,
            caret: self.caret,
            anchor: self.anchor,
            preedit: self.preedit.text@,
            cursor: self.preedit.cursor,
        }
    }
}

/// Encoding a concatenation is concatenating the encodings.
pub proof fn lemma_bytes_concat(a: Seq<char>, b: Seq<char>)
    ensures
        bytes(a + b) == bytes(a) + bytes(b),
    decreases a.len(),
{
    if a.len() == 0 {
        assert(a + b =~= b);
        assert(bytes(a) + bytes(b) =~= bytes(b));
    } else {
        assert((a + b).drop_first() =~= a.drop_first() + b);
        assert((a + b)[0] == a[0]);
        lemma_bytes_concat(a.drop_first(), b);
        assert(bytes(a + b) =~= bytes(a) + bytes(b));
    }
}

/// Where two encodings meet is a character boundary of the whole.
pub proof fn lemma_join_is_boundary(a: Seq<char>, b: Seq<char>)
    ensures
        is_char_boundary(bytes(a) + bytes(b), bytes(a).len() as int),
{
    lemma_bytes_concat(a, b);
    let all = bytes(a) + bytes(b);
    assert(valid_utf8(bytes(a + b)));
    if b.len() == 0 {
        assert(bytes(b) =~= Seq::<u8>::empty());
        assert(all =~= bytes(a));
        is_char_boundary_start_end_of_seq(bytes(a));
    } else {
        encode_utf8_first_scalar(b);
        assert(bytes(b).len() > 0);
        assert(is_char_boundary(bytes(b), 0));
        is_char_boundary_iff_not_is_continuation_byte(bytes(b), 0);
        assert(all[bytes(a).len() as int] == bytes(b)[0]);
        is_char_boundary_iff_not_is_continuation_byte(all, bytes(a).len() as int);
    }
}

/// A character boundary of a valid sequence that lies inside a prefix is a
/// character boundary of the prefix.
proof fn lemma_boundary_in_prefix(all: Seq<u8>, to: int, at: int)
    requires
        valid_utf8(all),
        0 <= at <= to <= all.len(),
        is_char_boundary(all, to),
        is_char_boundary(all, at),
    ensures
        valid_utf8(all.subrange(0, to)),
        is_char_boundary(all.subrange(0, to), at),
{
    valid_utf8_split(all, to);
    let head = all.subrange(0, to);
    if at == to {
        is_char_boundary_start_end_of_seq(head);
    } else {
        is_char_boundary_iff_not_is_continuation_byte(all, at);
        is_char_boundary_iff_not_is_continuation_byte(head, at);
    }
}

/// The pieces of a text that are slices of it start and end on its
/// character boundaries, so every answer of the searches over them does.
proof fn lemma_start_at_or_below_bounded(text: Seq<char>, p: Seq<(usize, Seq<char>)>, at: int, n: int)
    requires
        slices_of(text, p),
        0 <= n <= p.len(),
    ensures
        start_at_or_below_within(p, at, n) matches Some(s) ==> (s <= at && s <= bytes(text).len()
            && is_char_boundary(bytes(text), s as int)),
    decreases n,
{
    if n > 0 {
        assert(is_slice_of(text, p[n - 1]));
        lemma_start_at_or_below_bounded(text, p, at, n - 1);
    }
}

proof fn lemma_start_below_bounded(text: Seq<char>, p: Seq<(usize, Seq<char>)>, at: int, n: int)
    requires
        slices_of(text, p),
        0 <= n <= p.len(),
    ensures
        start_below_within(p, at, n) matches Some(s) ==> (s < at && s <= bytes(text).len()
            && is_char_boundary(bytes(text), s as int)),
    decreases n,
{
    if n > 0 {
        assert(is_slice_of(text, p[n - 1]));
        lemma_start_below_bounded(text, p, at, n - 1);
    }
}

proof fn lemma_end_above_bounded(text: Seq<char>, p: Seq<(usize, Seq<char>)>, at: int, i: int)
    requires
        slices_of(text, p),
        0 <= i <= p.len(),
    ensures
        end_above_from(p, at, i) matches Some(e) ==> (e > at && e <= bytes(text).len()
            && is_char_boundary(bytes(text), e)),
    decreases p.len() - i,
{
    if i < p.len() {
        assert(is_slice_of(text, p[i]));
        lemma_end_above_bounded(text, p, at, i + 1);
    }
}

/// Snapping always lands on a character boundary inside the text.
proof fn lemma_snapped_bounded(text: Seq<char>, p: Seq<(usize, Seq<char>)>, at: int)
    requires
        slices_of(text, p),
        at >= 0,
    ensures
        0 <= snapped(text, p, at) <= bytes(text).len(),
        is_char_boundary(bytes(text), snapped(text, p, at)),
{
    is_char_boundary_start_end_of_seq(bytes(text));
    let len = bytes(text).len() as int;
    let a = if at < len { at } else { len };
    lemma_start_at_or_below_bounded(text, p, a, p.len() as int);
}

/// Every piece a text is cut into ends where a `usize` can say, when the
/// text does.
proof fn lemma_ends_fit(text: Seq<char>, p: Seq<(usize, Seq<char>)>)
    requires
        slices_of(text, p),
        bytes(text).len() <= usize::MAX,
    ensures
        ends_fit(p),
{
    assert forall|i: int| 0 <= i < p.len() implies end_of(#[trigger] p[i]) <= usize::MAX by {
        assert(is_slice_of(text, p[i]));
    }
}

/// Decoding the bytes of a text up to, or from, one of its character
/// boundaries and encoding them again gives those bytes back.
proof fn lemma_split_round_trip(text: Seq<char>, at: int)
    requires
        0 <= at <= bytes(text).len(),
        is_char_boundary(bytes(text), at),
    ensures
        bytes(decode_utf8(bytes(text).subrange(0, at))) == bytes(text).subrange(0, at),
        bytes(decode_utf8(bytes(text).subrange(at, bytes(text).len() as int))) == bytes(
            text,
        ).subrange(at, bytes(text).len() as int),
{
    let all = bytes(text);
    valid_utf8_split(all, at);
    decode_utf8_encode_utf8(all.subrange(0, at));
    decode_utf8_encode_utf8(all.subrange(at, all.len() as int));
}

/// The bytes of a cut are the bytes before it and the bytes after it.
proof fn lemma_cut_bytes(text: Seq<char>, from: int, to: int)
    requires
        0 <= from <= to <= bytes(text).len(),
        is_char_boundary(bytes(text), from),
        is_char_boundary(bytes(text), to),
    ensures
        bytes(cut(text, from, to)) == bytes(text).subrange(0, from) + bytes(text).subrange(
            to,
            bytes(text).len() as int,
        ),
{
    let all = bytes(text);
    let head = decode_utf8(all.subrange(0, from));
    let tail = decode_utf8(all.subrange(to, all.len() as int));
    lemma_split_round_trip(text, from);
    lemma_split_round_trip(text, to);
    lemma_bytes_concat(head, tail);
}

/// The bytes of a splice are the bytes before the point, the bytes put in,
/// and the bytes after the point.
proof fn lemma_splice_bytes(text: Seq<char>, at: int, what: Seq<char>)
    requires
        0 <= at <= bytes(text).len(),
        is_char_boundary(bytes(text), at),
    ensures
        bytes(splice(text, at, what)) == bytes(text).subrange(0, at) + bytes(what) + bytes(
            text,
        ).subrange(at, bytes(text).len() as int),
{
    let all = bytes(text);
    let head = decode_utf8(all.subrange(0, at));
    let tail = decode_utf8(all.subrange(at, all.len() as int));
    lemma_split_round_trip(text, at);
    lemma_bytes_concat(head, what);
    lemma_bytes_concat(head + what, tail);
}

/// Selecting everything and asking what is selected gives back the whole
/// text.
pub proof fn select_all_selects_the_whole_text(v: EditorView)
    requires
        v.well_placed(),
    ensures
        v.all_selected().selected_text() == v.text,
{
    let all = bytes(v.text);
    assert(all.subrange(0, all.len() as int) =~= all);
    encode_utf8_decode_utf8(v.text);
    if all.len() == 0 {
        assert(all =~= Seq::<u8>::empty());
        assert(decode_utf8(Seq::<u8>::empty()) =~= Seq::<char>::empty());
    }
}

/// Typing with nothing selected puts the typed text's bytes at the caret,
/// leaves the text on either side of it as it was, puts the caret just after
/// what was typed with nothing selected, and ends any composition.
pub proof fn typing_puts_the_text_at_the_caret(v: EditorView, what: Seq<char>)
    requires
        v.well_placed(),
        v.selection() is None,
        v.len() + bytes(what).len() <= usize::MAX,
    ensures
        bytes(v.inserted(what).text) == bytes(v.text).subrange(0, v.caret as int) + bytes(what)
            + bytes(v.text).subrange(v.caret as int, v.len() as int),
        v.inserted(what).caret == v.caret + bytes(what).len(),
        v.inserted(what).selection() is None,
        v.inserted(what).preedit.len() == 0,
{
    lemma_splice_bytes(v.text, v.caret as int, what);
}

/// Typing over a selection is deleting the selection and then typing: the
/// selection goes first, and what is typed lands where it began.
pub proof fn typing_over_a_selection_deletes_it_first(v: EditorView, what: Seq<char>)
    ensures
        v.inserted(what) == v.selection_removed().inserted(what),
        v.selection_removed().selection() is None,
{
}

/// Typing over a selection replaces exactly the selected bytes with the
/// typed ones: the text before the selection stays, the typed text follows
/// it, then the text after the selection, and the caret lands just after
/// what was typed with nothing selected. This holds wherever the selection's
/// start is a grapheme boundary of the text left once the selection is gone
/// (the caret is always put on one).
pub proof fn typing_over_a_selection_replaces_it(v: EditorView, what: Seq<char>)
    requires
        v.well_placed(),
        v.selection() is Some,
        v.len() + bytes(what).len() <= usize::MAX,
        ({
            let (from, to) = v.selection()->0;
            let rest = cut(v.text, from as int, to as int);
            from == bytes(rest).len() || starts_at(grapheme_pieces(rest), from as int)
        }),
    ensures
        ({
            let (from, to) = v.selection()->0;
            &&& bytes(v.inserted(what).text) == bytes(v.text).subrange(0, from as int) + bytes(what)
                + bytes(v.text).subrange(to as int, v.len() as int)
            &&& v.inserted(what).caret == from + bytes(what).len()
            &&& v.inserted(what).selection() is None
        }),
{
    let (from, to) = v.selection()->0;
    let all = bytes(v.text);
    lemma_cut_bytes(v.text, from as int, to as int);
    let rest = cut(v.text, from as int, to as int);
    let head = decode_utf8(all.subrange(0, from as int));
    let tail = decode_utf8(all.subrange(to as int, all.len() as int));
    lemma_split_round_trip(v.text, from as int);
    lemma_split_round_trip(v.text, to as int);
    lemma_bytes_concat(head, tail);
    lemma_join_is_boundary(head, tail);
    assert(bytes(rest) == bytes(head) + bytes(tail));
    assert(is_char_boundary(bytes(rest), from as int));
    let w = v.selection_removed();
    assert(w.text == rest);
    assert(w.caret == from);
    lemma_splice_bytes(rest, from as int, what);
    assert(bytes(rest).subrange(0, from as int) =~= all.subrange(0, from as int));
    assert(bytes(rest).subrange(from as int, bytes(rest).len() as int) =~= all.subrange(
        to as int,
        all.len() as int,
    ));
}

/// Taking a selection out leaves exactly the text on either side of it, and
/// the caret and the anchor together where it began, wherever that is a
/// grapheme boundary of what is left.
pub proof fn removing_a_selection_leaves_the_caret_where_it_began(v: EditorView)
    requires
        v.well_placed(),
        v.selection() is Some,
        ({
            let (from, to) = v.selection()->0;
            let rest = cut(v.text, from as int, to as int);
            from == bytes(rest).len() || starts_at(grapheme_pieces(rest), from as int)
        }),
    ensures
        ({
            let (from, to) = v.selection()->0;
            &&& bytes(v.selection_removed().text) == bytes(v.text).subrange(0, from as int) + bytes(
                v.text,
            ).subrange(to as int, v.len() as int)
            &&& v.selection_removed().caret == from
            &&& v.selection_removed().anchor == from
        }),
{
    let (from, to) = v.selection()->0;
    let all = bytes(v.text);
    lemma_cut_bytes(v.text, from as int, to as int);
    let rest = cut(v.text, from as int, to as int);
    let head = decode_utf8(all.subrange(0, from as int));
    let tail = decode_utf8(all.subrange(to as int, all.len() as int));
    lemma_split_round_trip(v.text, from as int);
    lemma_split_round_trip(v.text, to as int);
    lemma_bytes_concat(head, tail);
    lemma_join_is_boundary(head, tail);
    assert(bytes(rest) == bytes(head) + bytes(tail));
    assert(is_char_boundary(bytes(rest), from as int));
}

/// Backspace over a selection takes exactly the selected bytes, and no more,
/// and leaves nothing selected.
pub proof fn backspace_takes_the_selection_and_no_more(v: EditorView)
    requires
        v.well_placed(),
        v.selection() is Some,
    ensures
        ({
            let (from, to) = v.selection()->0;
            bytes(v.backspaced().text) == bytes(v.text).subrange(0, from as int) + bytes(
                v.text,
            ).subrange(to as int, v.len() as int)
        }),
        v.backspaced().selection() is None,
{
    let (from, to) = v.selection()->0;
    lemma_cut_bytes(v.text, from as int, to as int);
}

/// Backspace with nothing selected takes the bytes from the start of the
/// last grapheme starting before the caret up to the caret, and leaves the
/// caret where that grapheme started; with no grapheme before the caret it
/// changes nothing. The graphemes are those the segmentation hands out,
/// which are slices of the text.
pub proof fn backspace_takes_one_grapheme(v: EditorView)
    requires
        v.well_placed(),
        v.selection() is None,
        slices_of(v.text, grapheme_pieces(v.text)),
    ensures
        match start_below(grapheme_pieces(v.text), v.caret as int) {
            Some(p) => {
                &&& p < v.caret
                &&& bytes(v.backspaced().text) == bytes(v.text).subrange(0, p as int) + bytes(
                    v.text,
                ).subrange(v.caret as int, v.len() as int)
                &&& v.backspaced().caret == p
                &&& v.backspaced().selection() is None
            },
            None => v.backspaced() == v,
        },
{
    let p = grapheme_pieces(v.text);
    lemma_start_below_bounded(v.text, p, v.caret as int, p.len() as int);
    if let Some(s) = start_below(p, v.caret as int) {
        lemma_cut_bytes(v.text, s as int, v.caret as int);
    }
}

/// Forward delete with nothing selected takes the bytes from the caret to
/// the end of the first grapheme ending after it, and leaves the caret where
/// it was; at the end of the text it changes nothing.
pub proof fn delete_takes_one_grapheme(v: EditorView)
    requires
        v.well_placed(),
        v.selection() is None,
        slices_of(v.text, grapheme_pieces(v.text)),
    ensures
        match end_above(grapheme_pieces(v.text), v.caret as int) {
            Some(n) => {
                &&& v.caret < n <= v.len()
                &&& bytes(v.deleted().text) == bytes(v.text).subrange(0, v.caret as int) + bytes(
                    v.text,
                ).subrange(n, v.len() as int)
                &&& v.deleted().caret == v.caret
            },
            None => v.deleted() == v,
        },
{
    let p = grapheme_pieces(v.text);
    lemma_end_above_bounded(v.text, p, v.caret as int, 0);
    if let Some(n) = end_above(p, v.caret as int) {
        lemma_cut_bytes(v.text, v.caret as int, n);
    }
}

/// Backspace with nothing selected and the caret where the `k`th grapheme
/// ends takes exactly that grapheme: its bytes, no more and no fewer, and the
/// caret lands where it started. The graphemes are those the segmentation
/// hands out, which lie end to end over the text.
pub proof fn backspace_at_a_boundary_takes_the_whole_grapheme_before(v: EditorView, k: int)
    requires
        v.well_placed(),
        v.selection() is None,
        slices_of(v.text, grapheme_pieces(v.text)),
        tiles(v.text, grapheme_pieces(v.text)),
        none_empty(grapheme_pieces(v.text)),
        0 <= k < grapheme_pieces(v.text).len(),
        end_of(grapheme_pieces(v.text)[k]) == v.caret,
    ensures
        ({
            let g = grapheme_pieces(v.text)[k];
            &&& bytes(v.text).subrange(g.0 as int, v.caret as int) == bytes(g.1)
            &&& bytes(v.backspaced().text) == bytes(v.text).subrange(0, g.0 as int) + bytes(
                v.text,
            ).subrange(v.caret as int, v.len() as int)
            &&& v.backspaced().caret == g.0
        }),
{
    let p = grapheme_pieces(v.text);
    assert(is_slice_of(v.text, p[k]));
    lemma_piece_inside(v.text, p, k);
    lemma_start_below_is_the_holder(v.text, p, v.caret as int, k, p.len() as int);
    backspace_takes_one_grapheme(v);
}

/// Forward delete with nothing selected and the caret where the `k`th
/// grapheme starts takes exactly that grapheme, and the caret stays.
pub proof fn delete_at_a_boundary_takes_the_whole_grapheme_after(v: EditorView, k: int)
    requires
        v.well_placed(),
        v.selection() is None,
        slices_of(v.text, grapheme_pieces(v.text)),
        tiles(v.text, grapheme_pieces(v.text)),
        none_empty(grapheme_pieces(v.text)),
        0 <= k < grapheme_pieces(v.text).len(),
        grapheme_pieces(v.text)[k].0 == v.caret,
    ensures
        ({
            let g = grapheme_pieces(v.text)[k];
            &&& bytes(v.text).subrange(v.caret as int, end_of(g)) == bytes(g.1)
            &&& bytes(v.deleted().text) == bytes(v.text).subrange(0, v.caret as int) + bytes(
                v.text,
            ).subrange(end_of(g), v.len() as int)
            &&& v.deleted().caret == v.caret
        }),
{
    let p = grapheme_pieces(v.text);
    assert(is_slice_of(v.text, p[k]));
    lemma_piece_inside(v.text, p, k);
    lemma_end_above_is_the_holder(v.text, p, v.caret as int, k, 0);
    delete_takes_one_grapheme(v);
}

/// Backspace with nothing selected and the caret at the start of the text
/// changes nothing.
pub proof fn backspace_at_the_start_changes_nothing(v: EditorView)
    requires
        v.caret == 0,
        v.selection() is None,
    ensures
        v.backspaced() == v,
{
    lemma_nothing_starts_below_zero(grapheme_pieces(v.text), grapheme_pieces(v.text).len() as int);
}

/// No piece starts before the first byte.
proof fn lemma_nothing_starts_below_zero(p: Seq<(usize, Seq<char>)>, n: int)
    ensures
        start_below_within(p, 0, n) is None,
    decreases n,
{
    if n > 0 {
        lemma_nothing_starts_below_zero(p, n - 1);
    }
}

/// Composing never touches the document: the text, the caret and the
/// selection stay as they were.
pub proof fn composing_leaves_the_document_alone(v: EditorView, text: Seq<char>, cursor: Option<(usize, usize)>)
    ensures
        v.composed(text, cursor).text == v.text,
        v.composed(text, cursor).caret == v.caret,
        v.composed(text, cursor).selection() == v.selection(),
        v.composed(text, cursor).preedit == text,
{
}

/// An arrow key without shift leaves nothing selected, whether or not
/// something was.
pub proof fn an_arrow_without_shift_leaves_nothing_selected(v: EditorView)
    ensures
        v.moved_left(false).selection() is None,
        v.moved_right(false).selection() is None,
        v.word_left(false).selection() is None,
        v.word_right(false).selection() is None,
{
}

/// The text with the bytes from `from` to `to` taken out.
fn cut_text(text: &str, from: usize, to: usize) -> (out: String)
    requires
        from <= to <= bytes(text@).len(),
        is_char_boundary(bytes(text@), from as int),
        is_char_boundary(bytes(text@), to as int),
    ensures
        out@ == cut(text@, from as int, to as int),
        bytes(out@) == bytes(text@).subrange(0, from as int) + bytes(text@).subrange(
            to as int,
            bytes(text@).len() as int,
        ),
        is_char_boundary(bytes(out@), from as int),
{
    let (head, _) = text.split_at(from);
    let (_, tail) = text.split_at(to);
    let mut out = String::from_str(head);
    out.append(tail);
    proof {
        lemma_bytes_concat(head@, tail@);
        lemma_join_is_boundary(head@, tail@);
        assert(decode_utf8(bytes(head@)) == head@);
        assert(decode_utf8(bytes(tail@)) == tail@);
    }
    out
}

/// The text with `what` put in at byte offset `at`.
fn splice_text(text: &str, at: usize, what: &str) -> (out: String)
    requires
        at <= bytes(text@).len(),
        is_char_boundary(bytes(text@), at as int),
    ensures
        out@ == splice(text@, at as int, what@),
        bytes(out@) == bytes(text@).subrange(0, at as int) + bytes(what@) + bytes(text@).subrange(
            at as int,
            bytes(text@).len() as int,
        ),
        is_char_boundary(bytes(out@), at + bytes(what@).len()),
{
    let (head, tail) = text.split_at(at);
    let mut out = String::from_str(head);
    out.append(what);
    out.append(tail);
    proof {
        lemma_bytes_concat(head@, what@);
        lemma_bytes_concat(head@ + what@, tail@);
        lemma_join_is_boundary(head@ + what@, tail@);
        assert(decode_utf8(bytes(head@)) == head@);
        assert(decode_utf8(bytes(tail@)) == tail@);
        assert(out@ == head@ + what@ + tail@);
    }
    out
}

impl Default for Editor {
    /// An empty field, with the caret at its start and nothing composing.
    fn default() -> (editor: Self)
        ensures
            editor@ == EditorView::fresh(Seq::empty()),
            editor.wf(),
    {
        let editor = Editor {
            text: String::new(),
            caret: 0,
            anchor: 0,
            preedit: Preedit { text: String::new(), cursor: None },
        };
        proof {
            assert(bytes(Seq::<char>::empty()) =~= Seq::<u8>::empty());
        }
        editor
    }
}

impl Editor {
    /// The caret and the anchor are inside the text, on character boundaries.
    pub open spec fn wf(&self) -> bool {
        self@.well_placed()
    }

    /// A field holding `text`, with the caret at its end.
    pub fn new(text: &str) -> (editor: Self)
        ensures
            editor@ == EditorView::fresh(text@),
            editor.wf(),
    {
        let end = byte_len(text);
        let editor = Editor {
            text: String::from_str(text),
            caret: end,
            anchor: end,
            preedit: Preedit { text: String::new(), cursor: None },
        };
        proof {
            is_char_boundary_start_end_of_seq(bytes(text@));
        }
        editor
    }

    pub fn text(&self) -> (text: &str)
        ensures
            text@ == self@.text,
    {
        self.text.as_str()
    }

    pub fn caret(&self) -> (caret: usize)
        ensures
            caret == self@.caret,
    {
        self.caret
    }

    pub fn preedit(&self) -> (preedit: &Preedit)
        ensures
            preedit.text@ == self@.preedit,
            preedit.cursor == self@.cursor,
    {
        &self.preedit
    }

    /// Nothing typed and nothing being composed.
    pub fn is_empty(&self) -> (empty: bool)
        ensures
            empty == (self@.text.len() == 0 && self@.preedit.len() == 0),
    {
        self.text.as_str().is_empty() && self.preedit.text.as_str().is_empty()
    }

    /// The selected range, low to high, or `None` when nothing is selected.
    pub fn selection(&self) -> (range: Option<(usize, usize)>)
        ensures
            range == self@.selection(),
    {
        if self.caret != self.anchor {
            if self.caret < self.anchor {
                Some((self.caret, self.anchor))
            } else {
                Some((self.anchor, self.caret))
            }
        } else {
            None
        }
    }

    /// The selected text, or the empty string.
    pub fn selected(&self) -> (text: &str)
        requires
            self.wf(),
        ensures
            text@ == self@.selected_text(),
    {
        match self.selection() {
            Some((from, to)) => {
                let whole = self.text.as_str();
                proof {
                    lemma_boundary_in_prefix(bytes(whole@), to as int, from as int);
                }
                let (head, _) = whole.split_at(to);
                let (_, middle) = head.split_at(from);
                proof {
                    assert(bytes(middle@) =~= bytes(whole@).subrange(from as int, to as int));
                    assert(decode_utf8(bytes(middle@)) == middle@);
                }
                middle
            },
            None => {
                proof {
                    reveal_strlit("");
                }
                ""
            },
        }
    }

    /// Replaces everything, putting the caret at the end.
    pub fn set(&mut self, text: &str)
        ensures
            final(self)@ == EditorView::fresh(text@),
            final(self).wf(),
    {
        let end = byte_len(text);
        self.text = String::from_str(text);
        self.caret = end;
        self.anchor = end;
        self.preedit = Preedit { text: String::new(), cursor: None };
        proof {
            is_char_boundary_start_end_of_seq(bytes(text@));
        }
    }

    /// Takes the text and leaves the field empty, which is what sending does.
    pub fn take(&mut self) -> (text: String)
        ensures
            text@ == old(self)@.text,
            final(self)@ == EditorView::fresh(Seq::empty()),
            final(self).wf(),
    {
        let mut text = String::new();
        std::mem::swap(&mut text, &mut self.text);
        self.caret = 0;
        self.anchor = 0;
        self.preedit = Preedit { text: String::new(), cursor: None };
        proof {
            assert(bytes(Seq::<char>::empty()) =~= Seq::<u8>::empty());
        }
        text
    }

    /// What the input method is composing now. An empty string clears it.
    pub fn compose(&mut self, text: String, cursor: Option<(usize, usize)>)
        ensures
            final(self)@ == old(self)@.composed(text@, cursor),
            old(self).wf() ==> final(self).wf(),
    {
        self.preedit = Preedit { text, cursor };
    }

    /// `at` snapped to the nearest grapheme boundary at or before it.
    fn snap(&self, at: usize) -> (snapped_at: usize)
        ensures
            snapped_at == self@.snap(at as int),
            snapped_at <= self@.len(),
            is_char_boundary(bytes(self@.text), snapped_at as int),
    {
        let whole = self.text.as_str();
        let graphemes = grapheme_segments(whole);
        proof {
            lemma_snapped_bounded(whole@, pieces(graphemes@), at as int);
        }
        snap_to(whole, graphemes.as_slice(), at)
    }

    /// The start of the grapheme before `at`, if there is one.
    fn grapheme_before(&self, at: usize) -> (start: Option<usize>)
        ensures
            start == start_below(grapheme_pieces(self@.text), at as int),
            start matches Some(s) ==> s < at && is_char_boundary(bytes(self@.text), s as int),
    {
        let whole = self.text.as_str();
        let graphemes = grapheme_segments(whole);
        proof {
            lemma_start_below_bounded(whole@, pieces(graphemes@), at as int, graphemes@.len() as int);
        }
        last_start_below(graphemes.as_slice(), at)
    }

    /// The end of the grapheme that ends after `at`, if there is one.
    fn grapheme_after(&self, at: usize) -> (end: Option<usize>)
        requires
            self@.len() <= usize::MAX,
        ensures
            end matches Some(e) ==> end_above(grapheme_pieces(self@.text), at as int) == Some(e as int)
                && e > at && e <= self@.len() && is_char_boundary(bytes(self@.text), e as int),
            end is None ==> end_above(grapheme_pieces(self@.text), at as int) is None,
    {
        let whole = self.text.as_str();
        let graphemes = grapheme_segments(whole);
        proof {
            lemma_ends_fit(whole@, pieces(graphemes@));
            lemma_end_above_bounded(whole@, pieces(graphemes@), at as int, 0);
        }
        first_end_above(graphemes.as_slice(), at)
    }

    /// Puts the caret at a byte offset, snapped to a grapheme boundary.
    /// `select` leaves the anchor where it was, extending the selection.
    pub fn place(&mut self, at: usize, select: bool)
        requires
            old(self).wf(),
        ensures
            final(self)@ == old(self)@.placed(at as int, select),
            final(self).wf(),
    {
        let at = self.snap(at);
        self.caret = at;
        if !select {
            self.anchor = at;
        }
    }

    /// Puts the caret and the anchor at a byte offset, snapped.
    fn place_both(&mut self, at: usize)
        requires
            old(self)@.len() <= usize::MAX,
        ensures
            final(self)@ == old(self)@.placed(at as int, false),
            final(self).wf(),
    {
        let at = self.snap(at);
        self.caret = at;
        self.anchor = at;
    }

    /// Removes the selection if there is one, and says whether it did.
    fn delete_selection(&mut self) -> (removed: bool)
        requires
            old(self).wf(),
        ensures
            removed == old(self)@.selection() is Some,
            final(self)@ == old(self)@.selection_removed(),
            final(self)@.len() <= old(self)@.len(),
            final(self).wf(),
    {
        match self.selection() {
            Some((from, to)) => {
                self.text = cut_text(self.text.as_str(), from, to);
                self.place_both(from);
                true
            },
            None => false,
        }
    }

    /// Inserts committed text, replacing the selection and ending composition.
    pub fn insert(&mut self, what: &str)
        requires
            old(self).wf(),
        ensures
            final(self)@ == old(self)@.inserted(what@),
            final(self).wf(),
    {
        self.delete_selection();
        let caret = self.caret;
        let added = byte_len(what);
        let ghost before = self@;
        self.text = splice_text(self.text.as_str(), caret, what);
        // The spliced string exists, so its length -- the old length and the
        // inserted one together -- is a `usize`.
        let _total: usize = byte_len(self.text.as_str());
        proof {
            assert(bytes(self.text@).len() == before.len() + added);
        }
        self.caret = caret + added;
        self.anchor = self.caret;
        self.preedit = Preedit { text: String::new(), cursor: None };
    }

    /// Backspace.
    ///
    /// A selection is deleted whole. Otherwise one grapheme goes, which is why
    /// this is not `pop`: backspacing a syllable should take the syllable.
    pub fn backspace(&mut self)
        requires
            old(self).wf(),
        ensures
            final(self)@ == old(self)@.backspaced(),
            final(self).wf(),
    {
        if self.delete_selection() {
            return;
        }
        if let Some(previous) = self.grapheme_before(self.caret) {
            self.text = cut_text(self.text.as_str(), previous, self.caret);
            self.caret = previous;
            self.anchor = previous;
        }
    }

    /// Forward delete.
    pub fn delete(&mut self)
        requires
            old(self).wf(),
        ensures
            final(self)@ == old(self)@.deleted(),
            final(self).wf(),
    {
        if self.delete_selection() {
            return;
        }
        if let Some(next) = self.grapheme_after(self.caret) {
            self.text = cut_text(self.text.as_str(), self.caret, next);
        }
    }

    /// Moves the caret one grapheme left. `select` extends the selection
    /// instead of collapsing it.
    pub fn move_left(&mut self, select: bool)
        requires
            old(self).wf(),
        ensures
            final(self)@ == old(self)@.moved_left(select),
            final(self).wf(),
    {
        // Without a modifier, an arrow key against a selection collapses it to
        // that end rather than moving from the caret. Everything else that
        // edits text does this and it is startling when something does not.
        let to = match (select, self.selection()) {
            (false, Some((from, _))) => from,
            _ => match self.grapheme_before(self.caret) {
                Some(start) => start,
                None => 0,
            },
        };
        self.place(to, select);
    }

    /// Moves the caret one grapheme right.
    pub fn move_right(&mut self, select: bool)
        requires
            old(self).wf(),
        ensures
            final(self)@ == old(self)@.moved_right(select),
            final(self).wf(),
    {
        let to = match (select, self.selection()) {
            (false, Some((_, to))) => to,
            _ => match self.grapheme_after(self.caret) {
                Some(end) => end,
                None => byte_len(self.text.as_str()),
            },
        };
        self.place(to, select);
    }

    /// To the start of the word before the caret, the way alt+left does.
    pub fn move_word_left(&mut self, select: bool)
        requires
            old(self).wf(),
        ensures
            final(self)@ == old(self)@.word_left(select),
            final(self).wf(),
    {
        // The last word that *begins* before the caret. Testing where a word
        // ends instead skips the word the caret is sitting in the middle or at
        // the end of, which is the one alt+left is for.
        let words = word_segments(self.text.as_str());
        let at = word_start_before(words.as_slice(), self.caret);
        self.place(at, select);
    }

    /// To the end of the word after the caret, the way alt+right does.
    pub fn move_word_right(&mut self, select: bool)
        requires
            old(self).wf(),
        ensures
            final(self)@ == old(self)@.word_right(select),
            final(self).wf(),
    {
        let whole = self.text.as_str();
        let words = word_segments(whole);
        proof {
            lemma_ends_fit(whole@, pieces(words@));
        }
        let at = word_end_after(words.as_slice(), self.caret, byte_len(whole));
        self.place(at, select);
    }

    pub fn move_home(&mut self, select: bool)
        requires
            old(self).wf(),
        ensures
            final(self)@ == old(self)@.placed(0, select),
            final(self).wf(),
    {
        self.place(0, select);
    }

    pub fn move_end(&mut self, select: bool)
        requires
            old(self).wf(),
        ensures
            final(self)@ == old(self)@.placed(old(self)@.len() as int, select),
            final(self).wf(),
    {
        let end = byte_len(self.text.as_str());
        self.place(end, select);
    }

    pub fn select_all(&mut self)
        requires
            old(self).wf(),
        ensures
            final(self)@ == old(self)@.all_selected(),
            final(self).wf(),
    {
        self.anchor = 0;
        self.caret = byte_len(self.text.as_str());
        proof {
            is_char_boundary_start_end_of_seq(bytes(self.text@));
        }
    }
}

} // verus!
