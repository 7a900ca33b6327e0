//! What the pointer and the keyboard did to a frame, decided without the
//! frame itself.
//!
//! The tree is rebuilt every frame and nothing in it remembers being pressed
//! or focused, so the state that outlives a frame is small and is here: which
//! box the button went down on, which field has the keyboard, and the input
//! waiting for that field to be built.

use core::ops::{Add, Sub};
use vstd::prelude::*;
use vstd::std_specs::cmp::PartialOrdSpec;
use vstd::std_specs::ops::AddSpec;
use vstd::string::StringExecFns;
use vstd::utf8::*;

use crate::editor::{Editor, EditorView};
use crate::element::{name_of, same_id, same_text, Id};
use crate::geometry::{Point, Rect};
use crate::input::{Composition, Input, Key, Press};
use crate::segment::{byte_len, bytes};

verus! {

broadcast use vstd::utf8::group_utf8_lib;

/// How a field answers the return key.
#[derive(Debug, Clone, Copy, PartialEq, Eq)]
pub enum OnEnter {
    /// Return submits, and the modifier makes a new line. What a composer in a
    /// chat window wants.
    Submit,
    /// Return always makes a new line. What an editor wants.
    Newline,
}

/// What a field did with the input it was handed.
#[derive(Debug, Clone, Copy, Default, PartialEq, Eq)]
pub struct Edited {
    /// The text changed.
    pub changed: bool,
    /// Return was pressed and the field is set to submit on it.
    pub submitted: bool,
    /// Escape was pressed.
    pub cancelled: bool,
}

impl Edited {
    /// Nothing happened.
    pub open spec fn nothing() -> Edited {
        Edited { changed: false, submitted: false, cancelled: false }
    }
}

/// A line break, as a character sequence.
pub open spec fn newline() -> Seq<char> {
    seq!['\n']
}

/// What one piece of input does to an editor, and to whether return or
/// escape has been pressed.
pub open spec fn acted(v: EditorView, input: Input, on_enter: OnEnter, edited: Edited) -> (EditorView, Edited) {
    match input {
        Input::Ime(Composition::Preedit(text, cursor)) => (v.composed(text@, cursor), edited),
        Input::Ime(Composition::Commit(text)) => (v.inserted(text@), edited),
        Input::Key(press) => match press.key {
            Key::Insert(text) => (v.inserted(text@), edited),
            Key::Backspace => (v.backspaced(), edited),
            Key::Delete => (v.deleted(), edited),
            Key::Left => if press.word {
                (v.word_left(press.shift), edited)
            } else {
                (v.moved_left(press.shift), edited)
            },
            Key::Right => if press.word {
                (v.word_right(press.shift), edited)
            } else {
                (v.moved_right(press.shift), edited)
            },
            Key::Home => (v.placed(0, press.shift), edited),
            Key::End => (v.placed(v.len() as int, press.shift), edited),
            Key::SelectAll => (v.all_selected(), edited),
            Key::Escape => (v, Edited { cancelled: true, ..edited }),
            Key::Enter => if on_enter == OnEnter::Submit && !press.modifier {
                (v, Edited { submitted: true, ..edited })
            } else {
                (v.inserted(newline()), edited)
            },
            Key::Copy | Key::Cut | Key::Paste | Key::Tab => (v, edited),
        },
    }
}

/// What one piece of input does to an editor and to the running answer:
/// the answer says the text changed when it did before or when this input
/// left the text different from what it was.
pub open spec fn applied(v: EditorView, input: Input, on_enter: OnEnter, edited: Edited) -> (EditorView, Edited) {
    let (w, e) = acted(v, input, on_enter, edited);
    (w, Edited { changed: e.changed || w.text != v.text, ..e })
}

/// What a run of input does, applied first to last.
pub open spec fn applied_all(v: EditorView, inputs: Seq<Input>, on_enter: OnEnter, edited: Edited) -> (EditorView, Edited)
    decreases inputs.len(),
{
    if inputs.len() == 0 {
        (v, edited)
    } else {
        let (w, e) = applied(v, inputs[0], on_enter, edited);
        applied_all(w, inputs.drop_first(), on_enter, e)
    }
}

/// Applies one piece of input to the field that has the keyboard.
pub fn apply(editor: &mut Editor, input: Input, on_enter: OnEnter, edited: Edited) -> (result: Edited)
    requires
        old(editor).wf(),
    ensures
        (final(editor)@, result) == applied(old(editor)@, input, on_enter, edited),
        final(editor).wf(),
{
    let mut edited = edited;
    let before = String::from_str(editor.text());
    match input {
        Input::Ime(Composition::Preedit(text, cursor)) => {
            editor.compose(text, cursor);
        },
        Input::Ime(Composition::Commit(text)) => {
            editor.insert(text.as_str());
        },
        Input::Key(press) => {
            let Press { key, shift, word, modifier } = press;
            match key {
                Key::Insert(text) => {
                    editor.insert(text.as_str());
                },
                Key::Backspace => {
                    editor.backspace();
                },
                Key::Delete => {
                    editor.delete();
                },
                Key::Left => if word {
                    editor.move_word_left(shift)
                } else {
                    editor.move_left(shift)
                },
                Key::Right => if word {
                    editor.move_word_right(shift)
                } else {
                    editor.move_right(shift)
                },
                Key::Home => editor.move_home(shift),
                Key::End => editor.move_end(shift),
                Key::SelectAll => editor.select_all(),
                Key::Escape => edited.cancelled = true,
                Key::Enter => match (on_enter, modifier) {
                    (OnEnter::Submit, false) => edited.submitted = true,
                    _ => {
                        proof {
                            reveal_strlit("\n");
                            assert("\n"@ =~= newline());
                        }
                        editor.insert("\n");
                    },
                },
                // Nothing yet: the clipboard is the platform's, and reaching
                // for it from here would put a platform in this crate.
                Key::Copy | Key::Cut | Key::Paste | Key::Tab => {},
            }
        },
    }
    // Only an edit that left the text different counts as a change: a
    // backspace at the start of a field, or text typed over an identical
    // selection, changes nothing.
    if !same_text(before.as_str(), editor.text()) {
        edited.changed = true;
    }
    edited
}


/// The same run of input with everything from the input method left out.
pub open spec fn without_composition(inputs: Seq<Input>) -> Seq<Input>
    decreases inputs.len(),
{
    if inputs.len() == 0 {
        Seq::empty()
    } else {
        let rest = without_composition(inputs.drop_first());
        match inputs[0] {
            Input::Ime(_) => rest,
            Input::Key(_) => seq![inputs[0]] + rest,
        }
    }
}

/// A field set to make a new line on return never submits, whatever input
/// it is handed: the answer's `submitted` is what it was before.
pub proof fn a_newline_field_never_submits(v: EditorView, inputs: Seq<Input>, edited: Edited)
    ensures
        applied_all(v, inputs, OnEnter::Newline, edited).1.submitted == edited.submitted,
    decreases inputs.len(),
{
    if inputs.len() > 0 {
        let (w, e) = applied(v, inputs[0], OnEnter::Newline, edited);
        lemma_newline_never_submits_once(v, inputs[0], edited);
        a_newline_field_never_submits(w, inputs.drop_first(), e);
    }
}

/// A run of one piece of input does what that piece does.
pub proof fn a_run_of_one_is_that_one(v: EditorView, input: Input, on_enter: OnEnter, edited: Edited)
    ensures
        applied_all(v, seq![input], on_enter, edited) == applied(v, input, on_enter, edited),
{
    let (w, e) = applied(v, input, on_enter, edited);
    assert(seq![input].drop_first() =~= Seq::<Input>::empty());
    assert(applied_all(w, Seq::<Input>::empty(), on_enter, e) == (w, e));
}

/// Input is applied in the order it came: a run split anywhere is its first
/// part applied, and then the second part applied to what the first left,
/// the running answer carried across.
pub proof fn a_run_is_its_first_part_and_then_the_rest(
    v: EditorView,
    first: Seq<Input>,
    rest: Seq<Input>,
    on_enter: OnEnter,
    edited: Edited,
)
    ensures
        applied_all(v, first + rest, on_enter, edited) == ({
            let (w, e) = applied_all(v, first, on_enter, edited);
            applied_all(w, rest, on_enter, e)
        }),
    decreases first.len(),
{
    if first.len() == 0 {
        assert(first + rest =~= rest);
    } else {
        let (w, e) = applied(v, first[0], on_enter, edited);
        assert((first + rest)[0] == first[0]);
        assert((first + rest).drop_first() =~= first.drop_first() + rest);
        a_run_is_its_first_part_and_then_the_rest(w, first.drop_first(), rest, on_enter, e);
    }
}

/// The piece of input that came first is applied first, and the rest after.
pub proof fn the_first_input_is_applied_first(
    v: EditorView,
    input: Input,
    rest: Seq<Input>,
    on_enter: OnEnter,
    edited: Edited,
)
    ensures
        applied_all(v, seq![input] + rest, on_enter, edited) == ({
            let (w, e) = applied(v, input, on_enter, edited);
            applied_all(w, rest, on_enter, e)
        }),
{
    a_run_is_its_first_part_and_then_the_rest(v, seq![input], rest, on_enter, edited);
    a_run_of_one_is_that_one(v, input, on_enter, edited);
}

/// One piece of input to a field set to make a new line leaves `submitted`
/// as it was.
proof fn lemma_newline_never_submits_once(v: EditorView, input: Input, edited: Edited)
    ensures
        applied(v, input, OnEnter::Newline, edited).1.submitted == edited.submitted,
{
    match input {
        Input::Key(press) => {
            if press.key == Key::Enter {
                assert(acted(v, input, OnEnter::Newline, edited).1 == edited);
            }
        },
        _ => {},
    }
}

/// In a field set to submit, return without the modifier submits and leaves
/// the field as it was; with the modifier it puts a line break in at the
/// caret, the way typing one would.
pub proof fn return_submits_and_the_modifier_makes_a_line(v: EditorView, press: Press, edited: Edited)
    requires
        press.key == Key::Enter,
    ensures
        !press.modifier ==> applied(v, Input::Key(press), OnEnter::Submit, edited) == (
            v,
            Edited { submitted: true, ..edited },
        ),
        press.modifier ==> applied(v, Input::Key(press), OnEnter::Submit, edited).0 == v.inserted(
            newline(),
        ),
        press.modifier ==> applied(v, Input::Key(press), OnEnter::Submit, edited).1.submitted
            == edited.submitted,
{
}

/// Leaving out what the input method sent keeps exactly the key presses, in
/// the order they came.
pub proof fn without_composition_keeps_the_keys(inputs: Seq<Input>)
    ensures
        without_composition(inputs) == inputs.filter(|i: Input| i is Key),
    decreases inputs.len(),
{
    if inputs.len() > 0 {
        without_composition_keeps_the_keys(inputs.drop_first());
        assert(inputs =~= seq![inputs[0]] + inputs.drop_first());
        inputs.drop_first().lemma_filter_prepend(inputs[0], |i: Input| i is Key);
    }
}

/// The names of a run of boxes.
pub open spec fn names(ids: Seq<Id>) -> Seq<Seq<char>> {
    ids.map_values(|id: Id| id@)
}

/// Which field has the keyboard, what arrived for it since the last frame,
/// and which fields exist.
pub struct Focus {
    focused: Option<Id>,
    /// Everything that arrived since the last frame, waiting for the field it
    /// belongs to to be built.
    pending: Vec<Input>,
    /// The fields that existed in the frame just gone. Clicking anything that
    /// is not one of these puts the keyboard down.
    fields: Vec<Id>,
    /// The fields built so far in the frame being built.
    seen: Vec<Id>,
}

/// The keyboard's state as a value.
pub struct FocusView {
    pub focused: Option<Seq<char>>,
    pub pending: Seq<Input>,
    pub fields: Seq<Seq<char>>,
    pub seen: Seq<Seq<char>>,
}

impl FocusView {
    /// No field is listed twice, among those of the frame gone or of the one
    /// being built: each is a set of names.
    pub open spec fn distinct(self) -> bool {
        self.fields.no_duplicates() && self.seen.no_duplicates()
    }
}

/// A name not yet in a run with no repeats can be added without making one.
proof fn lemma_push_new_keeps_distinct(names: Seq<Seq<char>>, name: Seq<char>)
    requires
        names.no_duplicates(),
        !names.contains(name),
    ensures
        names.push(name).no_duplicates(),
{
    let pushed = names.push(name);
    assert forall|i: int, j: int| 0 <= i < pushed.len() && 0 <= j < pushed.len() && i != j implies pushed[i]
        != pushed[j] by {
        if i == names.len() {
            assert(names[j] == pushed[j]);
        } else if j == names.len() {
            assert(names[i] == pushed[i]);
        }
    }
}

impl View for Focus {
    type V = FocusView;

    closed spec fn view(&self) -> FocusView {
        FocusView {
            focused: name_of(self.focused),
            pending: self.pending@,
            fields: names(self.fields@),
            seen: names(self.seen@),
        }
    }
}

/// Whether a box of this name is among `ids`.
fn contains_id(ids: &Vec<Id>, id: Id) -> (found: bool)
    ensures
        found == names(ids@).contains(id@),
{
    let mut i: usize = 0;
    while i < ids.len()
        invariant
            i <= ids@.len(),
            forall|j: int| 0 <= j < i ==> #[trigger] names(ids@)[j] != id@,
        decreases ids@.len() - i,
    {
        if ids[i].is(&id) {
            assert(names(ids@)[i as int] == id@);
            return true;
        }
        i = i + 1;
    }
    proof {
        if names(ids@).contains(id@) {
            let j = choose|j: int| 0 <= j < names(ids@).len() && names(ids@)[j] == id@;
            assert(names(ids@)[j] != id@);
        }
    }
    false
}

impl Focus {
    /// Nothing focused, nothing waiting, no fields yet.
    pub fn new() -> (focus: Self)
        ensures
            focus@.focused is None,
            focus@.pending.len() == 0,
            focus@.fields.len() == 0,
            focus@.seen.len() == 0,
            focus@.distinct(),
    {
        let focus = Focus { focused: None, pending: Vec::new(), fields: Vec::new(), seen: Vec::new() };
        assert(focus@.fields =~= Seq::<Seq<char>>::empty());
        assert(focus@.seen =~= Seq::<Seq<char>>::empty());
        focus
    }

    /// Something the keyboard or the input method did.
    ///
    /// Queued rather than applied: which field it belongs to is not known
    /// until that field is built, and the frame that builds it has not run
    /// yet.
    pub fn input(&mut self, input: Input)
        ensures
            final(self)@ == (FocusView { pending: old(self)@.pending.push(input), ..old(self)@ }),
    {
        self.pending.push(input);
    }

    /// Which field the keyboard is talking to.
    pub fn focused(&self) -> (id: Option<Id>)
        ensures
            name_of(id) == self@.focused,
    {
        self.focused
    }

    pub fn focus(&mut self, id: &'static str)
        ensures
            final(self)@ == (FocusView { focused: Some(id@), ..old(self)@ }),
    {
        self.focused = Some(Id(id));
    }

    /// Puts the keyboard down.
    ///
    /// Anything half composed goes with the focus. Left queued it would land
    /// in whatever is focused next, which is somebody else's half-typed
    /// syllable appearing in their password field.
    pub fn blur(&mut self)
        ensures
            final(self)@ == (FocusView {
                focused: None,
                pending: without_composition(old(self)@.pending),
                ..old(self)@
            }),
    {
        self.focused = None;
        let mut rest: Vec<Input> = Vec::new();
        std::mem::swap(&mut rest, &mut self.pending);
        let ghost all = rest@;
        while rest.len() > 0
            invariant
                without_composition(all) == self.pending@ + without_composition(rest@),
                self.focused is None,
                self@.fields == old(self)@.fields,
                self@.seen == old(self)@.seen,
            decreases rest@.len(),
        {
            let ghost before = rest@;
            let input = rest.remove(0);
            proof {
                assert(rest@ =~= before.drop_first());
            }
            match input {
                Input::Ime(_) => {},
                Input::Key(_) => {
                    let ghost kept = self.pending@;
                    self.pending.push(input);
                    proof {
                        assert(self.pending@ + without_composition(rest@) =~= kept + (seq![before[0]]
                            + without_composition(rest@)));
                    }
                },
            }
        }
        proof {
            assert(self.pending@ =~= self.pending@ + without_composition(rest@));
        }
    }

    /// Whether this field has the keyboard.
    pub fn has_focus(&self, id: &'static str) -> (has: bool)
        ensures
            has == (self@.focused == Some(id@)),
    {
        same_id(self.focused, Some(Id(id)))
    }

    /// The keyboard input that belongs to the field `id`, applied to its
    /// editor.
    ///
    /// Clicking a field in the frame before -- the frame the user was looking
    /// at when they aimed -- gives it the keyboard. The field that has it
    /// takes everything that arrived since the last frame.
    pub fn field(&mut self, id: &'static str, clicked: bool, editor: &mut Editor, on_enter: OnEnter) -> (edited: Edited)
        requires
            old(editor).wf(),
        ensures
            final(self)@.seen == (if old(self)@.seen.contains(id@) {
                old(self)@.seen
            } else {
                old(self)@.seen.push(id@)
            }),
            final(self)@.fields == old(self)@.fields,
            old(self)@.distinct() ==> final(self)@.distinct(),
            final(self)@.focused == (if clicked { Some(id@) } else { old(self)@.focused }),
            final(self)@.focused == Some(id@) ==> {
                &&& final(self)@.pending.len() == 0
                &&& (final(editor)@, edited) == applied_all(old(editor)@, old(self)@.pending, on_enter, Edited::nothing())
            },
            final(self)@.focused != Some(id@) ==> {
                &&& final(self)@.pending == old(self)@.pending
                &&& final(editor)@ == old(editor)@
                &&& edited == Edited::nothing()
            },
            final(editor).wf(),
    {
        let name = Id(id);
        if !contains_id(&self.seen, name) {
            self.seen.push(name);
            proof {
                assert(names(self.seen@) =~= old(self)@.seen.push(id@));
                if old(self)@.distinct() {
                    lemma_push_new_keeps_distinct(old(self)@.seen, id@);
                }
            }
        }
        if clicked {
            self.focused = Some(name);
        }
        let mut edited = Edited { changed: false, submitted: false, cancelled: false };
        if same_id(self.focused, Some(name)) {
            let mut waiting: Vec<Input> = Vec::new();
            std::mem::swap(&mut waiting, &mut self.pending);
            let ghost all = waiting@;
            let ghost start = editor@;
            while waiting.len() > 0
                invariant
                    editor.wf(),
                    applied_all(start, all, on_enter, Edited::nothing()) == applied_all(editor@, waiting@, on_enter, edited),
                    self.pending@.len() == 0,
                decreases waiting@.len(),
            {
                let ghost before = waiting@;
                let input = waiting.remove(0);
                proof {
                    assert(waiting@ =~= before.drop_first());
                }
                edited = apply(editor, input, on_enter, edited);
            }
        }
        edited
    }

    /// Closes the frame.
    ///
    /// The fields built in it become the ones that exist. A click that
    /// finished in this frame anywhere but on one of them puts the keyboard
    /// down -- a click *on* a field never does, because the field picks that
    /// click up next frame and takes the keyboard. Keystrokes nobody was
    /// listening for are dropped: kept, they would arrive in whatever is
    /// focused next.
    pub fn end_frame(&mut self, clicked: Option<Id>, released: bool)
        ensures
            final(self)@.fields == old(self)@.seen,
            final(self)@.seen.len() == 0,
            old(self)@.distinct() ==> final(self)@.distinct(),
            final(self)@.pending.len() == 0,
            final(self)@.focused == (if released && !(clicked matches Some(c) && old(self)@.seen.contains(c@)) {
                None
            } else {
                old(self)@.focused
            }),
    {
        let mut seen: Vec<Id> = Vec::new();
        std::mem::swap(&mut seen, &mut self.seen);
        self.fields = seen;
        let onto_a_field = match clicked {
            Some(id) => contains_id(&self.fields, id),
            None => false,
        };
        if released && !onto_a_field {
            self.blur();
        }
        self.pending.clear();
        proof {
            assert(names(self.seen@) =~= Seq::<Seq<char>>::empty());
        }
    }
}

/// The mouse button, across frames: whether it was down last frame, which
/// box it went down on, and whether a click finished this frame.
pub struct Clicks {
    was_down: bool,
    pressed_on: Option<Id>,
    released: bool,
}

/// The mouse button's state as a value.
pub struct ClicksView {
    pub was_down: bool,
    pub pressed_on: Option<Seq<char>>,
    pub released: bool,
}

impl View for Clicks {
    type V = ClicksView;

    closed spec fn view(&self) -> ClicksView {
        ClicksView { was_down: self.was_down, pressed_on: name_of(self.pressed_on), released: self.released }
    }
}

/// What the button did this frame, given the name of the box under the
/// pointer: the state for next frame, what is held, and what was clicked.
pub open spec fn resolution(v: ClicksView, hovered: Option<Seq<char>>, down: bool) -> (ClicksView, Option<Seq<char>>, Option<Seq<char>>) {
    let went_down = down && !v.was_down;
    let came_up = !down && v.was_down;
    let pressed_on = if went_down { hovered } else { v.pressed_on };
    let clicked = if came_up && pressed_on is Some && pressed_on == hovered { pressed_on } else { None };
    let held = if down { pressed_on } else { None };
    (
        ClicksView { was_down: down, pressed_on: if came_up { None } else { pressed_on }, released: came_up },
        held,
        clicked,
    )
}

/// The name of the last box, in the order they were painted, whose bounds
/// hold `point`.
pub open spec fn topmost<U: Copy + Add<Output = U> + Sub<Output = U> + PartialOrd>(
    painted: Seq<(Id, Rect<U>)>,
    point: Point<U>,
) -> Option<Seq<char>>
    decreases painted.len(),
{
    if painted.len() == 0 {
        None
    } else if painted.last().1.holds(point) {
        Some(painted.last().0@)
    } else {
        topmost(painted.drop_last(), point)
    }
}

/// How a field's line is shown, in the pieces it is drawn as.
#[derive(Debug, Clone, PartialEq, Eq)]
pub enum Line {
    /// Nothing typed and nothing composing: the placeholder is shown instead.
    Empty,
    /// A focused field with a selection: the text before it, the selected
    /// text, and the text after it.
    Selected(String, String, String),
    /// The text before the caret and after it, where the caret or what the
    /// input method is composing goes between them.
    AtCaret(String, String),
}

/// The characters of the bytes of `text` from `from` to `to`.
pub open spec fn between(text: Seq<char>, from: int, to: int) -> Seq<char> {
    decode_utf8(bytes(text).subrange(from, to))
}

/// Whether `line` is how a field holding `v` is shown, focused or not: the
/// placeholder when there is nothing to show, the selection picked out when
/// the field is focused and has one, and otherwise the text split at the
/// caret.
pub open spec fn shows(v: EditorView, focused: bool, line: Line) -> bool {
    if v.text.len() == 0 && v.preedit.len() == 0 {
        line is Empty
    } else if focused && v.selection() is Some {
        let (from, to) = v.selection()->0;
        &&& line matches Line::Selected(before, selected, after)
        &&& before@ == between(v.text, 0, from as int)
        &&& selected@ == between(v.text, from as int, to as int)
        &&& after@ == between(v.text, to as int, v.len() as int)
    } else {
        &&& line matches Line::AtCaret(before, after)
        &&& before@ == between(v.text, 0, v.caret as int)
        &&& after@ == between(v.text, v.caret as int, v.len() as int)
    }
}

/// Cutting a text at a character boundary and putting the two sides back
/// together gives the text.
proof fn lemma_between_joins(text: Seq<char>, from: int, at: int, to: int)
    requires
        0 <= from <= at <= to <= bytes(text).len(),
        is_char_boundary(bytes(text), from),
        is_char_boundary(bytes(text), at),
        is_char_boundary(bytes(text), to),
    ensures
        between(text, from, at) + between(text, at, to) == between(text, from, to),
{
    let all = bytes(text);
    let piece = all.subrange(from, to);
    valid_utf8_split(all, to);
    let head = all.subrange(0, to);
    assert(is_char_boundary(head, from)) by {
        if from < to {
            is_char_boundary_iff_not_is_continuation_byte(all, from);
            is_char_boundary_iff_not_is_continuation_byte(head, from);
        } else {
            is_char_boundary_start_end_of_seq(head);
        }
    }
    valid_utf8_split(head, from);
    assert(head.subrange(from, head.len() as int) =~= piece);
    assert(is_char_boundary(piece, at - from)) by {
        if at < to {
            is_char_boundary_iff_not_is_continuation_byte(all, at);
            is_char_boundary_iff_not_is_continuation_byte(piece, at - from);
        } else {
            is_char_boundary_start_end_of_seq(piece);
        }
    }
    decode_utf8_split(piece, at - from);
    assert(piece.subrange(0, at - from) =~= all.subrange(from, at));
    assert(piece.subrange(at - from, piece.len() as int) =~= all.subrange(at, to));
}

/// Nothing of the text is lost or shown twice: the pieces a field is drawn
/// as, put back together, are its text.
pub proof fn a_line_shows_the_whole_text(v: EditorView, focused: bool, line: Line)
    requires
        v.well_placed(),
        shows(v, focused, line),
    ensures
        line matches Line::Selected(before, selected, after) ==> before@ + selected@ + after@ == v.text,
        line matches Line::AtCaret(before, after) ==> before@ + after@ == v.text,
{
    let all = bytes(v.text);
    is_char_boundary_start_end_of_seq(all);
    assert(all.subrange(0, all.len() as int) =~= all);
    encode_utf8_decode_utf8(v.text);
    match line {
        Line::Selected(before, selected, after) => {
            let (from, to) = v.selection()->0;
            lemma_between_joins(v.text, 0, from as int, to as int);
            lemma_between_joins(v.text, 0, to as int, v.len() as int);
        },
        Line::AtCaret(before, after) => {
            lemma_between_joins(v.text, 0, v.caret as int, v.len() as int);
        },
        Line::Empty => {},
    }
}

/// The bytes of `text` from `from` to `to`, when both are character
/// boundaries.
fn slice_between(text: &str, from: usize, to: usize) -> (out: String)
    requires
        from <= to <= bytes(text@).len(),
        is_char_boundary(bytes(text@), from as int),
        is_char_boundary(bytes(text@), to as int),
    ensures
        out@ == between(text@, from as int, to as int),
{
    let ghost all = bytes(text@);
    proof {
        valid_utf8_split(all, to as int);
        let head = all.subrange(0, to as int);
        if from < to {
            is_char_boundary_iff_not_is_continuation_byte(all, from as int);
            is_char_boundary_iff_not_is_continuation_byte(head, from as int);
        } else {
            is_char_boundary_start_end_of_seq(head);
        }
    }
    let (head, _) = text.split_at(to);
    let (_, middle) = head.split_at(from);
    proof {
        assert(bytes(middle@) =~= all.subrange(from as int, to as int));
        assert(decode_utf8(bytes(middle@)) == middle@);
    }
    String::from_str(middle)
}

/// How a field is shown: what goes before and after the caret or the
/// selection, cut on character boundaries.
pub fn shown_line(editor: &Editor, focused: bool) -> (line: Line)
    requires
        editor.wf(),
    ensures
        shows(editor@, focused, line),
{
    if editor.is_empty() {
        return Line::Empty;
    }
    let text = editor.text();
    let len = byte_len(text);
    proof {
        is_char_boundary_start_end_of_seq(bytes(text@));
    }
    match editor.selection() {
        Some((from, to)) if focused => Line::Selected(
            slice_between(text, 0, from),
            slice_between(text, from, to),
            slice_between(text, to, len),
        ),
        _ => {
            let at = editor.caret();
            Line::AtCaret(slice_between(text, 0, at), slice_between(text, at, len))
        },
    }
}

/// The first `n` of a run.
pub open spec fn front<T>(run: Seq<T>, n: usize) -> Seq<T> {
    run.subrange(0, n as int)
}

/// The box under the pointer: of the named boxes a frame painted, in the
/// order it painted them, the last one whose bounds hold `point`.
///
/// Last wins: a box painted later is drawn on top of one painted earlier, and
/// the thing you can see is the thing you are pointing at.
pub fn hovered_box<U: Copy + Add<Output = U> + Sub<Output = U> + PartialOrd>(
    painted: &[(Id, Rect<U>)],
    point: Point<U>,
) -> (hit: Option<Id>)
    requires
        forall|i: int| 0 <= i < painted@.len() ==> (#[trigger] painted@[i]).1.edges_addable(),
    ensures
        U::obeys_add_spec() && U::obeys_partial_cmp_spec() ==> name_of(hit) == topmost(painted@, point),
{
    let mut i: usize = painted.len();
    assert(front(painted@, i) =~= painted@);
    while i > 0
        invariant
            i <= painted@.len(),
            forall|j: int| 0 <= j < painted@.len() ==> (#[trigger] painted@[j]).1.edges_addable(),
            U::obeys_add_spec() && U::obeys_partial_cmp_spec() ==> topmost(painted@, point) == topmost(
                front(painted@, i),
                point,
            ),
        decreases i,
    {
        let below: usize = i - 1;
        let ghost before = front(painted@, i);
        assert(before.drop_last() =~= front(painted@, below));
        assert(before.last() == painted@[i - 1]);
        let (id, bounds) = &painted[below];
        if bounds.contains(point) {
            return Some(*id);
        }
        i = below;
    }
    proof {
        assert(front(painted@, 0) =~= Seq::<(Id, Rect<U>)>::empty());
    }
    None
}

/// A click is only ever of the box the button went down on, with the pointer
/// over that same box as it comes up.
pub proof fn a_click_is_of_the_box_pressed_and_released_on(v: ClicksView, hovered: Option<Seq<char>>, down: bool)
    ensures
        resolution(v, hovered, down).2 matches Some(c) ==> {
            &&& v.was_down && !down
            &&& v.pressed_on == Some(c)
            &&& hovered == Some(c)
        },
{
}

/// Pressing on a box and letting go over it is a click of that box: held
/// while the button is down, clicked once it comes up and not before.
pub proof fn a_press_and_a_release_on_the_same_box_is_a_click(v: ClicksView, name: Seq<char>)
    requires
        !v.was_down,
    ensures
        ({
            let (pressed, held, clicked) = resolution(v, Some(name), true);
            let (_, held_after, clicked_after) = resolution(pressed, Some(name), false);
            &&& held == Some(name) && clicked is None
            &&& held_after is None && clicked_after == Some(name)
        }),
{
}

/// Pressing on a box and letting go anywhere else clicks nothing: not the
/// box it went down on, and not the one it came up over.
pub proof fn letting_go_somewhere_else_is_not_a_click(v: ClicksView, name: Seq<char>, over: Option<Seq<char>>)
    requires
        !v.was_down,
        over != Some(name),
    ensures
        ({
            let (pressed, _, _) = resolution(v, Some(name), true);
            let (after, _, clicked) = resolution(pressed, over, false);
            clicked is None && after.released
        }),
{
}

impl Clicks {
    /// The button up, and nothing pressed.
    pub fn new() -> (clicks: Self)
        ensures
            !clicks@.was_down,
            clicks@.pressed_on is None,
            !clicks@.released,
    {
        Clicks { was_down: false, pressed_on: None, released: false }
    }

    /// Whether a click finished in the frame just resolved, wherever it landed.
    pub fn released(&self) -> (released: bool)
        ensures
            released == self@.released,
    {
        self.released
    }

    /// Turns the box under the pointer and the button's state into what was
    /// held and what was clicked.
    ///
    /// A click is a press and a release on the same box. Not "released over
    /// it": pressing one button, sliding onto another and letting go there
    /// does nothing.
    pub fn resolve(&mut self, hovered: Option<Id>, down: bool) -> (answer: (Option<Id>, Option<Id>))
        ensures
            resolution(old(self)@, name_of(hovered), down) == (final(self)@, name_of(answer.0), name_of(answer.1)),
    {
        let went_down = down && !self.was_down;
        let came_up = !down && self.was_down;
        if went_down {
            self.pressed_on = hovered;
        }
        let clicked = if came_up && self.pressed_on.is_some() && same_id(self.pressed_on, hovered) {
            self.pressed_on
        } else {
            None
        };
        self.released = came_up;
        if came_up {
            self.pressed_on = None;
        }
        self.was_down = down;
        let pressed = if down { self.pressed_on } else { None };
        (pressed, clicked)
    }
}

} // verus!
