use wisp::editor::Editor;
use wisp::element::Id;
use wisp::geometry::{Point, Rect};
use wisp::input::{Composition, Input, Key, Press};
use wisp::ui::{apply, hovered_box, shown_line, Clicks, Edited, Focus, Line, OnEnter};

fn press(key: Key) -> Input {
    Input::Key(Press::new(key))
}

#[test]
fn clicks_a_click_is_a_press_and_a_release_on_the_same_box() {
    let mut clicks = Clicks::new();
    let (held, clicked) = clicks.resolve(Some(Id("button")), true);
    assert_eq!(held, Some(Id("button")), "should read as held");
    assert_eq!(clicked, None, "not clicked until it is let go");
    let (held, clicked) = clicks.resolve(Some(Id("button")), false);
    assert_eq!(held, None);
    assert_eq!(clicked, Some(Id("button")));
    assert!(clicks.released());
}

#[test]
fn clicks_letting_go_somewhere_else_is_not_a_click() {
    let mut clicks = Clicks::new();
    clicks.resolve(Some(Id("button")), true);
    let (_, clicked) = clicks.resolve(Some(Id("elsewhere")), false);
    assert_eq!(clicked, None, "and not the thing it was let go over");
    assert!(clicks.released());
    let (_, clicked) = clicks.resolve(Some(Id("elsewhere")), false);
    assert_eq!(clicked, None);
    assert!(!clicks.released());
}

#[test]
fn clicks_holding_the_button_over_a_box_keeps_it_held() {
    let mut clicks = Clicks::new();
    clicks.resolve(Some(Id("button")), true);
    let (held, clicked) = clicks.resolve(Some(Id("other")), true);
    assert_eq!(held, Some(Id("button")));
    assert_eq!(clicked, None);
}

#[test]
fn what_is_painted_last_is_what_is_pointed_at() {
    let painted = vec![
        (Id("under"), Rect::from_edges(0.0f32, 0.0, 100.0, 100.0)),
        (Id("over"), Rect::from_edges(10.0f32, 10.0, 80.0, 80.0)),
    ];
    assert_eq!(hovered_box(&painted, Point::new(50.0, 50.0)), Some(Id("over")));
    assert_eq!(hovered_box(&painted, Point::new(90.0, 90.0)), Some(Id("under")));
    assert_eq!(hovered_box(&painted, Point::new(f32::MIN, f32::MIN)), None);
}

#[test]
fn focus_a_field_only_takes_the_keyboard_once_it_has_been_clicked() {
    let mut focus = Focus::new();
    let mut editor = Editor::new("");
    focus.input(press(Key::Insert("x".to_string())));
    let edited = focus.field("box", false, &mut editor, OnEnter::Submit);
    assert_eq!(editor.text(), "", "an unfocused field is not listening");
    assert_eq!(edited, Edited::default());
    focus.end_frame(None, false);
    focus.input(press(Key::Insert("y".to_string())));
    let edited = focus.field("box", true, &mut editor, OnEnter::Submit);
    assert_eq!(editor.text(), "y");
    assert!(edited.changed);
}

#[test]
fn focus_clicking_away_puts_the_keyboard_down() {
    let mut focus = Focus::new();
    focus.focus("box");
    let mut editor = Editor::new("");
    focus.field("box", false, &mut editor, OnEnter::Submit);
    focus.end_frame(Some(Id("box")), true);
    assert!(focus.has_focus("box"), "a click on the field keeps it");
    focus.field("box", false, &mut editor, OnEnter::Submit);
    focus.end_frame(None, true);
    assert_eq!(focus.focused(), None);
}

#[test]
fn focus_an_input_method_composes_before_it_commits() {
    let mut focus = Focus::new();
    focus.focus("box");
    let mut editor = Editor::new("");
    focus.input(Input::Ime(Composition::Preedit("하".to_string(), None)));
    focus.field("box", false, &mut editor, OnEnter::Submit);
    assert_eq!(editor.text(), "", "composing text is not in the document");
    assert_eq!(editor.preedit().text, "하");
    focus.end_frame(None, false);
    focus.input(Input::Ime(Composition::Commit("한".to_string())));
    focus.field("box", false, &mut editor, OnEnter::Submit);
    assert_eq!(editor.text(), "한");
    assert_eq!(editor.preedit().text, "");
}

#[test]
fn return_submits_and_the_modifier_makes_a_line_in_a_field() {
    let mut editor = Editor::new("hello");
    let edited = apply(&mut editor, press(Key::Enter), OnEnter::Submit, Edited::default());
    assert!(edited.submitted);
    assert!(!edited.changed);
    assert_eq!(editor.text(), "hello", "submitting does not change the text");
    let enter = Press { key: Key::Enter, shift: false, word: false, modifier: true };
    let edited = apply(&mut editor, Input::Key(enter), OnEnter::Submit, Edited::default());
    assert!(!edited.submitted);
    assert!(edited.changed);
    assert_eq!(editor.text(), "hello\n");
}

#[test]
fn a_newline_field_makes_a_line_on_return() {
    let mut editor = Editor::new("x");
    let edited = apply(&mut editor, press(Key::Enter), OnEnter::Newline, Edited::default());
    assert!(!edited.submitted);
    assert_eq!(editor.text(), "x\n");
}

#[test]
fn escape_cancels_and_leaves_the_text_alone() {
    let mut editor = Editor::new("draft");
    let edited = apply(&mut editor, press(Key::Escape), OnEnter::Submit, Edited::default());
    assert!(edited.cancelled);
    assert!(!edited.changed);
    assert_eq!(editor.text(), "draft");
}

#[test]
fn keystrokes_nobody_was_listening_for_are_dropped_at_the_end_of_a_frame() {
    let mut focus = Focus::new();
    let mut editor = Editor::new("");
    focus.input(press(Key::Insert("stray".to_string())));
    focus.end_frame(None, false);
    focus.focus("box");
    focus.field("box", false, &mut editor, OnEnter::Submit);
    assert_eq!(editor.text(), "");
}

#[test]
fn blurring_drops_what_the_input_method_was_composing() {
    let mut focus = Focus::new();
    focus.focus("a");
    focus.input(Input::Ime(Composition::Preedit("ㅎ".to_string(), None)));
    focus.input(press(Key::Insert("k".to_string())));
    focus.blur();
    assert_eq!(focus.focused(), None);
    focus.focus("b");
    let mut editor = Editor::new("");
    focus.field("b", false, &mut editor, OnEnter::Submit);
    assert_eq!(editor.text(), "k");
    assert_eq!(editor.preedit().text, "");
}

#[test]
fn an_empty_field_shows_its_placeholder() {
    let editor = Editor::new("");
    assert_eq!(shown_line(&editor, true), Line::Empty);
    assert_eq!(shown_line(&editor, false), Line::Empty);
}

#[test]
fn a_focused_selection_is_shown_picked_out() {
    let mut editor = Editor::new("hello world");
    editor.place(0, false);
    editor.place(5, true);
    assert_eq!(
        shown_line(&editor, true),
        Line::Selected("".to_string(), "hello".to_string(), " world".to_string())
    );
    assert_eq!(
        shown_line(&editor, false),
        Line::AtCaret("hello".to_string(), " world".to_string()),
        "an unfocused field shows no selection"
    );
}

#[test]
fn a_line_is_cut_at_the_caret_on_a_character_boundary() {
    let mut editor = Editor::new("한글");
    editor.place(3, false);
    assert_eq!(shown_line(&editor, true), Line::AtCaret("한".to_string(), "글".to_string()));
}

#[test]
fn backspace_on_an_empty_field_changes_nothing() {
    let mut editor = Editor::new("");
    let edited = apply(&mut editor, press(Key::Backspace), OnEnter::Submit, Edited::default());
    assert!(!edited.changed, "nothing was removed, so nothing changed");
    assert!(!edited.submitted);
    assert!(!edited.cancelled);
    assert_eq!(editor.text(), "");
}

#[test]
fn forward_delete_at_the_end_changes_nothing() {
    let mut editor = Editor::new("ab");
    let edited = apply(&mut editor, press(Key::Delete), OnEnter::Submit, Edited::default());
    assert!(!edited.changed);
    assert_eq!(editor.text(), "ab");
    editor.place(0, false);
    let edited = apply(&mut editor, press(Key::Delete), OnEnter::Submit, Edited::default());
    assert!(edited.changed);
    assert_eq!(editor.text(), "b");
}

#[test]
fn a_change_earlier_in_the_frame_is_kept() {
    let mut editor = Editor::new("");
    let before = Edited { changed: true, submitted: false, cancelled: false };
    let edited = apply(&mut editor, press(Key::Backspace), OnEnter::Submit, before);
    assert!(edited.changed);
}
