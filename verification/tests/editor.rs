use wisp::editor::Editor;

#[test]
fn typing_puts_text_where_the_caret_is() {
    let mut editor = Editor::new("ac");
    editor.place(1, false);
    editor.insert("b");
    assert_eq!(editor.text(), "abc");
    assert_eq!(editor.caret(), 2);
}

#[test]
fn backspace_takes_a_whole_syllable() {
    // The reason this counts graphemes rather than chars. Precomposed
    // Hangul is one char per syllable, but decomposed it is three, and a
    // backspace that ate one would leave a jamo fragment on screen.
    let mut editor = Editor::new("한글");
    editor.backspace();
    assert_eq!(editor.text(), "한");
    editor.backspace();
    assert_eq!(editor.text(), "");
}

#[test]
fn backspace_takes_a_whole_emoji() {
    let mut editor = Editor::new("hi 👩‍💻");
    editor.backspace();
    assert_eq!(editor.text(), "hi ", "half an emoji was left behind");
}

#[test]
fn backspace_at_the_start_does_nothing_rather_than_panicking() {
    let mut editor = Editor::new("");
    editor.backspace();
    assert_eq!(editor.text(), "");
    assert_eq!(editor.caret(), 0);
}

#[test]
fn a_selection_is_replaced_by_what_is_typed() {
    let mut editor = Editor::new("hello world");
    editor.place(0, false);
    editor.place(5, true);
    assert_eq!(editor.selected(), "hello");
    editor.insert("goodbye");
    assert_eq!(editor.text(), "goodbye world");
    assert_eq!(editor.selection(), None);
}

#[test]
fn backspace_with_a_selection_takes_the_selection_and_no_more() {
    let mut editor = Editor::new("hello world");
    editor.place(5, false);
    editor.place(11, true);
    editor.backspace();
    assert_eq!(editor.text(), "hello");
}

#[test]
fn an_arrow_key_collapses_a_selection_rather_than_moving_from_the_caret() {
    // What every other text field does. Moving from the caret instead
    // leaves the selection's far end where it was, which reads as the
    // cursor jumping.
    let mut editor = Editor::new("hello");
    editor.place(1, false);
    editor.place(4, true);
    editor.move_left(false);
    assert_eq!(editor.caret(), 1);
    assert_eq!(editor.selection(), None);

    editor.place(1, false);
    editor.place(4, true);
    editor.move_right(false);
    assert_eq!(editor.caret(), 4);
}

#[test]
fn shift_and_an_arrow_extends_the_selection() {
    let mut editor = Editor::new("hello");
    editor.move_home(false);
    editor.move_right(true);
    editor.move_right(true);
    assert_eq!(editor.selected(), "he");
}

#[test]
fn the_caret_cannot_be_moved_off_either_end() {
    let mut editor = Editor::new("ab");
    editor.move_home(false);
    editor.move_left(false);
    assert_eq!(editor.caret(), 0);
    editor.move_end(false);
    editor.move_right(false);
    assert_eq!(editor.caret(), 2);
}

#[test]
fn a_word_jump_lands_between_words() {
    let mut editor = Editor::new("the quick brown");
    editor.move_end(false);
    editor.move_word_left(false);
    assert_eq!(&editor.text()[editor.caret()..], "brown");
    editor.move_word_left(false);
    assert_eq!(&editor.text()[editor.caret()..], "quick brown");
}

#[test]
fn composing_text_stays_out_of_the_document() {
    // The half-typed syllable belongs to the input method until it is
    // committed. Putting it in the string would mean anything reading the
    // field -- a send button, a length check -- seeing a fragment.
    let mut editor = Editor::new("");
    editor.compose("ㅎ".into(), None);
    assert_eq!(editor.text(), "");
    assert_eq!(editor.preedit().text, "ㅎ");
    assert!(!editor.is_empty(), "there is something being typed");

    editor.compose("한".into(), None);
    assert_eq!(editor.text(), "");
    editor.insert("한");
    assert_eq!(editor.text(), "한");
    assert_eq!(editor.preedit().text, "", "committing ends the composition");
}

#[test]
fn placing_the_caret_inside_a_syllable_snaps_it_to_the_edge() {
    // A click lands on a pixel, and a pixel can be halfway through a
    // three-byte character. Slicing there panics.
    let mut editor = Editor::new("한글");
    editor.place(1, false);
    assert_eq!(editor.caret(), 0);
    editor.place(4, false);
    assert_eq!(editor.caret(), 3);
    editor.place(999, false);
    assert_eq!(editor.caret(), editor.text().len());
}

#[test]
fn taking_the_text_leaves_the_field_ready_for_the_next_one() {
    let mut editor = Editor::new("send me");
    editor.compose("ㅎ".into(), None);
    assert_eq!(editor.take(), "send me");
    assert!(editor.is_empty());
    assert_eq!(editor.caret(), 0);
    assert_eq!(editor.preedit().text, "");
}

#[test]
fn select_all_covers_everything() {
    let mut editor = Editor::new("한글 and english");
    editor.select_all();
    assert_eq!(editor.selected(), editor.text());
}

// Beyond the cases above.

#[test]
fn a_word_jump_right_lands_at_the_end_of_the_next_word() {
    let mut editor = Editor::new("the quick brown");
    editor.move_home(false);
    editor.move_word_right(false);
    assert_eq!(editor.caret(), 9, "past \"quick\": the word at the caret has already begun");
    editor.move_word_right(false);
    assert_eq!(editor.caret(), 15);
    editor.move_word_right(false);
    assert_eq!(editor.caret(), 15, "nothing further right");
}

#[test]
fn forward_delete_takes_the_grapheme_after_the_caret() {
    let mut editor = Editor::new("a👩‍💻b");
    editor.place(1, false);
    editor.delete();
    assert_eq!(editor.text(), "ab");
    assert_eq!(editor.caret(), 1);
    editor.move_end(false);
    editor.delete();
    assert_eq!(editor.text(), "ab", "nothing after the end");
}

#[test]
fn set_replaces_everything_and_ends_composition() {
    let mut editor = Editor::new("old");
    editor.compose("ㅎ".into(), Some((0, 3)));
    editor.set("new text");
    assert_eq!(editor.text(), "new text");
    assert_eq!(editor.caret(), 8);
    assert_eq!(editor.selection(), None);
    assert!(editor.preedit().text.is_empty());
    assert_eq!(editor.preedit().cursor, None);
}

#[test]
fn a_backwards_selection_is_reported_low_to_high() {
    let mut editor = Editor::new("hello");
    editor.place(4, false);
    editor.place(1, true);
    assert_eq!(editor.selection(), Some((1, 4)));
    assert_eq!(editor.selected(), "ell");
}

#[test]
fn an_empty_field_selects_nothing_when_everything_is_selected() {
    let mut editor = Editor::new("");
    editor.select_all();
    assert_eq!(editor.selection(), None);
    assert_eq!(editor.selected(), "");
}

#[test]
fn a_word_jump_skips_wide_spaces_as_it_skips_plain_ones() {
    // U+3000 is three bytes of white space; the jump lands on the word
    // before it, not on the space itself.
    let mut editor = Editor::new("a\u{3000}b");
    editor.place(4, false);
    editor.move_word_left(false);
    assert_eq!(editor.caret(), 0);
    editor.place(0, false);
    editor.move_word_right(false);
    assert_eq!(editor.caret(), 5);
}
