use wisp::input::{Key, Press};
use wisp::text::Weight;
use wisp::theme::{Elevation, Role};

#[test]
fn only_the_display_role_is_bold() {
    assert_eq!(Role::Display.weight(), Weight::Bold);
    assert_eq!(Role::Title.weight(), Weight::Medium);
    assert_eq!(Role::Label.weight(), Weight::Medium);
    assert_eq!(Role::Body.weight(), Weight::Regular);
    assert_eq!(Role::Caption.weight(), Weight::Regular);
}

#[test]
fn every_role_and_elevation_is_listed_once() {
    assert_eq!(Role::EVERY.len(), 5);
    assert_eq!(Elevation::EVERY.len(), 4);
    assert_eq!(Role::EVERY[0], Role::Display);
    assert_eq!(Elevation::EVERY[3], Elevation::Floating);
}

#[test]
fn a_plain_press_has_no_modifiers() {
    let press = Press::new(Key::Left);
    assert_eq!(press.key, Key::Left);
    assert!(!press.shift && !press.word && !press.modifier);
}
