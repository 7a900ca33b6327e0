//! A type scale and a surface ramp, shipped rather than left to the
//! application.
//!
//! The steps have names. A caller asks for [`Role::Title`] rather than for
//! nineteen points, and the question at each site becomes *what is this*
//! instead of *how big should this be*.

use vstd::prelude::*;

use crate::text::Weight;

verus! {

/// What a piece of text is for. Size and weight follow from that.
#[derive(Debug, Clone, Copy, PartialEq, Eq)]
pub enum Role {
    /// The one thing a screen is about. At most one per screen: a second
    /// display-sized thing means neither of them is the answer.
    Display,
    Title,
    /// What is read. Replies, messages, the rows of a list.
    Body,
    /// The name of a control -- shorter than a sentence.
    Label,
    /// Metadata only. Timestamps, counts, status. Anything a reader can skip
    /// without losing the thread.
    Caption,
}

impl Role {
    pub const EVERY: [Role; 5] = [Role::Display, Role::Title, Role::Body, Role::Label, Role::Caption];

    /// 400, 500, 700 -- the three weights a text stack can be relied on to
    /// have. Asking for 600 on a family that ships five weights gets 700
    /// anyway, and asking for it on one that ships two gets 400.
    pub fn weight(self) -> (weight: Weight)
        ensures
            weight == (match self {
                Role::Display => Weight::Bold,
                Role::Title | Role::Label => Weight::Medium,
                Role::Body | Role::Caption => Weight::Regular,
            }),
    {
        match self {
            Role::Display => Weight::Bold,
            Role::Title => Weight::Medium,
            Role::Body | Role::Caption => Weight::Regular,
            Role::Label => Weight::Medium,
        }
    }
}

/// How far a surface is lifted off the window's background.
#[derive(Debug, Clone, Copy, PartialEq, Eq)]
pub enum Elevation {
    /// Below the page: a sidebar, a status line.
    Sunk,
    /// The page.
    Base,
    /// A card on the page.
    Raised,
    /// Over the page: a popover, a composer, anything you are meant to reach
    /// for. The only step that carries a shadow.
    Floating,
}

impl Elevation {
    pub const EVERY: [Elevation; 4] = [Elevation::Sunk, Elevation::Base, Elevation::Raised, Elevation::Floating];
}

} // verus!
