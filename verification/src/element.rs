//! The names and the few plain choices a frame is described with.
//!
//! A box with an [`Id`] can be asked about afterwards -- was it hovered, was
//! it clicked -- and a box without one costs nothing to leave anonymous.

use vstd::prelude::*;

verus! {

/// A name for a box, so that input can be asked about it by name.
///
/// A borrowed string rather than an owned one: these are almost always literals
/// in the source, and a frame should not allocate to name its own buttons.
#[derive(Debug, Clone, Copy, PartialEq, Eq, Hash)]
pub struct Id(pub &'static str);

impl View for Id {
    type V = Seq<char>;

    open spec fn view(&self) -> Seq<char> {
        self.0@
    }
}

/// The name an optional box goes by, if there is one.
pub open spec fn name_of(id: Option<Id>) -> Option<Seq<char>> {
    match id {
        Some(i) => Some(i@),
        None => None,
    }
}

/// `<str as PartialEq>::eq`.
///
/// Trusted: two strings compare equal exactly when they hold the same
/// characters, as std documents.
#[verifier::external_body]
pub(crate) fn same_text(a: &str, b: &str) -> (same: bool)
    ensures
        same == (a@ == b@),
{
    a == b
}

impl Id {
    /// Whether two ids name the same box.
    pub fn is(&self, other: &Id) -> (same: bool)
        ensures
            same == (self@ == other@),
    {
        same_text(self.0, other.0)
    }
}

/// Whether two optional ids name the same box, or both name none.
pub fn same_id(a: Option<Id>, b: Option<Id>) -> (same: bool)
    ensures
        same == (name_of(a) == name_of(b)),
{
    match (a, b) {
        (Some(x), Some(y)) => x.is(&y),
        (None, None) => true,
        _ => false,
    }
}

#[derive(Debug, Clone, Copy, PartialEq, Eq)]
pub enum Axis {
    Row,
    Column,
}

/// Where children sit along an axis.
#[derive(Debug, Clone, Copy, PartialEq, Eq)]
pub enum Place {
    Start,
    Centre,
    End,
    /// Space between, first at the start and last at the end.
    Between,
    /// Fill the axis: every child stretched to the cross size.
    Stretch,
}

} // verus!
