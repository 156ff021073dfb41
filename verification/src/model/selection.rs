//! The canonical display target.
use crate::session::{address_of, address_text};
use vstd::prelude::*;

verus! {

/// What the display shows. `window` is set only for the selection of a window.
#[derive(Clone, Debug, PartialEq, Eq)]
pub struct Selection {
    pub source: String,
    /// Empty where no terminal is shown.
    pub session: String,
    pub window: Option<i64>,
}

impl Default for Selection {
    fn default() -> (s: Selection)
        ensures
            s.source@.len() == 0,
            s.session@.len() == 0,
            s.window is None,
    {
        Selection { source: String::new(), session: String::new(), window: None }
    }
}

impl Selection {
    /// `source/session`, the key of the attachment.
    pub fn address(&self) -> (a: String)
        ensures
            a@ == address_text(self.source@, self.session@),
    {
        address_of(self.source.as_str(), self.session.as_str())
    }

    /// Whether no session is selected.
    pub fn is_empty(&self) -> (r: bool)
        ensures
            r == (self.session@.len() == 0),
    {
        self.session.as_str().is_empty()
    }
}

} // verus!
