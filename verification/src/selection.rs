//! A selection over a text: an anchor and an active end, both flat grapheme indices.

use vstd::prelude::*;

verus! {

/// A selection; when `anchor == active` it is a plain cursor.
#[derive(Clone, Debug)]
pub struct Selection {
    /// Anchor point (where selection started), flat grapheme index
    pub anchor: usize,
    /// Active point / cursor position, flat grapheme index
    pub active: usize,
}

impl Selection {
    /// Lower end of the selection.
    pub open spec fn spec_start(&self) -> usize {
        if self.anchor <= self.active { self.anchor } else { self.active }
    }

    /// Upper end of the selection.
    pub open spec fn spec_end(&self) -> usize {
        if self.anchor <= self.active { self.active } else { self.anchor }
    }

    /// The selection after moving the active end to `pos`; the anchor
    /// follows unless the selection is being extended.
    pub open spec fn moved_to(self, pos: usize, extend: bool) -> Selection {
        Selection { anchor: if extend { self.anchor } else { pos }, active: pos }
    }

    /// A collapsed selection at index 0.
    pub fn new() -> (s: Self)
        ensures
            s.anchor == 0,
            s.active == 0,
    {
        Selection { anchor: 0, active: 0 }
    }

    /// True when the selection is empty (a plain cursor).
    pub fn is_collapsed(&self) -> (b: bool)
        ensures
            b == (self.anchor == self.active),
    {
        self.anchor == self.active
    }

    /// The smaller of anchor and active.
    #[verifier::when_used_as_spec(spec_start)]
    pub fn start(&self) -> (s: usize)
        ensures
            s == self.spec_start(),
    {
        if self.anchor <= self.active { self.anchor } else { self.active }
    }

    /// The larger of anchor and active.
    #[verifier::when_used_as_spec(spec_end)]
    pub fn end(&self) -> (e: usize)
        ensures
            e == self.spec_end(),
    {
        if self.anchor <= self.active { self.active } else { self.anchor }
    }

    /// Collapses the selection to a cursor at `pos`.
    pub fn set_cursor(&mut self, pos: usize)
        ensures
            final(self).anchor == pos,
            final(self).active == pos,
    {
        self.anchor = pos;
        self.active = pos;
    }
}

} // verus!
