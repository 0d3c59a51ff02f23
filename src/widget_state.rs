use vstd::prelude::*;

verus! {

/// One cache domain that can go stale.
#[derive(Clone, Copy, Debug, PartialEq, Eq, Structural)]
pub enum DirtyFlags {
    PreferredSize,
    ContentSize,
    Position,
    Style,
}

/// The per-widget record of which cached quantities must be recomputed.
#[derive(Clone, Copy, Debug, PartialEq, Eq, Structural)]
pub struct WidgetState {
    pub preferred_size: bool,
    pub content_size: bool,
    pub position: bool,
    pub style: bool,
}

impl WidgetState {
    pub open spec fn is_dirty(self, flag: DirtyFlags) -> bool {
        match flag {
            DirtyFlags::PreferredSize => self.preferred_size,
            DirtyFlags::ContentSize => self.content_size,
            DirtyFlags::Position => self.position,
            DirtyFlags::Style => self.style,
        }
    }

    /// A fresh state: every cached quantity is stale.
    pub fn new() -> (r: WidgetState)
        ensures
            forall|f: DirtyFlags| r.is_dirty(f),
            r == (WidgetState { preferred_size: true, content_size: true, position: true, style: true }),
    {
        WidgetState { preferred_size: true, content_size: true, position: true, style: true }
    }

    pub fn is_flag_dirty(&self, flag: DirtyFlags) -> (r: bool)
        ensures
            r == self.is_dirty(flag),
    {
        match flag {
            DirtyFlags::PreferredSize => self.preferred_size,
            DirtyFlags::ContentSize => self.content_size,
            DirtyFlags::Position => self.position,
            DirtyFlags::Style => self.style,
        }
    }

    /// Marks one flag stale, leaving the others as they were.
    pub fn mark_dirty(&mut self, flag: DirtyFlags)
        ensures
            final(self).is_dirty(flag),
            forall|f: DirtyFlags| f != flag ==> final(self).is_dirty(f) == old(self).is_dirty(f),
    {
        match flag {
            DirtyFlags::PreferredSize => self.preferred_size = true,
            DirtyFlags::ContentSize => self.content_size = true,
            DirtyFlags::Position => self.position = true,
            DirtyFlags::Style => self.style = true,
        }
    }

    /// Tests and clears one flag. Returns `true` when the flag was already
    /// clear (nothing to recompute, state unchanged); otherwise clears it and
    /// returns `false` (the caller must recompute).
    pub fn dirty_flag_clean(&mut self, flag: DirtyFlags) -> (r: bool)
        ensures
            r == !old(self).is_dirty(flag),
            !final(self).is_dirty(flag),
            forall|f: DirtyFlags| f != flag ==> final(self).is_dirty(f) == old(self).is_dirty(f),
            r ==> *final(self) == *old(self),
    {
        let was_dirty = self.is_flag_dirty(flag);
        if !was_dirty {
            return true;
        }
        match flag {
            DirtyFlags::PreferredSize => self.preferred_size = false,
            DirtyFlags::ContentSize => self.content_size = false,
            DirtyFlags::Position => self.position = false,
            DirtyFlags::Style => self.style = false,
        }
        false
    }
}

} // verus!
