//! The bookkeeping of nested application updates: effects queued during an
//! update are flushed when the outermost update finishes, and never while a
//! flush is already running.
use vstd::prelude::*;

verus! {

/// How many updates are running, one inside the other, and whether the
/// queued effects are being flushed.
#[derive(Debug, Clone, Copy, PartialEq, Eq, Structural)]
pub struct UpdateCycle {
    pub pending_updates: usize,
    pub flushing_effects: bool,
}

impl UpdateCycle {
    /// No update running, no flush.
    pub fn new() -> (c: UpdateCycle)
        ensures
            c == (UpdateCycle { pending_updates: 0, flushing_effects: false }),
    {
        UpdateCycle { pending_updates: 0, flushing_effects: false }
    }

    /// An update starts.
    pub fn begin_update(&mut self)
        requires
            old(self).pending_updates < usize::MAX,
        ensures
            *final(self) == (UpdateCycle {
                pending_updates: (old(self).pending_updates + 1) as usize,
                ..*old(self)
            }),
    {
        self.pending_updates = self.pending_updates + 1;
    }

    /// An update is finishing: tells whether the queued effects are to be
    /// flushed now, which is so for the outermost update when no flush is
    /// running; if so, a flush is marked as running.
    pub fn start_finish(&mut self) -> (flush: bool)
        ensures
            flush == (!old(self).flushing_effects && old(self).pending_updates == 1),
            *final(self) == (if flush {
                UpdateCycle { flushing_effects: true, ..*old(self) }
            } else {
                *old(self)
            }),
    {
        if !self.flushing_effects && self.pending_updates == 1 {
            self.flushing_effects = true;
            true
        } else {
            false
        }
    }

    /// The update has finished, after the flush that `start_finish` called
    /// for, if any: the flush is over and one update fewer runs.
    pub fn end_finish(&mut self, flushed: bool)
        requires
            old(self).pending_updates > 0,
        ensures
            *final(self) == (UpdateCycle {
                pending_updates: (old(self).pending_updates - 1) as usize,
                flushing_effects: if flushed {
                    false
                } else {
                    old(self).flushing_effects
                },
            }),
    {
        if flushed {
            self.flushing_effects = false;
        }
        self.pending_updates = self.pending_updates - 1;
    }
}

/// The state after a whole update: started, finished, with the flush that
/// finishing calls for.
pub open spec fn after_update(c: UpdateCycle) -> UpdateCycle {
    let started = UpdateCycle { pending_updates: (c.pending_updates + 1) as usize, ..c };
    let flush = !started.flushing_effects && started.pending_updates == 1;
    UpdateCycle {
        pending_updates: (started.pending_updates - 1) as usize,
        flushing_effects: if flush {
            false
        } else {
            started.flushing_effects
        },
    }
}

/// An update that starts and finishes leaves the bookkeeping as it found
/// it.
pub proof fn lemma_update_restores(c: UpdateCycle)
    requires
        c.pending_updates < usize::MAX,
    ensures
        after_update(c) == c,
{
}

/// Only the outermost update flushes: an update started inside another, or
/// during a flush, calls for no flush when it finishes.
pub proof fn lemma_only_outermost_flushes(c: UpdateCycle)
    requires
        c.pending_updates < usize::MAX,
        c.pending_updates > 0 || c.flushing_effects,
    ensures
        ({
            let started = UpdateCycle { pending_updates: (c.pending_updates + 1) as usize, ..c };
            !(!started.flushing_effects && started.pending_updates == 1)
        }),
{
}

} // verus!
