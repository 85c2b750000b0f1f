//! The overlays load their lists in the background. Each load gets a
//! generation number; a result is applied only while its generation is the
//! latest and the overlay is still open.
use vstd::prelude::*;

verus! {

/// The generation after `g`, wrapping around after the largest.
pub open spec fn following(g: u64) -> u64 {
    if g == u64::MAX {
        0
    } else {
        (g + 1) as u64
    }
}

/// A result of load `generation` is stale when a newer load began (or the
/// loads were invalidated) since, or when the overlay is closed.
pub open spec fn stale(latest: u64, generation: u64, visible: bool) -> bool {
    generation != latest || !visible
}

/// The generation of the latest load of an overlay.
pub struct LoadGenerations {
    pub latest: u64,
}

impl LoadGenerations {
    /// No load started yet.
    pub fn new() -> (r: Self)
        ensures
            r.latest == 0,
    {
        LoadGenerations { latest: 0 }
    }

    /// Starts a load: returns its generation, which is now the latest.
    pub fn next_load_generation(&mut self) -> (g: u64)
        ensures
            g == following(old(self).latest),
            final(self).latest == g,
    {
        self.latest = self.latest.wrapping_add(1);
        self.latest
    }

    /// Makes every load started so far stale.
    pub fn invalidate_loads(&mut self)
        ensures
            final(self).latest == following(old(self).latest),
    {
        self.latest = self.latest.wrapping_add(1);
    }

    /// Whether a result of load `generation` must be dropped, the overlay
    /// being open or not (`visible`).
    pub fn is_stale(&self, generation: u64, visible: bool) -> (r: bool)
        ensures
            r == stale(self.latest, generation, visible),
    {
        generation != self.latest || !visible
    }
}

/// The load just started is not stale while the overlay stays open; once a
/// newer load starts or the loads are invalidated, it is.
pub proof fn latest_load_alone_applies(latest: u64, visible: bool)
    ensures
        !stale(following(latest), following(latest), true),
        stale(following(following(latest)), following(latest), visible),
        stale(latest, latest, false),
{
}

} // verus!
