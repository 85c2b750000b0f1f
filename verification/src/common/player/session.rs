//! Playback state of the player and what each control asks the player
//! engine to do.
use crate::text::is_blank;
use crate::text::trim;
use vstd::prelude::*;

verus! {

/// An audio track of the playing stream.
#[derive(Debug, PartialEq, Eq)]
pub struct AudioTrack {
    pub id: i64,
    pub label: String,
    pub selected: bool,
}

impl Clone for AudioTrack {
    fn clone(&self) -> (r: Self)
        ensures
            r == *self,
    {
        AudioTrack { id: self.id, label: self.label.clone(), selected: self.selected }
    }
}

/// What the player knows of playback apart from the engine itself: whether
/// the engine started, the mute switch, and the stream playing.
pub struct PlaybackState {
    pub ready: bool,
    pub muted: bool,
    pub current_url: Option<String>,
    pub current_label: Option<String>,
}

impl PlaybackState {
    /// Nothing playing, not muted.
    pub fn new(ready: bool) -> (r: Self)
        ensures
            r.ready == ready,
            !r.muted,
            r.current_url is None,
            r.current_label is None,
    {
        PlaybackState { ready, muted: false, current_url: None, current_label: None }
    }

    pub fn is_playing(&self) -> (r: bool)
        ensures
            r == self.current_url is Some,
    {
        self.current_url.is_some()
    }

    /// Records a mute switch; `true` when the engine is to be told.
    pub fn set_muted(&mut self, muted: bool) -> (apply: bool)
        ensures
            apply == old(self).ready,
            final(self).muted == if old(self).ready {
                muted
            } else {
                old(self).muted
            },
            final(self).ready == old(self).ready,
            final(self).current_url == old(self).current_url,
            final(self).current_label == old(self).current_label,
    {
        if !self.ready {
            return false;
        }
        self.muted = muted;
        true
    }

    /// Flips the mute switch; `true` when the engine is to be told.
    pub fn toggle_muted(&mut self) -> (apply: bool)
        ensures
            apply == old(self).ready,
            final(self).muted == (old(self).muted != old(self).ready),
            final(self).ready == old(self).ready,
            final(self).current_url == old(self).current_url,
            final(self).current_label == old(self).current_label,
    {
        let m = !self.muted;
        self.set_muted(m)
    }

    /// Records a new stream; `true` when the engine is to load it. A blank
    /// URL, or an engine that did not start, changes nothing.
    pub fn load_stream(&mut self, url: &str, label: &str) -> (apply: bool)
        ensures
            apply == (old(self).ready && trim(url@).len() > 0),
            apply ==> (final(self).current_url matches Some(u) && u@ == url@),
            apply ==> (final(self).current_label matches Some(l) && l@ == label@),
            !apply ==> final(self).current_url == old(self).current_url,
            !apply ==> final(self).current_label == old(self).current_label,
            final(self).ready == old(self).ready,
            final(self).muted == old(self).muted,
    {
        if !self.ready || is_blank(url) {
            return false;
        }
        self.current_url = Some(url.to_owned());
        self.current_label = Some(label.to_owned());
        true
    }

    /// The engine may be told to act on the playing stream (drop buffers,
    /// re-enable video): it started and a stream plays.
    pub fn can_act_on_stream(&self) -> (r: bool)
        ensures
            r == (self.ready && self.current_url is Some),
    {
        self.ready && self.current_url.is_some()
    }
}

/// A law of the mute switch: toggling twice restores it.
pub proof fn toggle_twice_restores(muted: bool, ready: bool)
    ensures
        ((muted != ready) != ready) == muted,
{
}

} // verus!
