//! The audio track menu of the stream settings.
use crate::common::player::session::AudioTrack;
use vstd::prelude::*;

verus! {

/// The tracks of `s` that are (or are not) selected, in order.
pub open spec fn tracks_where(s: Seq<AudioTrack>, selected: bool) -> Seq<AudioTrack>
    decreases s.len(),
{
    if s.len() == 0 {
        seq![]
    } else if s.last().selected == selected {
        tracks_where(s.drop_last(), selected).push(s.last())
    } else {
        tracks_where(s.drop_last(), selected)
    }
}

/// Menu order: the tracks not selected, in their order, then the selected.
pub open spec fn menu_order(s: Seq<AudioTrack>) -> Seq<AudioTrack> {
    tracks_where(s, false) + tracks_where(s, true)
}

/// The tracks that references point at, in order.
pub open spec fn referenced(s: Seq<&AudioTrack>) -> Seq<AudioTrack> {
    s.map_values(|t: &AudioTrack| *t)
}

/// The tracks in the order the audio menu lists them: those not playing first,
/// in their order, then the one that plays.
pub fn audio_tracks_in_menu_order(tracks: &[AudioTrack]) -> (r: Vec<&AudioTrack>)
    ensures
        referenced(r@) == menu_order(tracks@),
{
    let mut first: Vec<&AudioTrack> = Vec::new();
    let mut last: Vec<&AudioTrack> = Vec::new();
    let mut i: usize = 0;
    assert(tracks@.take(0) =~= Seq::<AudioTrack>::empty());
    while i < tracks.len()
        invariant
            i <= tracks.len(),
            referenced(first@) == tracks_where(tracks@.take(i as int), false),
            referenced(last@) == tracks_where(tracks@.take(i as int), true),
        decreases tracks.len() - i,
    {
        assert(tracks@.take(i + 1).drop_last() =~= tracks@.take(i as int));
        assert(tracks@.take(i + 1).last() == tracks@[i as int]);
        let ghost (f0, l0) = (first@, last@);
        if tracks[i].selected {
            last.push(&tracks[i]);
            assert(referenced(last@) =~= referenced(l0).push(tracks@[i as int]));
        } else {
            first.push(&tracks[i]);
            assert(referenced(first@) =~= referenced(f0).push(tracks@[i as int]));
        }
        i = i + 1;
    }
    assert(tracks@.take(tracks.len() as int) =~= tracks@);
    let mut j: usize = 0;
    let ghost f = first@;
    while j < last.len()
        invariant
            j <= last.len(),
            first@ == f + last@.take(j as int),
        decreases last.len() - j,
    {
        first.push(last[j]);
        assert(last@.take(j + 1) =~= last@.take(j as int).push(last@[j as int]));
        assert(first@ =~= f + last@.take(j + 1));
        j = j + 1;
    }
    assert(last@.take(last.len() as int) =~= last@);
    assert(referenced(first@) =~= referenced(f) + referenced(last@));
    first
}

/// The menu lists every track exactly once, the selected ones last.
pub proof fn menu_order_is_permutation(s: Seq<AudioTrack>)
    ensures
        menu_order(s).to_multiset() == s.to_multiset(),
        forall|i: int, j: int|
            0 <= i < j < menu_order(s).len() && (#[trigger] menu_order(s)[i]).selected ==> (
            #[trigger] menu_order(s)[j]).selected,
    decreases s.len(),
{
    lemma_tracks_where(s, false);
    lemma_tracks_where(s, true);
    lemma_split_multiset(s);
    let a = tracks_where(s, false);
    let b = tracks_where(s, true);
    vstd::seq_lib::lemma_multiset_commutative(a, b);
    assert forall|i: int, j: int|
        0 <= i < j < menu_order(s).len() && (#[trigger] menu_order(s)[i]).selected implies (
        #[trigger] menu_order(s)[j]).selected by {
        if i < a.len() {
            assert(menu_order(s)[i] == a[i]);
        } else {
            assert(menu_order(s)[j] == b[j - a.len()]);
        }
    }
}

proof fn lemma_tracks_where(s: Seq<AudioTrack>, selected: bool)
    ensures
        forall|i: int|
            0 <= i < tracks_where(s, selected).len() ==> (#[trigger] tracks_where(
                s,
                selected,
            )[i]).selected == selected,
    decreases s.len(),
{
    if s.len() > 0 {
        lemma_tracks_where(s.drop_last(), selected);
        let r = tracks_where(s.drop_last(), selected);
        assert forall|i: int| 0 <= i < r.push(s.last()).len() implies (#[trigger] r.push(
            s.last(),
        )[i]).selected == r.push(s.last())[i].selected by {}
        if s.last().selected == selected {
            assert forall|i: int| 0 <= i < r.push(s.last()).len() implies (#[trigger] r.push(
                s.last(),
            )[i]).selected == selected by {
                if i < r.len() {
                    assert(r.push(s.last())[i] == r[i]);
                }
            }
        }
    }
}

proof fn lemma_split_multiset(s: Seq<AudioTrack>)
    ensures
        tracks_where(s, false).to_multiset().add(tracks_where(s, true).to_multiset())
            == s.to_multiset(),
    decreases s.len(),
{
    if s.len() == 0 {
        let e: Seq<AudioTrack> = seq![];
        vstd::seq_lib::to_multiset_len(e);
        vstd::seq_lib::to_multiset_len(s);
        assert(e.to_multiset() =~= vstd::multiset::Multiset::empty());
        assert(s.to_multiset() =~= vstd::multiset::Multiset::empty());
        assert(tracks_where(s, false).to_multiset().add(tracks_where(s, true).to_multiset())
            =~= s.to_multiset());
    } else {
        lemma_split_multiset(s.drop_last());
        let a = tracks_where(s.drop_last(), false);
        let b = tracks_where(s.drop_last(), true);
        vstd::seq_lib::to_multiset_build(s.drop_last(), s.last());
        assert(s.drop_last().push(s.last()) =~= s);
        if s.last().selected {
            vstd::seq_lib::to_multiset_build(b, s.last());
        } else {
            vstd::seq_lib::to_multiset_build(a, s.last());
        }
        assert(tracks_where(s, false).to_multiset().add(tracks_where(s, true).to_multiset())
            =~= s.to_multiset());
    }
}

/// The text of a track's menu entry: its label, marked when it plays.
pub open spec fn track_entry_label(t: AudioTrack) -> Seq<char> {
    if t.selected {
        t.label@ + " (current)"@
    } else {
        t.label@
    }
}

pub fn audio_track_button_label(track: &AudioTrack) -> (r: String)
    ensures
        r@ == track_entry_label(*track),
{
    let mut s = track.label.clone();
    if track.selected {
        s.append(" (current)");
    }
    s
}

} // verus!
