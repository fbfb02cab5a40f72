//! Rendering the playlist, and what holds of a whole run.
//!
//! The playlist is minimal `m3u8`: each collected track's bare file name in
//! sort order, each followed by a single newline — no header and no
//! directives. The run model here composes the scan, the sort and the
//! rendering, so that what a whole run emits is a stated function of the
//! directory's entries and their enumeration order.

use vstd::prelude::*;

use crate::scan::{scan_init_spec, scan_run_spec, EntryModel, ScanModel};
use crate::sorting::{lemma_sort_by_order, sort_by_order_spec};
use crate::track::{views_of, Track, TrackModel};

verus! {

/// The playlist text for tracks in the given order: each name, then one
/// newline.
pub open spec fn playlist_bytes(s: Seq<TrackModel>) -> Seq<u8>
    decreases s.len(),
{
    if s.len() == 0 {
        Seq::empty()
    } else {
        s[0].name + seq![10u8] + playlist_bytes(s.skip(1))
    }
}

/// Renders the playlist for `tracks`, in the order given.
#[verifier::loop_isolation(false)]
pub fn render_playlist(tracks: &Vec<Track>) -> (out: Vec<u8>)
    ensures
        out@ == playlist_bytes(views_of(tracks@)),
{
    let ghost all = views_of(tracks@);
    let mut out: Vec<u8> = Vec::new();
    proof {
        assert(all.skip(0) =~= all);
    }
    let mut i: usize = 0;
    while i < tracks.len()
        invariant
            i <= tracks@.len(),
            playlist_bytes(all) == out@ + playlist_bytes(all.skip(i as int)),
        decreases tracks@.len() - i,
    {
        let ghost base = out@;
        let t = &tracks[i];
        let mut j: usize = 0;
        while j < t.name.len()
            invariant
                j <= t.name@.len(),
                out@ == base + t.name@.subrange(0, j as int),
            decreases t.name@.len() - j,
        {
            out.push(t.name[j]);
            proof {
                assert(out@ =~= base + t.name@.subrange(0, j + 1));
            }
            j = j + 1;
        }
        out.push(10);
        proof {
            let rest = all.skip(i as int);
            assert(rest[0] == t@);
            assert(t.name@.subrange(0, t.name@.len() as int) =~= t.name@);
            assert(out@ =~= base + (t@.name + seq![10u8]));
            assert(rest.skip(1) =~= all.skip(i + 1));
            assert(out@ + playlist_bytes(all.skip(i + 1)) =~= base + playlist_bytes(rest));
        }
        i = i + 1;
    }
    proof {
        assert(all.skip(tracks@.len() as int) =~= Seq::<TrackModel>::empty());
        assert(out@ =~= playlist_bytes(all));
    }
    out
}

/// Law: every playlist line is a bare name. When no collected name holds a
/// path separator — and the scan records names verbatim, so names handed
/// in as base names stay base names — no separator appears anywhere in the
/// playlist.
pub proof fn lemma_playlist_no_separator(s: Seq<TrackModel>)
    requires
        forall|i: int, k: int|
            0 <= i < s.len() && 0 <= k < s[i].name.len() ==> #[trigger] s[i].name[k] != 47,
    ensures
        forall|k: int| 0 <= k < playlist_bytes(s).len() ==> playlist_bytes(s)[k] != 47,
    decreases s.len(),
{
    if s.len() > 0 {
        assert forall|i: int, k: int|
            0 <= i < s.skip(1).len() && 0 <= k < s.skip(1)[i].name.len() implies #[trigger] s.skip(
            1,
        )[i].name[k] != 47 by {
            assert(s.skip(1)[i] == s[i + 1]);
        }
        lemma_playlist_no_separator(s.skip(1));
        let line = s[0].name + seq![10u8];
        assert forall|k: int| 0 <= k < playlist_bytes(s).len() implies playlist_bytes(s)[k]
            != 47 by {
            if k < line.len() {
                assert(playlist_bytes(s)[k] == line[k]);
            } else {
                assert(playlist_bytes(s)[k] == playlist_bytes(s.skip(1))[k - line.len()]);
            }
        }
    }
}

/// Everything one run emits as its playlist: scan the entries in
/// enumeration order, sort the collection, render.
pub open spec fn run_output_spec(es: Seq<EntryModel>) -> Seq<u8> {
    playlist_bytes(sort_by_order_spec(scan_run_spec(scan_init_spec(), es).tracks))
}

/// Law: the playlist is a function of the directory's entries and their
/// enumeration order alone. Two runs over the same enumeration emit
/// byte-identical playlists.
pub proof fn lemma_deterministic(es1: Seq<EntryModel>, es2: Seq<EntryModel>)
    requires
        es1 == es2,
    ensures
        run_output_spec(es1) == run_output_spec(es2),
{
}

/// Law: a run is unaffected by any earlier run. Even a scanner state left
/// over with the fallback already engaged collects the same tracks, so
/// running twice in sequence — fallback or not — produces the same
/// playlist both times.
pub proof fn lemma_rerun_same_playlist(m: ScanModel, es: Seq<EntryModel>)
    requires
        m.tracks == Seq::<TrackModel>::empty(),
    ensures
        playlist_bytes(sort_by_order_spec(scan_run_spec(m, es).tracks)) == run_output_spec(es),
{
    crate::scan::lemma_fallback_flag_no_track_effect(m, scan_init_spec(), es);
}

/// Law: a directory with no recognised audio files yields the empty
/// playlist.
pub proof fn lemma_non_audio_empty_playlist(es: Seq<EntryModel>)
    requires
        forall|i: int|
            0 <= i < es.len() ==> crate::classify::classify_spec(
                (#[trigger] es[i]).name,
            ) is NotAudio,
    ensures
        run_output_spec(es) == Seq::<u8>::empty(),
{
    crate::scan::lemma_non_audio_ignored(es);
    lemma_sort_by_order(scan_init_spec().tracks);
    assert(sort_by_order_spec(Seq::<TrackModel>::empty()).len() == 0);
}

} // verus!
