//! The directory scan, as a state machine.
//!
//! Enumerating a directory, probing file types, and opening a container to
//! read its metadata are input/output; the caller does them and feeds each
//! entry's bare file name — and, when asked, its metadata — to a
//! [`Scanner`]. The scanner makes every decision: classification, which
//! entries are collected under which order, when the metadata fallback is
//! engaged, and which files are un-orderable. The caller only performs the
//! step each outcome names: look up metadata, print the one-time fallback
//! notice, or print a per-file warning.

use vstd::prelude::*;

use crate::classify::{classify, classify_spec, Classification};
use crate::tags::{get_track, pairs_view, track_of};
use crate::track::{Track, TrackModel};

verus! {

/// The mathematical view of a [`Scanner`].
pub ghost struct ScanModel {
    /// The tracks collected so far, in the order they were recorded.
    pub tracks: Seq<TrackModel>,
    /// Whether the metadata fallback has been engaged this run.
    pub fallback_engaged: bool,
}

/// The state of one scan over one directory.
#[derive(Debug)]
pub struct Scanner {
    pub tracks: Vec<Track>,
    pub fallback_engaged: bool,
}

impl View for Scanner {
    type V = ScanModel;

    open spec fn view(&self) -> ScanModel {
        ScanModel {
            tracks: crate::track::views_of(self.tracks@),
            fallback_engaged: self.fallback_engaged,
        }
    }
}

/// A fresh scan: nothing collected, fallback not yet engaged.
pub open spec fn scan_init_spec() -> ScanModel {
    ScanModel { tracks: Seq::empty(), fallback_engaged: false }
}

/// What the caller must do after handing a file name to the scanner.
#[derive(Debug)]
pub enum NameOutcome {
    /// The entry was collected with its file-name order; nothing to do.
    Recorded,
    /// Not an audio file; nothing to do.
    Ignored,
    /// The file's metadata must decide: look its tags up and call
    /// [`Scanner::process_tags`]. When `first_fallback` is set, this is
    /// the run's first use of the fallback and the one-time notice is due.
    NeedMetadata { name: Vec<u8>, first_fallback: bool },
}

/// What the caller must do after handing metadata to the scanner.
#[derive(Debug)]
pub enum TagOutcome {
    /// The entry was collected with its metadata order; nothing to do.
    Recorded,
    /// No usable `track` tag: the file is omitted, and a per-file warning
    /// naming it is due.
    Unorderable { name: Vec<u8> },
}

impl Scanner {
    /// Starts a scan.
    pub fn new() -> (s: Scanner)
        ensures
            s@ == scan_init_spec(),
    {
        let s = Scanner { tracks: Vec::new(), fallback_engaged: false };
        proof {
            assert(s@.tracks =~= scan_init_spec().tracks);
        }
        s
    }

    /// Takes one directory entry's bare file name and decides what becomes
    /// of it. A name with an audio extension and a numeric prefix is
    /// collected at once; a name with an audio extension but no usable
    /// prefix escalates to metadata, engaging the fallback; anything else
    /// is silently ignored.
    pub fn process_name(&mut self, name: Vec<u8>) -> (r: NameOutcome)
        ensures
            (match classify_spec(name@) {
                Classification::Ordered(o) => {
                    &&& r is Recorded
                    &&& final(self)@.tracks == old(self)@.tracks.push(
                        TrackModel { order: o, name: name@ },
                    )
                    &&& final(self)@.fallback_engaged == old(self)@.fallback_engaged
                },
                Classification::NotAudio => r is Ignored && final(self)@ == old(self)@,
                Classification::NeedsTag => {
                    &&& r matches NameOutcome::NeedMetadata { name: n, first_fallback }
                        && n@ == name@ && first_fallback == !old(self)@.fallback_engaged
                    &&& final(self)@.tracks == old(self)@.tracks
                    &&& final(self)@.fallback_engaged
                },
            }),
    {
        match classify(&name) {
            Classification::Ordered(o) => {
                let ghost before = self@.tracks;
                self.tracks.push(Track { order: o, name });
                proof {
                    assert(self@.tracks =~= before.push(TrackModel { order: o, name: name@ }));
                }
                NameOutcome::Recorded
            },
            Classification::NotAudio => NameOutcome::Ignored,
            Classification::NeedsTag => {
                let first_fallback = !self.fallback_engaged;
                self.fallback_engaged = true;
                NameOutcome::NeedMetadata { name, first_fallback }
            },
        }
    }

    /// Takes the metadata of a file whose name could not order it. A
    /// parseable `track` tag records the entry; otherwise the file is
    /// un-orderable and omitted.
    pub fn process_tags(&mut self, name: Vec<u8>, tags: &Vec<(Vec<u8>, Vec<u8>)>) -> (r:
        TagOutcome)
        ensures
            (match track_of(pairs_view(tags@)) {
                Option::Some(o) => {
                    &&& r is Recorded
                    &&& final(self)@.tracks == old(self)@.tracks.push(
                        TrackModel { order: o, name: name@ },
                    )
                    &&& final(self)@.fallback_engaged == old(self)@.fallback_engaged
                },
                Option::None => {
                    &&& r matches TagOutcome::Unorderable { name: n } && n@ == name@
                    &&& final(self)@ == old(self)@
                },
            }),
    {
        match get_track(tags) {
            Option::Some(o) => {
                let ghost before = self@.tracks;
                self.tracks.push(Track { order: o, name });
                proof {
                    assert(self@.tracks =~= before.push(TrackModel { order: o, name: name@ }));
                }
                TagOutcome::Recorded
            },
            Option::None => TagOutcome::Unorderable { name },
        }
    }
}

/// One directory entry as the scan's model sees it: the bare file name,
/// and the metadata pairs its container would yield if asked.
pub ghost struct EntryModel {
    pub name: Seq<u8>,
    pub tags: Seq<(Seq<u8>, Seq<u8>)>,
}

/// The scanner state after one entry.
pub open spec fn scan_step_spec(m: ScanModel, e: EntryModel) -> ScanModel {
    match classify_spec(e.name) {
        Classification::Ordered(o) => ScanModel {
            tracks: m.tracks.push(TrackModel { order: o, name: e.name }),
            fallback_engaged: m.fallback_engaged,
        },
        Classification::NotAudio => m,
        Classification::NeedsTag => match track_of(e.tags) {
            Option::Some(o) => ScanModel {
                tracks: m.tracks.push(TrackModel { order: o, name: e.name }),
                fallback_engaged: true,
            },
            Option::None => ScanModel { tracks: m.tracks, fallback_engaged: true },
        },
    }
}

/// The scanner state after a whole enumeration, entry by entry.
pub open spec fn scan_run_spec(m: ScanModel, es: Seq<EntryModel>) -> ScanModel
    decreases es.len(),
{
    if es.len() == 0 {
        m
    } else {
        scan_run_spec(scan_step_spec(m, es[0]), es.skip(1))
    }
}

/// How many times a run started in state `m` emits the one-time fallback
/// notice: a step emits it when it needs metadata while the fallback is
/// not yet engaged.
pub open spec fn fallback_notice_count(m: ScanModel, es: Seq<EntryModel>) -> nat
    decreases es.len(),
{
    if es.len() == 0 {
        0
    } else {
        (if classify_spec(es[0].name) is NeedsTag && !m.fallback_engaged {
            1nat
        } else {
            0nat
        }) + fallback_notice_count(scan_step_spec(m, es[0]), es.skip(1))
    }
}

proof fn lemma_fallback_notice_bound(m: ScanModel, es: Seq<EntryModel>)
    ensures
        fallback_notice_count(m, es) <= if m.fallback_engaged {
            0nat
        } else {
            1nat
        },
    decreases es.len(),
{
    if es.len() > 0 {
        lemma_fallback_notice_bound(scan_step_spec(m, es[0]), es.skip(1));
    }
}

/// Law: across a single run, the fallback notice is emitted at most once,
/// however many files escalate to metadata.
pub proof fn lemma_fallback_notice_at_most_once(es: Seq<EntryModel>)
    ensures
        fallback_notice_count(scan_init_spec(), es) <= 1,
{
    lemma_fallback_notice_bound(scan_init_spec(), es);
}

/// Law: the fallback flag never influences which tracks a run collects;
/// only the notice depends on it.
pub proof fn lemma_fallback_flag_no_track_effect(m1: ScanModel, m2: ScanModel, es: Seq<EntryModel>)
    requires
        m1.tracks == m2.tracks,
    ensures
        scan_run_spec(m1, es).tracks == scan_run_spec(m2, es).tracks,
    decreases es.len(),
{
    if es.len() > 0 {
        lemma_fallback_flag_no_track_effect(
            scan_step_spec(m1, es[0]),
            scan_step_spec(m2, es[0]),
            es.skip(1),
        );
    }
}

/// Law: a directory holding only files without a recognised audio
/// extension yields an empty collection.
pub proof fn lemma_non_audio_ignored(es: Seq<EntryModel>)
    requires
        forall|i: int| 0 <= i < es.len() ==> classify_spec((#[trigger] es[i]).name) is NotAudio,
    ensures
        scan_run_spec(scan_init_spec(), es) == scan_init_spec(),
{
    lemma_non_audio_run(scan_init_spec(), es);
}

proof fn lemma_non_audio_run(m: ScanModel, es: Seq<EntryModel>)
    requires
        forall|i: int| 0 <= i < es.len() ==> classify_spec((#[trigger] es[i]).name) is NotAudio,
    ensures
        scan_run_spec(m, es) == m,
    decreases es.len(),
{
    if es.len() > 0 {
        assert(classify_spec(es[0].name) is NotAudio);
        assert forall|i: int|
            0 <= i < es.skip(1).len() implies classify_spec(
            (#[trigger] es.skip(1)[i]).name,
        ) is NotAudio by {
            assert(es.skip(1)[i] == es[i + 1]);
        }
        lemma_non_audio_run(m, es.skip(1));
    }
}

} // verus!
