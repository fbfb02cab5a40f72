//! The playlist entry type.

use vstd::prelude::*;

verus! {

/// One collected album track: its position within the album and its file
/// name, a bare base name in UTF-8 bytes with no directory component.
#[derive(Debug)]
pub struct Track {
    pub order: u64,
    pub name: Vec<u8>,
}

/// The mathematical view of a [`Track`].
pub ghost struct TrackModel {
    pub order: u64,
    pub name: Seq<u8>,
}

impl View for Track {
    type V = TrackModel;

    open spec fn view(&self) -> TrackModel {
        TrackModel { order: self.order, name: self.name@ }
    }
}

/// The views of a sequence of tracks.
pub open spec fn views_of(s: Seq<Track>) -> Seq<TrackModel> {
    s.map_values(|t: Track| t@)
}

} // verus!
