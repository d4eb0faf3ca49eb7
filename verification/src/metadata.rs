//! The data of one track.
use vstd::prelude::*;
use crate::coordinates::coordinates_view;
use crate::datetime::{seconds_between, spec_seconds_between, DateTime};

verus! {

/// The data of one track (a KML `Placemark`).
///
/// A coordinate is held as the texts of its longitude and its latitude, each
/// of which reads as an `f64`; the distance along the track, which needs
/// floating point, is computed outside this library.
#[derive(Debug, Clone)]
pub struct TrackMetadata {
    /// Name of the track.
    pub name: String,
    /// Start time.
    pub start_time: DateTime,
    /// End time.
    pub end_time: DateTime,
    /// Points of the track, as `(longitude, latitude)` texts.
    pub coordinates: Vec<(String, String)>,
    /// Category (such as outdoor sports).
    pub category: String,
    /// Activity (such as walking).
    pub activity: String,
    /// Year.
    pub year: String,
    /// Month (`YYYY-MM`).
    pub month: String,
}

/// The content of a track, as texts and values.
pub struct TrackView {
    pub name: Seq<char>,
    pub start_time: DateTime,
    pub end_time: DateTime,
    pub coordinates: Seq<(Seq<char>, Seq<char>)>,
    pub category: Seq<char>,
    pub activity: Seq<char>,
    pub year: Seq<char>,
    pub month: Seq<char>,
}

impl View for TrackMetadata {
    type V = TrackView;

    open spec fn view(&self) -> TrackView {
        TrackView {
            name: self.name@,
            start_time: self.start_time,
            end_time: self.end_time,
            coordinates: coordinates_view(self.coordinates@),
            category: self.category@,
            activity: self.activity@,
            year: self.year@,
            month: self.month@,
        }
    }
}

impl TrackMetadata {
    /// Duration of the track in seconds: negative when the end time is
    /// earlier than the start time.
    pub fn duration_seconds(&self) -> (r: i64)
        requires
            self.start_time.wf(),
            self.end_time.wf(),
        ensures
            r == spec_seconds_between(self.end_time, self.start_time),
    {
        seconds_between(&self.end_time, &self.start_time)
    }
}

} // verus!
