//! Where a tracked pilot is.

use vstd::prelude::*;

verus! {

/// What a [`Position`] holds.
pub struct PositionModel {
    pub lat: Seq<char>,
    pub long: Seq<char>,
    pub alt: Seq<char>,
}

/// A position as the recording wrote it: the decimal text of each
/// coordinate, which `str::parse::<f32>()` turns into the number.
pub struct Position {
    pub lat: String,
    pub long: String,
    pub alt: String,
}

impl View for Position {
    type V = PositionModel;

    open spec fn view(&self) -> PositionModel {
        PositionModel { lat: self.lat@, long: self.long@, alt: self.alt@ }
    }
}

impl Position {
    pub fn new(lat: String, long: String, alt: String) -> (p: Self)
        ensures
            p@ == (PositionModel { lat: lat@, long: long@, alt: alt@ }),
    {
        Self { lat, long, alt }
    }

    /// Replaces all three coordinates.
    pub fn update(&mut self, lat: String, long: String, alt: String)
        ensures
            final(self)@ == (PositionModel { lat: lat@, long: long@, alt: alt@ }),
    {
        self.lat = lat;
        self.long = long;
        self.alt = alt;
    }
}

} // verus!
