//! The Archimedean side of an event's adelic index: the continuous
//! (day count, ecliptic position) witness, kept in integers.

use vstd::prelude::*;

verus! {

/// The Archimedean witness of an event, integer-scaled.
#[derive(Clone, Copy, Debug, PartialEq, Eq, Hash, Structural)]
pub struct ArchimedeanWitness {
    /// Days since the epoch.
    pub days_since_epoch: u64,
    /// Ecliptic longitude in arcseconds (0 to 1,296,000); 0 when unspecified.
    pub ecliptic_arcseconds: u64,
    /// Ecliptic latitude in arcseconds, biased.
    pub ecliptic_latitude_arcseconds_biased: i64,
}

impl ArchimedeanWitness {
    /// The witness of a day count, with no ecliptic position.
    pub fn from_days(days_since_epoch: u64) -> (w: Self)
        ensures
            w == (ArchimedeanWitness {
                days_since_epoch,
                ecliptic_arcseconds: 0,
                ecliptic_latitude_arcseconds_biased: 0,
            }),
    {
        ArchimedeanWitness { days_since_epoch, ecliptic_arcseconds: 0, ecliptic_latitude_arcseconds_biased: 0 }
    }

    /// The witness with the given ecliptic longitude and latitude.
    pub fn with_ecliptic(self, longitude_arcsec: u64, latitude_arcsec_biased: i64) -> (w: Self)
        ensures
            w == (ArchimedeanWitness {
                days_since_epoch: self.days_since_epoch,
                ecliptic_arcseconds: longitude_arcsec,
                ecliptic_latitude_arcseconds_biased: latitude_arcsec_biased,
            }),
    {
        let mut w = self;
        w.ecliptic_arcseconds = longitude_arcsec;
        w.ecliptic_latitude_arcseconds_biased = latitude_arcsec_biased;
        w
    }
}

} // verus!
