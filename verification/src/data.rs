//! Forcing series and site metadata.

use vstd::prelude::*;
use crate::errors::Error;

verus! {

/// The daily forcing series a calibration runs on. Scalar series hold
/// IEEE-754 double-precision encodings; `day_of_year` holds calendar days
/// (1 to 366). All four series must share one length.
#[derive(Debug)]
pub struct Data {
    pub precipitation: Vec<u64>,
    pub temperature: Vec<u64>,
    pub pet: Vec<u64>,
    pub day_of_year: Vec<usize>,
}

/// The four series share one length.
pub open spec fn data_wf(d: &Data) -> bool {
    &&& d.precipitation@.len() == d.temperature@.len()
    &&& d.precipitation@.len() == d.pet@.len()
    &&& d.precipitation@.len() == d.day_of_year@.len()
}

impl Data {
    /// Bundles the four forcing series, rejecting them with `LengthMismatch`
    /// exactly when they disagree in length.
    pub fn new(precipitation: Vec<u64>, temperature: Vec<u64>, pet: Vec<u64>, day_of_year: Vec<
        usize,
    >) -> (r: Result<Data, Error>)
        ensures
            precipitation@.len() == temperature@.len() && precipitation@.len() == pet@.len()
                && precipitation@.len() == day_of_year@.len() ==> (r matches Ok(d)
                && d.precipitation@ == precipitation@ && d.temperature@ == temperature@ && d.pet@
                == pet@ && d.day_of_year@ == day_of_year@ && data_wf(&d)),
            !(precipitation@.len() == temperature@.len() && precipitation@.len() == pet@.len()
                && precipitation@.len() == day_of_year@.len()) ==> (r matches Err(e) && e matches
                Error::LengthMismatch(p, t, e2, d) && p == precipitation@.len() && t
                == temperature@.len() && e2 == pet@.len() && d == day_of_year@.len()),
    {
        if precipitation.len() != temperature.len() || precipitation.len() != pet.len()
            || precipitation.len() != day_of_year.len() {
            return Err(
                Error::LengthMismatch(
                    precipitation.len(),
                    temperature.len(),
                    pet.len(),
                    day_of_year.len(),
                ),
            );
        }
        Ok(Data { precipitation, temperature, pet, day_of_year })
    }

    /// The shared length of the series.
    pub fn len(&self) -> (r: usize)
        ensures
            r == self.precipitation@.len(),
    {
        self.precipitation.len()
    }

    /// The same forcing with the precipitation series replaced; used when a
    /// snow module's effective precipitation feeds the rainfall-runoff
    /// module.
    pub fn with_precipitation(&self, precipitation: Vec<u64>) -> (r: Data)
        ensures
            r.precipitation@ == precipitation@,
            r.temperature@ == self.temperature@,
            r.pet@ == self.pet@,
            r.day_of_year@ == self.day_of_year@,
    {
        Data {
            precipitation,
            temperature: self.temperature.clone(),
            pet: self.pet.clone(),
            day_of_year: self.day_of_year.clone(),
        }
    }

    /// The temperature series.
    pub fn temperature(&self) -> (r: &Vec<u64>)
        ensures
            r@ == self.temperature@,
    {
        &self.temperature
    }

    /// The potential-evapotranspiration series.
    pub fn pet(&self) -> (r: &Vec<u64>)
        ensures
            r@ == self.pet@,
    {
        &self.pet
    }

    /// The day-of-year series.
    pub fn day_of_year(&self) -> (r: &Vec<usize>)
        ensures
            r@ == self.day_of_year@,
    {
        &self.day_of_year
    }
}

/// Site metadata: the elevation of each snow layer and the catchment's
/// median elevation, both in metres (encoded doubles).
#[derive(Debug)]
pub struct Metadata {
    pub elevation_layers: Vec<u64>,
    pub median_elevation: u64,
}

/// At least one elevation layer is present.
pub open spec fn metadata_wf(m: &Metadata) -> bool {
    m.elevation_layers@.len() >= 1
}

} // verus!
