//! Spectra and the live-spectrum buffer.
use vstd::prelude::*;

use crate::errors::CoreError;

verus! {

/// One acquired sample: wavelength in milli-nanometres, power in
/// milli-decibels.
#[derive(Clone, Copy, Debug, PartialEq, Eq, Structural)]
pub struct Sample {
    pub wavelength: i64,
    pub power: i64,
}

/// Wavelengths must be strictly increasing along a spectrum.
pub open spec fn wavelengths_increasing(s: Seq<Sample>) -> bool {
    forall|i: int, j: int|
        0 <= i < j < s.len() ==> s[i].wavelength < s[j].wavelength
}

/// One acquisition: ordered samples plus the acquisition time in
/// milliseconds.
#[derive(Debug)]
pub struct Spectrum {
    pub samples: Vec<Sample>,
    pub timestamp: u64,
}

impl Spectrum {
    /// A spectrum is well formed when its wavelengths strictly increase.
    pub open spec fn well_formed(self) -> bool {
        wavelengths_increasing(self.samples@)
    }

    /// Builds a spectrum, rejecting sample sequences whose wavelengths
    /// are not strictly increasing.
    pub fn new(samples: Vec<Sample>, timestamp: u64) -> (r: Result<Spectrum, CoreError>)
        ensures
            r matches Ok(sp) ==> sp.samples@ == samples@ && sp.timestamp == timestamp
                && sp.well_formed(),
            r is Ok <==> wavelengths_increasing(samples@),
            r matches Err(e) ==> e == CoreError::Config,
    {
        let n: usize = samples.len();
        let mut i: usize = 1;
        while i < n
            invariant
                1 <= i,
                n == samples@.len(),
                forall|p: int, q: int| 0 <= p < q < i ==> samples@[p].wavelength < samples@[q].wavelength,
            decreases n - i,
        {
            if samples[i - 1].wavelength >= samples[i].wavelength {
                return Err(CoreError::Config);
            }
            assert(forall|p: int| 0 <= p < i ==> #[trigger] samples@[p].wavelength <= samples@[i - 1].wavelength);
            i = i + 1;
        }
        Ok(Spectrum { samples, timestamp })
    }

}

/// Holds the current live spectrum plus an unread flag.  `get` hands out
/// an owned snapshot, so later mutation never reaches a reader.
pub struct SpectrumBuffer {
    pub current: Option<Spectrum>,
    pub unread: bool,
}

impl SpectrumBuffer {
    /// A fresh buffer: no spectrum, nothing unread.
    pub fn new() -> (r: SpectrumBuffer)
        ensures
            r.current is None,
            !r.unread,
    {
        SpectrumBuffer { current: None, unread: false }
    }

    /// Every spectrum ever stored is well formed.
    pub open spec fn well_formed(self) -> bool {
        self.current matches Some(sp) ==> sp.well_formed()
    }

    /// Replaces the content and raises the unread flag.
    pub fn set(&mut self, spectrum: Spectrum)
        ensures
            final(self).current == Some(spectrum),
            final(self).unread,
    {
        self.current = Some(spectrum);
        self.unread = true;
    }

    /// Atomically reports and clears the unread flag.
    pub fn take_unread(&mut self) -> (r: bool)
        ensures
            r == old(self).unread,
            !final(self).unread,
            final(self).current == old(self).current,
    {
        let r: bool = self.unread;
        self.unread = false;
        r
    }

    /// Returns an owned snapshot of the live spectrum, untouched by any
    /// later `set`.
    pub fn get(&self) -> (r: Option<Spectrum>)
        ensures
            r matches Some(sp) ==> self.current matches Some(c) && sp.samples@ == c.samples@
                && sp.timestamp == c.timestamp,
            r is Some <==> self.current is Some,
    {
        match &self.current {
            Some(sp) => Some(Spectrum { samples: sp.samples.clone(), timestamp: sp.timestamp }),
            None => None,
        }
    }
}

} // verus!
