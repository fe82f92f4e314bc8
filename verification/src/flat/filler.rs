use vstd::prelude::*;

verus! {

/// The padding written at the end of a flat stream: a chain of filler
/// markers closed by a final end marker.
pub enum Filler {
    FillerStart(Box<Filler>),
    FillerEnd,
}

impl Filler {
    /// The number of markers in the chain, the end marker included.
    pub open spec fn spec_length(&self) -> nat
        decreases self,
    {
        match self {
            Filler::FillerStart(f) => f.spec_length() + 1,
            Filler::FillerEnd => 1,
        }
    }

    /// Counts the markers of the chain.
    pub fn length(&self) -> (n: usize)
        requires
            self.spec_length() <= usize::MAX,
        ensures
            n == self.spec_length(),
        decreases self,
    {
        match self {
            Filler::FillerStart(f) => f.length() + 1,
            Filler::FillerEnd => 1,
        }
    }
}

} // verus!
