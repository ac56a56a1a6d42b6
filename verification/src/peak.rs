//! One detected spectral component for one analysis frame.

use vstd::prelude::*;

use crate::fixed::SAT;

verus! {

/// A detected partial: frequency in Hz and linear amplitude, both
/// Q32.32. Peaks live in fixed-size tables of 20 optional slots; an
/// empty slot means no partial is currently assigned there.
#[derive(Clone, Copy, Debug, PartialEq, Eq, Structural)]
pub struct Peak {
    pub frequency: i64,
    pub amplitude: i64,
}

impl Peak {
    pub open spec fn wf(self) -> bool {
        &&& 0 <= self.frequency <= SAT
        &&& 0 <= self.amplitude <= SAT
    }
}

/// The number of simultaneous partials the engine carries.
pub const MAX_PEAKS: usize = 20;

/// Every present peak in a slot table is well-formed.
pub open spec fn peaks_wf(s: Seq<Option<Peak>>) -> bool {
    forall|i: int|
        0 <= i < s.len() ==> (#[trigger] s[i] matches Some(p) ==> p.wf())
}

} // verus!
