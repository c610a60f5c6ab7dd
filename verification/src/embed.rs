//! The kernels that the library bundles: the planetary ephemerides of DE440s
//! and the planetary constants of PCK11, and no other.
use vstd::prelude::*;

use crate::text::str_eq;

verus! {

/// The names of the bundled kernels.
pub open spec fn is_bundled(name: Seq<char>) -> bool {
    name == "de440s.bsp"@ || name == "pck11.pca"@
}

/// The set of kernels bundled with the library.
pub struct AstroData;

impl AstroData {
    /// Looks up a bundled kernel by its file name: gives the name of the
    /// bundled file, or `None` where no such kernel is bundled.
    pub fn get(name: &str) -> (r: Option<&'static str>)
        ensures
            r is Some <==> is_bundled(name@),
            r matches Some(n) ==> n@ == name@,
    {
        let candidates: [&'static str; 2] = ["de440s.bsp", "pck11.pca"];
        let mut i: usize = 0;
        while i < 2
            invariant
                i <= 2,
                candidates@ == seq!["de440s.bsp", "pck11.pca"],
                forall|j: int| 0 <= j < i ==> name@ != (#[trigger] candidates@[j])@,
            decreases 2 - i,
        {
            if str_eq(name, candidates[i]) {
                return Some(candidates[i]);
            }
            i = i + 1;
        }
        None
    }
}

} // verus!
