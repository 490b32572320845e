//! Compute capabilities of the GPUs present.
use vstd::prelude::*;

verus! {

/// Packed compute capabilities (`major * 10 + minor`) of devices whose
/// versions are `versions`, as `(major, minor)` pairs, in device order.
pub fn get_compute_capabilities(versions: &Vec<(u32, u32)>) -> (r: Vec<u32>)
    requires
        forall|i: int| 0 <= i < versions@.len() ==> versions@[i].0 * 10 + versions@[i].1 <= u32::MAX,
    ensures
        r@.len() == versions@.len(),
        forall|i: int| 0 <= i < versions@.len() ==> r@[i] == versions@[i].0 * 10 + versions@[i].1,
{
    let mut ccs: Vec<u32> = Vec::new();
    let mut i: usize = 0;
    while i < versions.len()
        invariant
            i <= versions@.len(),
            ccs@.len() == i,
            forall|j: int| 0 <= j < versions@.len() ==> versions@[j].0 * 10 + versions@[j].1 <= u32::MAX,
            forall|j: int| 0 <= j < i ==> ccs@[j] == versions@[j].0 * 10 + versions@[j].1,
        decreases versions@.len() - i,
    {
        let (major, minor) = versions[i];
        assert(major * 10 + minor <= u32::MAX);
        ccs.push(major * 10 + minor);
        i = i + 1;
    }
    ccs
}

} // verus!
