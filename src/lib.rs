//! Debloating of shared objects that embed GPU device code: ELF lookups,
//! fat-binary parsing, deletable-span selection and the decisions of the
//! loader-hook tracer, verified with Verus.
use vstd::prelude::*;

pub mod cubin;
pub mod elf;
pub mod gpu_code;
pub mod locator;
pub mod names;
pub mod reconstructor;
pub mod text;
pub mod tracer;
pub mod utils;

verus! {

} // verus!
