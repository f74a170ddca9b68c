//! The action payload that accompanies a decision request.

use vstd::prelude::*;

verus! {

/// The action chosen for one cycle. The dispatch core hands it to the
/// decision algorithm without reading it.
#[derive(Clone, Copy, Debug, PartialEq, Eq, Structural)]
pub enum ESActionWrapper {
    Int(u32),
}

} // verus!
