//! Window shapes of the AAC filter bank.
use vstd::prelude::*;

verus! {

/// AAC window sequence shape.
#[derive(Debug, Clone, Copy, PartialEq, Eq, Structural)]
pub enum WindowType {
    Long,
    Short,
    LongStart,
    LongStop,
}

} // verus!
