use vstd::prelude::*;

verus! {

/// A seat at the table, numbered from zero in playing order.
pub type Player = u32;

} // verus!
