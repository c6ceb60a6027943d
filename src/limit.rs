use vstd::prelude::*;

verus! {

/// A limit on the size of a benchmark's stack or heap, in whole units.
#[derive(Debug, Clone, Copy, PartialEq, Eq, Structural)]
pub enum Limit {
    Bytes(u64),
    KiB(u64),
    MiB(u64),
    GiB(u64),
}

} // verus!
