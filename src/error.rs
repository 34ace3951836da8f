use vstd::prelude::*;

verus! {

/// Why a run over a topology failed.
pub enum TopoError {
    /// The attribute tree breaks the expected schema; the text says where.
    MalformedInput(String),
    /// An edge names a vertex identifier that the graph does not hold.
    LookupFailure(String),
    /// A walk from a root came back to a vertex on its own active path.
    CycleDetected(usize),
}

} // verus!
