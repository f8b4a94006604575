use vstd::prelude::*;

verus! {

/// An intent a frame refused, as reported to clients.
#[derive(Clone, Debug)]
pub struct RejectNotice {
    pub fwau: u128,
    pub reason: String,
}

/// A soul whose quality band changed, as replicated to clients.
#[derive(Clone, Debug)]
pub struct BandChange {
    pub iuoc: u128,
    pub band: String,
    pub message: String,
}

} // verus!
