use vstd::prelude::*;

verus! {

/// One configured network: a short identifier, a display label, and the
/// HTTP endpoint its driver polls.
#[derive(Clone, Debug)]
pub struct Network {
    pub name: String,
    pub label: String,
    pub http: String,
}

} // verus!
