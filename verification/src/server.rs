//! The server's admission rule for new connections.
use vstd::prelude::*;

verus! {

/// Whether a new connection is served, given how many are open and the
/// configured limit: only while fewer than the limit are open.
pub fn accepts_connection(open_connections: u32, max_connections: u32) -> (accepted: bool)
    ensures
        accepted == (open_connections < max_connections),
{
    open_connections < max_connections
}

} // verus!
