//! Upstream address parsing of the first-generation proxy.
use vstd::prelude::*;
use crate::proxy::{HostPortError, spec_upstream_host_port};

verus! {

/// Split an upstream address like "http://host:port" into host and port
/// (the same rules as the engine's own parser).
pub fn upstream_host_port(upstream: &str) -> (r: Result<(String, u16), HostPortError>)
    ensures
        match r {
            Ok((host, port)) => spec_upstream_host_port(upstream@) == Ok::<(Seq<char>, u16), HostPortError>((host@, port)),
            Err(e) => spec_upstream_host_port(upstream@) == Err::<(Seq<char>, u16), HostPortError>(e),
        },
{
    crate::proxy::upstream_host_port(upstream)
}

} // verus!
