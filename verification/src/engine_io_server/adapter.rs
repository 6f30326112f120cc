//! Options of an adapter's listener.
use vstd::prelude::*;

verus! {

/// Where and how an adapter listens.
#[derive(Debug)]
pub struct ListenOptions {
    pub path: &'static str,
    /// How long an upgrade may take before it is given up, in milliseconds.
    pub destroy_upgrade_timeout: Option<u32>,
}

impl ListenOptions {
    /// The default options: at `/engine.io`, with an upgrade timeout of 1 s.
    pub fn default() -> (o: ListenOptions)
        ensures
            o.path@ == "/engine.io"@,
            o.destroy_upgrade_timeout == Some(1000u32),
    {
        ListenOptions { path: "/engine.io", destroy_upgrade_timeout: Some(1000) }
    }
}

} // verus!
