use vstd::prelude::*;

use crate::message::Request;

verus! {

/// Decides, once per connection, whether its requests go through the rules.
/// This policy takes every connection.
#[derive(Clone, Copy)]
pub struct MitmFilter {}

impl Default for MitmFilter {
    fn default() -> (r: Self) {
        MitmFilter {}
    }
}

impl MitmFilter {
    /// Whether the connection that `req` opens is handled by the rules:
    /// always, and the request is only read.
    pub fn filter(&self, req: &Request) -> (r: bool)
        ensures
            r,
    {
        true
    }
}

} // verus!
