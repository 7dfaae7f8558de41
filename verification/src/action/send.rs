//! `send`: sending the request of the endpoint in use.

use vstd::prelude::*;

verus! {

/// The arguments of `send`.
pub struct Args {
    /// Do not follow redirects
    pub no_follow: bool,
    /// Which file to write all cookies after a completed request
    pub cookie_jar: Option<String>,
}

} // verus!
