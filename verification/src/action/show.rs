//! `show`: parts of the endpoint in use.

use vstd::prelude::*;

use crate::action::{current_handle, handle_in_use, CliError, CliResult};
use crate::error::{EndpointError, Error};
use crate::handle::{handle_dir, spec_head};
use crate::project::{Quartz, State};
use crate::store::endpoint_at;
use crate::text::concat;

verus! {

/// `show url`: the URL of the endpoint in use, followed by a line break.
pub fn url(q: &Quartz, state: &State) -> (r: CliResult<String>)
    ensures
        match current_handle(q, state) {
            None => r matches Err(CliError::NoHandleInUse),
            Some(h) => match endpoint_at(q.endpoints@, handle_dir(h)) {
                Some(e) => r matches Ok(s) && s@ == e.url + seq!['\n'],
                None => r matches Err(
                    CliError::Quartz(Error::EndpointError(EndpointError::ReadHandleSpec)),
                ),
            },
        },
{
    let handle = match handle_in_use(q, state) {
        Some(h) => h,
        None => {
            return Err(CliError::NoHandleInUse);
        },
    };
    let endpoint = match handle.endpoint(q) {
        Ok(e) => e,
        Err(e) => {
            return Err(CliError::Quartz(e));
        },
    };
    proof {
        reveal_strlit("\n");
    }
    Ok(concat(endpoint.url.as_str(), "\n"))
}

/// `show method`: the method of the endpoint in use, followed by a line break.
pub fn method(q: &Quartz, state: &State) -> (r: CliResult<String>)
    ensures
        match current_handle(q, state) {
            None => r matches Err(CliError::NoHandleInUse),
            Some(h) => match endpoint_at(q.endpoints@, handle_dir(h)) {
                Some(e) => r matches Ok(s) && s@ == e.method + seq!['\n'],
                None => r matches Err(
                    CliError::Quartz(Error::EndpointError(EndpointError::ReadHandleSpec)),
                ),
            },
        },
{
    let handle = match handle_in_use(q, state) {
        Some(h) => h,
        None => {
            return Err(CliError::NoHandleInUse);
        },
    };
    let endpoint = match handle.endpoint(q) {
        Ok(e) => e,
        Err(e) => {
            return Err(CliError::Quartz(e));
        },
    };
    proof {
        reveal_strlit("\n");
    }
    Ok(concat(endpoint.method.as_str(), "\n"))
}

/// `show handle`: the last component of the handle in use, followed by a
/// line break.
pub fn handle(q: &Quartz, state: &State) -> (r: CliResult<String>)
    ensures
        match current_handle(q, state) {
            None => r matches Err(CliError::NoHandleInUse),
            Some(h) => r matches Ok(s) && s@ == spec_head(h) + seq!['\n'],
        },
{
    let handle = match handle_in_use(q, state) {
        Some(h) => h,
        None => {
            return Err(CliError::NoHandleInUse);
        },
    };
    proof {
        reveal_strlit("\n");
    }
    let h = handle.head();
    Ok(concat(h.as_str(), "\n"))
}

} // verus!
