//! `query`: the query parameters of the endpoint in use.

use vstd::prelude::*;

use crate::action::{
    current_endpoint_value, current_handle, handle_in_use, remove_keys, remove_keys_printed,
    removed_lines, CliError, CliResult, Printed,
};
use crate::endpoint::{query_sep, spec_query_string, EndpointV};
use crate::error::{EndpointError, Error};
use crate::handle::handle_dir;
use crate::pairmap::{pm_get, render, set_all};
use crate::project::{Quartz, State};
use crate::store::{endpoint_at, ensure_dir, with_endpoint};
use crate::text::{concat, views};

verus! {

/// The arguments of `query get`.
pub struct GetArgs {
    pub key: String,
}

/// The arguments of `query set`: `name=value` pairs.
pub struct SetArgs {
    pub queries: Vec<String>,
}

/// The arguments of `query rm`.
pub struct RmArgs {
    pub keys: Vec<String>,
}

/// `query param`.
pub open spec fn query_noun() -> Seq<char> {
    seq!['q', 'u', 'e', 'r', 'y', ' ', 'p', 'a', 'r', 'a', 'm']
}

/// What an action that reads the endpoint in use gives when there is no
/// handle in use or it has no endpoint, else `ok`.
pub open spec fn with_current<T>(q: &Quartz, state: &State, r: CliResult<T>, ok: spec_fn(EndpointV, T) -> bool) -> bool {
    match current_handle(q, state) {
        None => r matches Err(CliError::NoHandleInUse),
        Some(h) => match endpoint_at(q.endpoints@, handle_dir(h)) {
            None => r matches Err(
                CliError::Quartz(Error::EndpointError(EndpointError::ReadHandleSpec)),
            ),
            Some(e) => r matches Ok(v) && ok(e, v),
        },
    }
}

/// The endpoint in use, or the error met looking for it.
fn current_endpoint(q: &Quartz, state: &State) -> (r: CliResult<crate::endpoint::Endpoint>)
    ensures
        match current_handle(q, state) {
            None => r matches Err(CliError::NoHandleInUse),
            Some(h) => match endpoint_at(q.endpoints@, handle_dir(h)) {
                None => r matches Err(
                    CliError::Quartz(Error::EndpointError(EndpointError::ReadHandleSpec)),
                ),
                Some(e) => r matches Ok(x) && x@ == e,
            },
        },
{
    let handle = match handle_in_use(q, state) {
        Some(h) => h,
        None => {
            return Err(CliError::NoHandleInUse);
        },
    };
    match handle.endpoint(q) {
        Ok(e) => Ok(e),
        Err(e) => Err(CliError::Quartz(e)),
    }
}

/// `query get`: the value of the parameter `key`, followed by a line break.
pub fn get(q: &Quartz, state: &State, key: &str) -> (r: CliResult<String>)
    requires
        current_endpoint_value(q, state) matches Some(e) ==> pm_get(e.query, key@) is Some,
    ensures
        with_current(q, state, r, |e: EndpointV, s: String| s@ == pm_get(e.query, key@).unwrap() + seq!['\n']),
{
    let endpoint = current_endpoint(q, state)?;
    let value = endpoint.query.0.get(key).unwrap();
    proof {
        reveal_strlit("\n");
    }
    assert("\n"@ =~= seq!['\n']);
    Ok(concat(value.as_str(), "\n"))
}

/// `query set`: each `name=value` pair set on the endpoint in use; fails,
/// writing nothing, at the first pair that cannot be read.
pub fn set(q: &mut Quartz, state: &State, queries: &Vec<String>) -> (r: CliResult)
    requires
        current_endpoint_value(old(q), state) is Some,
    ensures
        ({
            let e = current_endpoint_value(old(q), state).unwrap();
            let d = handle_dir(current_handle(old(q), state).unwrap());
            let (qs, ok) = set_all(e.query, views(queries@), query_sep());
            if ok {
                r is Ok && final(q).endpoints@ == with_endpoint(
                    ensure_dir(old(q).endpoints@, d),
                    d,
                    Some(EndpointV { query: qs, ..e }),
                )
            } else {
                (r matches Err(CliError::Quartz(Error::KeymapSet))) && final(q).endpoints@ == old(
                    q,
                ).endpoints@
            }
        }),
        final(q).state == old(q).state,
        final(q).envs@ == old(q).envs@,
{
    let handle = handle_in_use(q, state).unwrap();
    let mut endpoint = handle.endpoint(q).unwrap();
    proof {
        reveal_strlit("=");
        assert("="@ =~= query_sep());
    }
    match endpoint.query.0.set_pairs(queries, "=") {
        Ok(()) => {},
        Err(e) => {
            return Err(CliError::Quartz(e));
        },
    }
    match handle.write_endpoint(q, &endpoint) {
        Ok(()) => Ok(()),
        Err(e) => Err(CliError::Quartz(e)),
    }
}

/// `query rm`: each parameter of `keys` removed from the endpoint in use; a
/// line for each on standard output when it was there, on standard error
/// when it was not.
pub fn rm(q: &mut Quartz, state: &State, keys: &Vec<String>) -> (r: CliResult<Printed>)
    requires
        current_handle(old(q), state) is Some,
    ensures
        ({
            let d = handle_dir(current_handle(old(q), state).unwrap());
            match endpoint_at(old(q).endpoints@, d) {
                None => (r matches Err(
                    CliError::Quartz(Error::EndpointError(EndpointError::ReadHandleSpec)),
                )) && final(q).endpoints@ == old(q).endpoints@,
                Some(e) => (r matches Ok(p) && p.out@ == removed_lines(
                    e.query,
                    views(keys@),
                    true,
                    query_noun(),
                ) && p.err@ == removed_lines(e.query, views(keys@), false, query_noun()))
                    && final(q).endpoints@ == with_endpoint(
                    ensure_dir(old(q).endpoints@, d),
                    d,
                    Some(EndpointV { query: remove_keys(e.query, views(keys@)), ..e }),
                ),
            }
        }),
        final(q).state == old(q).state,
        final(q).envs@ == old(q).envs@,
{
    let handle = handle_in_use(q, state).unwrap();
    let mut endpoint = match handle.endpoint(q) {
        Ok(e) => e,
        Err(e) => {
            return Err(CliError::Quartz(e));
        },
    };
    proof {
        reveal_strlit("query param");
    }
    let printed = remove_keys_printed(&mut endpoint.query.0, keys, "query param");
    assert("query param"@ =~= query_noun());
    match handle.write_endpoint(q, &endpoint) {
        Ok(()) => Ok(printed),
        Err(e) => Err(CliError::Quartz(e)),
    }
}

/// `query ls`: the parameters of the endpoint in use, one `name=value` line
/// each.
pub fn ls(q: &Quartz, state: &State) -> (r: CliResult<String>)
    ensures
        with_current(q, state, r, |e: EndpointV, s: String| s@ == render(e.query, query_sep())),
{
    let endpoint = current_endpoint(q, state)?;
    Ok(endpoint.query.to_string())
}

/// `show query`: the query string of the endpoint in use, followed by a line
/// break.
pub fn print(q: &Quartz, state: &State) -> (r: CliResult<String>)
    ensures
        with_current(
            q,
            state,
            r,
            |e: EndpointV, s: String| s@ == spec_query_string(e.query) + seq!['\n'],
        ),
{
    let endpoint = current_endpoint(q, state)?;
    let qs = endpoint.query_string();
    proof {
        reveal_strlit("\n");
    }
    assert("\n"@ =~= seq!['\n']);
    Ok(concat(qs.as_str(), "\n"))
}

} // verus!
