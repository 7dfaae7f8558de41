//! `header`: the headers of the endpoint in use.

use vstd::prelude::*;

use crate::action::{
    current_endpoint_value, current_handle, handle_in_use, remove_keys, remove_keys_printed,
    removed_lines, Printed,
};
use crate::error::Result;
use crate::handle::handle_dir;
use crate::headers::header_sep;
use crate::pairmap::{pm_get, pm_insert, pm_remove, render, Entries};
use crate::project::{Quartz, State};
use crate::store::{ensure_dir, with_endpoint};
use crate::text::{concat, views};

verus! {

/// `header get`: the value of the header `key` of the endpoint in use,
/// followed by a line break.
pub fn get(q: &Quartz, state: &State, key: &str) -> (r: String)
    requires
        current_endpoint_value(q, state) matches Some(e) && pm_get(e.headers, key@) is Some,
    ensures
        r@ == pm_get(current_endpoint_value(q, state).unwrap().headers, key@).unwrap() + seq!['\n'],
{
    let handle = handle_in_use(q, state).unwrap();
    let endpoint = handle.endpoint(q).unwrap();
    let v = endpoint.headers.0.get(key).unwrap();
    proof {
        reveal_strlit("\n");
    }
    concat(v.as_str(), "\n")
}

/// `header set`: the header `name` of the endpoint in use set to `value`.
pub fn set(q: &mut Quartz, state: &State, name: String, value: String) -> (r: Result)
    requires
        current_endpoint_value(old(q), state) is Some,
    ensures
        r is Ok,
        final(q).endpoints@ == with_endpoint(
            ensure_dir(old(q).endpoints@, handle_dir(current_handle(old(q), state).unwrap())),
            handle_dir(current_handle(old(q), state).unwrap()),
            Some(
                crate::endpoint::EndpointV {
                    headers: pm_insert(
                        current_endpoint_value(old(q), state).unwrap().headers,
                        name@,
                        value@,
                    ),
                    ..current_endpoint_value(old(q), state).unwrap()
                },
            ),
        ),
        final(q).state == old(q).state,
        final(q).envs@ == old(q).envs@,
{
    let handle = handle_in_use(q, state).unwrap();
    let mut endpoint = handle.endpoint(q).unwrap();
    endpoint.headers.0.insert(name, value);
    handle.write_endpoint(q, &endpoint)
}

/// `header rm`: each header of `keys` removed from the endpoint in use; a
/// line for each on standard output when it was there, on standard error
/// when it was not.
pub fn rm(q: &mut Quartz, state: &State, keys: Vec<String>) -> (r: Result<Printed>)
    requires
        current_endpoint_value(old(q), state) is Some,
    ensures
        r matches Ok(p) && p.out@ == removed_lines(
            current_endpoint_value(old(q), state).unwrap().headers,
            views(keys@),
            true,
            header_noun(),
        ) && p.err@ == removed_lines(
            current_endpoint_value(old(q), state).unwrap().headers,
            views(keys@),
            false,
            header_noun(),
        ),
        final(q).endpoints@ == with_endpoint(
            ensure_dir(old(q).endpoints@, handle_dir(current_handle(old(q), state).unwrap())),
            handle_dir(current_handle(old(q), state).unwrap()),
            Some(
                crate::endpoint::EndpointV {
                    headers: remove_keys(
                        current_endpoint_value(old(q), state).unwrap().headers,
                        views(keys@),
                    ),
                    ..current_endpoint_value(old(q), state).unwrap()
                },
            ),
        ),
        final(q).state == old(q).state,
        final(q).envs@ == old(q).envs@,
{
    let handle = handle_in_use(q, state).unwrap();
    let mut endpoint = handle.endpoint(q).unwrap();
    proof {
        reveal_strlit("header");
    }
    let printed = remove_keys_printed(&mut endpoint.headers.0, &keys, "header");
    assert("header"@ =~= header_noun());
    handle.write_endpoint(q, &endpoint)?;
    Ok(printed)
}

/// `header`.
pub open spec fn header_noun() -> Seq<char> {
    seq!['h', 'e', 'a', 'd', 'e', 'r']
}

/// `header ls`: the headers of the endpoint in use, one `name: value` line
/// each.
pub fn ls(q: &Quartz, state: &State) -> (r: String)
    requires
        current_endpoint_value(q, state) is Some,
    ensures
        r@ == render(current_endpoint_value(q, state).unwrap().headers, header_sep()),
{
    let handle = handle_in_use(q, state).unwrap();
    let endpoint = handle.endpoint(q).unwrap();
    endpoint.headers.to_string()
}

} // verus!
