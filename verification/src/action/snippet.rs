//! `snippet`: the request of the endpoint in use, written for another tool.

use vstd::prelude::*;

use crate::action::{current_handle, handle_in_use, CliError, CliResult};
use crate::endpoint::EndpointV;
use crate::env::var_sep;
use crate::envs::{current_env_name, read_env};
use crate::error::{EndpointError, Error};
use crate::handle::handle_dir;
use crate::history::Http;
use crate::pairmap::{set_all, Entries};
use crate::project::{Quartz, State};
use crate::resolve::{resolved_headers, resolved_method, spec_resolved_url};
use crate::snippet::{curl_text, http_text, http_writable, Curl};
use crate::store::{endpoint_at, StoreV, PathV};
use crate::text::views;
use crate::uri::uri_components;

verus! {

/// The tool a snippet is written for.
pub enum SnippetCmd {
    Curl(Curl),
    Http,
}

/// The arguments of `snippet`.
pub struct Args {
    /// Use a new or overwritten variable
    pub variables: Vec<String>,
    pub command: SnippetCmd,
}

/// The snippet text for the endpoint `e` of the handle `h` resolved with
/// `vars`, or the error met.
pub open spec fn snippet_result(
    st: StoreV,
    e: EndpointV,
    h: PathV,
    vars: Entries,
    command: SnippetCmd,
) -> Option<Seq<char>> {
    match spec_resolved_url(st, e.url, h, vars) {
        None => None,
        Some(url) => match command {
            SnippetCmd::Curl(c) => Some(
                curl_text(
                    c.long,
                    c.multiline,
                    url,
                    resolved_method(e.method, vars),
                    resolved_headers(e.headers, vars),
                    None,
                ),
            ),
            SnippetCmd::Http => match uri_components(url) {
                Some((_, _, Some(host), Some(path))) => Some(
                    http_text(
                        resolved_method(e.method, vars),
                        path,
                        host,
                        resolved_headers(e.headers, vars),
                        None,
                    ),
                ),
                _ => None,
            },
        },
    }
}

/// `snippet`: the request of the endpoint in use, resolved against the
/// environment in use with the variables given set (`name=value`), written
/// for `curl` or as HTTP text. Fails when no handle is in use, it has no
/// endpoint, the environment or a variable cannot be read, the URL cannot be
/// resolved, or (for HTTP) the URL is no URI or lacks a host or a path.
pub fn cmd(q: &Quartz, state: &State, args: Args) -> (r: CliResult<String>)
    ensures
        match current_handle(q, state) {
            None => r matches Err(CliError::NoHandleInUse),
            Some(h) => match endpoint_at(q.endpoints@, handle_dir(h)) {
                None => r matches Err(
                    CliError::Quartz(Error::EndpointError(EndpointError::ReadHandleSpec)),
                ),
                Some(e) => match read_env(q.envs@, current_env_name(q.state)) {
                    None => r matches Err(CliError::Quartz(Error::KeymapSet)),
                    Some((vars, _)) => {
                        let (vars2, ok) = set_all(vars, views(args.variables@), var_sep());
                        if !ok {
                            r matches Err(CliError::Quartz(Error::KeymapSet))
                        } else if spec_resolved_url(q.endpoints@, e.url, h, vars2) is None {
                            r matches Err(
                                CliError::Quartz(Error::EndpointError(EndpointError::ReadHandleSpec)),
                            )
                        } else {
                            match snippet_result(q.endpoints@, e, h, vars2, args.command) {
                                Some(s) => r matches Ok(x) && x@ == s,
                                None => r matches Err(CliError::Snippet),
                            }
                        }
                    },
                },
            },
        },
{
    let handle = match handle_in_use(q, state) {
        Some(h) => h,
        None => {
            return Err(CliError::NoHandleInUse);
        },
    };
    let mut endpoint = match handle.endpoint(q) {
        Ok(e) => e,
        Err(e) => {
            return Err(CliError::Quartz(e));
        },
    };
    let curr_env = q.current_env().unwrap();
    let mut env = match curr_env.read(q) {
        Ok(e) => e,
        Err(e) => {
            return Err(CliError::Quartz(e));
        },
    };
    proof {
        reveal_strlit("=");
        assert("="@ =~= var_sep());
    }
    match env.variables.0.set_pairs(&args.variables, "=") {
        Ok(()) => {},
        Err(e) => {
            return Err(CliError::Quartz(e));
        },
    }
    let resolved = match endpoint.as_resolved(&handle, q, &env) {
        Ok(x) => x,
        Err(e) => {
            return Err(CliError::Quartz(e));
        },
    };
    match args.command {
        SnippetCmd::Curl(c) => Ok(c.write(resolved)),
        SnippetCmd::Http => {
            if !Http::writable(resolved.url.as_str()) {
                return Err(CliError::Snippet);
            }
            match Http::write(resolved) {
                Some(s) => Ok(s),
                None => Err(CliError::Snippet),
            }
        },
    }
}


/// The start of a `curl` snippet: `curl`, the location option and the URL
/// between quotes.
pub open spec fn curl_url_prefix(long: bool, url: Seq<char>) -> Seq<char> {
    seq!['c', 'u', 'r', 'l', ' '] + crate::snippet::option_text(long, crate::snippet::CurlOption::Location)
        + seq![' ', '\''] + url + seq!['\'']
}

/// `s` starts with the request line for the path of `url` and the `Host`
/// line for its host, where `url` has both.
pub open spec fn http_request_line(s: Seq<char>, url: Seq<char>, method: Seq<char>) -> bool {
    match uri_components(url) {
        Some((_, _, Some(host), Some(path))) => {
            let p = method + seq![' '] + path + seq![
                ' ',
                'H',
                'T',
                'T',
                'P',
                '/',
                '1',
                '.',
                '1',
                '\n',
                'H',
                'o',
                's',
                't',
                ':',
                ' ',
            ] + host + seq!['\n'];
            p.len() <= s.len() && s.take(p.len() as int) == p
        },
        _ => false,
    }
}

/// A snippet is of the request resolved as `Endpoint::resolved_url` resolves
/// it: a `curl` snippet exists exactly when the URL resolves, and quotes the
/// resolved URL (not the stored template) right after `curl` and the location
/// option; an HTTP snippet exists only for a resolved URL with a host and a
/// path, and its request line and `Host` line are that path and host.
pub proof fn law_snippet_uses_resolved_url(st: StoreV, e: EndpointV, h: PathV, vars: Entries, long: bool, multiline: bool)
    ensures
        snippet_result(st, e, h, vars, SnippetCmd::Curl(Curl { long, multiline })) is Some
            <==> spec_resolved_url(st, e.url, h, vars) is Some,
        snippet_result(st, e, h, vars, SnippetCmd::Curl(Curl { long, multiline })) matches Some(s)
            ==> ({
            let p = curl_url_prefix(long, spec_resolved_url(st, e.url, h, vars).unwrap());
            p.len() <= s.len() && s.take(p.len() as int) == p
        }),
        snippet_result(st, e, h, vars, SnippetCmd::Http) matches Some(s) ==> spec_resolved_url(
            st,
            e.url,
            h,
            vars,
        ) is Some && http_request_line(s, spec_resolved_url(st, e.url, h, vars).unwrap(), resolved_method(e.method, vars)),
{
    let c = SnippetCmd::Curl(Curl { long, multiline });
    if let Some(u) = spec_resolved_url(st, e.url, h, vars) {
        let s = snippet_result(st, e, h, vars, c).unwrap();
        let p = curl_url_prefix(long, u);
        assert(s.take(p.len() as int) =~= p);
        if let Some(t) = snippet_result(st, e, h, vars, SnippetCmd::Http) {
            if let Some((_, _, Some(host), Some(path))) = uri_components(u) {
                let p2 = resolved_method(e.method, vars) + seq![' '] + path + seq![
                    ' ',
                    'H',
                    'T',
                    'T',
                    'P',
                    '/',
                    '1',
                    '.',
                    '1',
                    '\n',
                    'H',
                    'o',
                    's',
                    't',
                    ':',
                    ' ',
                ] + host + seq!['\n'];
                assert(t.take(p2.len() as int) =~= p2);
            }
        }
    }
}

} // verus!
