//! A request of the endpoint in use, and what happens between its sends:
//! following redirects, and recording the exchange in the history.

use vstd::prelude::*;

use crate::endpoint::Endpoint;
use crate::envs::{current_env_name, read_env};
use crate::error::{EndpointError, Error, HistoryError, RequestError, Result};
use crate::handle::{handle_dir, handle_path_of, spec_handle};
use crate::history::{int_text, put_file, Entry, EntryV};
use crate::project::{state_value, Quartz, StateField};
use crate::resolve::{resolved_headers, resolved_method, spec_resolved_url, ResolvedEndpoint};
use crate::store::{body_at, endpoint_at, opt_string_view};
use crate::text::{starts_with, starts_with_exec, views};
use crate::cookie::{jar_or_default, jar_set, received_pair, CookieJar};
use crate::uri::{build_uri, built_uri, parse_uri, uri_components, uri_parses};

verus! {

/// A request: the endpoint in use, resolved against the environment in use,
/// and the cookie jar of that environment.
pub struct Request {
    pub endpoint: ResolvedEndpoint,
    pub cookie_jar: CookieJar,
}

impl Request {
    /// The request of the endpoint in use (as the state file names it),
    /// resolved against the environment in use (as `Endpoint::as_resolved`
    /// does), with the cookie jar that `cookies`, the content of the
    /// environment's `cookies` file, holds. Fails when the environment
    /// cannot be read, no handle is in use, the handle has no endpoint, or
    /// its URL cannot be resolved.
    pub fn from_quartz(q: &Quartz, cookies: Option<String>) -> (r: Result<Request>)
        ensures
            r matches Ok(req) ==> req.cookie_jar@ == jar_or_default(opt_string_view(cookies)),
            read_env(q.envs@, current_env_name(q.state)) is None ==> r matches Err(Error::KeymapSet),
            read_env(q.envs@, current_env_name(q.state)) matches Some((vars, _)) ==> match state_value(
                q.state,
                StateField::Endpoint,
            ) {
                None => r matches Err(Error::EndpointError(EndpointError::NoHandleInUse)),
                Some(name) => match endpoint_at(q.endpoints@, handle_dir(handle_path_of(name))) {
                    None => r matches Err(Error::EndpointError(EndpointError::ReadHandleSpec)),
                    Some(e) => match spec_resolved_url(q.endpoints@, e.url, handle_path_of(name), vars) {
                        None => r matches Err(Error::EndpointError(EndpointError::ReadHandleSpec)),
                        Some(u) => r matches Ok(req) && req.endpoint.url@ == u
                            && req.endpoint.method@ == resolved_method(e.method, vars)
                            && req.endpoint.headers@ == resolved_headers(e.headers, vars)
                            && req.endpoint.body is None,
                    },
                },
            },
    {
        let curr_env = q.current_env()?;
        let env = curr_env.read(q)?;
        let handle = match q.current_endpoint() {
            Some(h) => h,
            None => {
                return Err(Error::EndpointError(EndpointError::NoHandleInUse));
            },
        };
        let mut endpoint = handle.endpoint(q)?;
        let resolved = endpoint.as_resolved(&handle, q, &env)?;
        Ok(Request { endpoint: resolved, cookie_jar: CookieJar::read_or_default(cookies) })
    }
}

/// A header of a response (such as `Location` or `Set-Cookie`): missing,
/// not text, or its text.
pub enum ResponseHeader {
    Absent,
    NotText,
    Text(String),
}

/// What to do after a response: stop, or send again to a URL.
pub enum Next {
    Done,
    Resend(String),
}

/// The URL that a redirect to `loc` leads to from `url`, or the error met.
pub open spec fn redirect_target(url: Seq<char>, loc: Seq<char>) -> std::result::Result<
    Seq<char>,
    RequestError,
> {
    if starts_with(loc, seq!['/']) {
        match uri_components(url) {
            None => Err(RequestError::ParseEndpointURI),
            Some((scheme, authority, _, _)) => match authority {
                None => Err(RequestError::NoAuthorityInURI),
                Some(a) => match scheme {
                    None => Err(RequestError::NoSchemeInURI),
                    Some(s) => match built_uri(s, a, loc) {
                        None => Err(RequestError::BuildURI),
                        Some(u) => Ok(u),
                    },
                },
            },
        }
    } else if uri_parses(loc) {
        Ok(loc)
    } else {
        Ok(url)
    }
}

/// After a response to a request sent to `url`: stop when redirects are not
/// followed or the response is no redirection; else send again, to the
/// location the response gives (a path is taken on the same scheme and
/// authority; a location that is no URI, or none, keeps the URL). Fails when
/// the location is not text, or a path cannot be put on the URL.
pub fn after_response(url: &str, no_follow: bool, is_redirection: bool, location: ResponseHeader) -> (r:
    Result<Next>)
    ensures
        no_follow || !is_redirection ==> r matches Ok(Next::Done),
        !no_follow && is_redirection ==> match location {
            ResponseHeader::Absent => r matches Ok(Next::Resend(u)) && u@ == url@,
            ResponseHeader::NotText => r matches Err(
                Error::RequestError(RequestError::ParseLocationHeader),
            ),
            ResponseHeader::Text(loc) => match redirect_target(url@, loc@) {
                Ok(t) => r matches Ok(Next::Resend(u)) && u@ == t,
                Err(e) => r matches Err(Error::RequestError(x)) && x == e,
            },
        },
{
    if no_follow || !is_redirection {
        return Ok(Next::Done);
    }
    match location {
        ResponseHeader::Absent => Ok(Next::Resend(url.to_owned())),
        ResponseHeader::NotText => Err(Error::RequestError(RequestError::ParseLocationHeader)),
        ResponseHeader::Text(loc) => {
            proof {
                reveal_strlit("/");
                assert("/"@ =~= seq!['/']);
            }
            if starts_with_exec(loc.as_str(), "/") {
                let parts = match parse_uri(url) {
                    Some((_, p)) => p,
                    None => {
                        return Err(Error::RequestError(RequestError::ParseEndpointURI));
                    },
                };
                let authority = match parts.authority {
                    Some(a) => a,
                    None => {
                        return Err(Error::RequestError(RequestError::NoAuthorityInURI));
                    },
                };
                let scheme = match parts.scheme {
                    Some(s) => s,
                    None => {
                        return Err(Error::RequestError(RequestError::NoSchemeInURI));
                    },
                };
                match build_uri(scheme.as_str(), authority.as_str(), loc.as_str()) {
                    Some(u) => Ok(Next::Resend(u)),
                    None => Err(Error::RequestError(RequestError::BuildURI)),
                }
            } else if parse_uri(loc.as_str()).is_some() {
                Ok(Next::Resend(loc))
            } else {
                Ok(Next::Resend(url.to_owned()))
            }
        },
    }
}

/// What the `Set-Cookie` header of a response to `url` gives: nothing when
/// the response has none; else the host of the URL and the cookie text.
/// Fails when the URL is no URI or has no host, and then when the header is
/// not text.
pub fn received_cookie(url: &str, set_cookie: ResponseHeader) -> (r: Result<Option<(String, String)>>)
    ensures
        match set_cookie {
            ResponseHeader::Absent => r matches Ok(None),
            _ => match uri_components(url@) {
                None => r matches Err(Error::RequestError(RequestError::ParseEndpointURI)),
                Some((_, _, host, _)) => match host {
                    None => r matches Err(Error::RequestError(RequestError::NoHostInURI)),
                    Some(h) => match set_cookie {
                        ResponseHeader::Text(c) => r matches Ok(Some((hs, cs))) && hs@ == h && cs@
                            == c@,
                        _ => r matches Err(Error::RequestError(RequestError::ParseCookie)),
                    },
                },
            },
        },
{
    match set_cookie {
        ResponseHeader::Absent => Ok(None),
        other => {
            let parts = match parse_uri(url) {
                Some((_, p)) => p,
                None => {
                    return Err(Error::RequestError(RequestError::ParseEndpointURI));
                },
            };
            let host = match parts.host {
                Some(h) => h,
                None => {
                    return Err(Error::RequestError(RequestError::NoHostInURI));
                },
            };
            match other {
                ResponseHeader::Text(c) => Ok(Some((host, c))),
                _ => Err(Error::RequestError(RequestError::ParseCookie)),
            }
        },
    }
}

impl Request {
    /// Stores in the jar the cookie that the `Set-Cookie` header of a
    /// response to the request sets, for the host of the request's URL;
    /// fails as `received_cookie` does, leaving the jar as it is.
    pub fn store_cookie(&mut self, set_cookie: ResponseHeader) -> (r: Result)
        ensures
            final(self).endpoint == old(self).endpoint,
            match set_cookie {
                ResponseHeader::Absent => r is Ok && final(self).cookie_jar@ == old(self).cookie_jar@,
                _ => match uri_components(old(self).endpoint.url@) {
                    None => (r matches Err(Error::RequestError(RequestError::ParseEndpointURI)))
                        && final(self).cookie_jar@ == old(self).cookie_jar@,
                    Some((_, _, host, _)) => match host {
                        None => (r matches Err(Error::RequestError(RequestError::NoHostInURI)))
                            && final(self).cookie_jar@ == old(self).cookie_jar@,
                        Some(h) => match set_cookie {
                            ResponseHeader::Text(c) => r is Ok && final(self).cookie_jar@
                                == match received_pair(c@) {
                                Some((n, v)) => jar_set(old(self).cookie_jar@, h, n, v),
                                None => old(self).cookie_jar@,
                            },
                            _ => (r matches Err(Error::RequestError(RequestError::ParseCookie)))
                                && final(self).cookie_jar@ == old(self).cookie_jar@,
                        },
                    },
                },
            },
    {
        match received_cookie(self.endpoint.url.as_str(), set_cookie) {
            Ok(Some((host, text))) => {
                self.cookie_jar.set(host.as_str(), text.as_str());
                Ok(())
            },
            Ok(None) => Ok(()),
            Err(e) => Err(e),
        }
    }
}

impl Quartz {
    /// Records an exchange of the handle in use in the history: its body,
    /// if it has one, then the response, under the handle's name and the
    /// timestamp. Fails when no handle is in use, the response is not text,
    /// or the timestamp is zero.
    pub fn record_response(&mut self, response: Option<String>, timestamp: i64) -> (r: Result)
        ensures
            match state_value(old(self).state, StateField::Endpoint) {
                None => (r matches Err(Error::EndpointError(EndpointError::NoHandleInUse)))
                    && final(self).history == old(self).history,
                Some(name) => match response {
                    None => (r matches Err(Error::HistoryError(HistoryError::Serialize)))
                        && final(self).history == old(self).history,
                    Some(resp) => if timestamp == 0 {
                        (r matches Err(Error::HistoryError(HistoryError::Empty)))
                            && final(self).history == old(self).history
                    } else {
                        r is Ok && final(self).history@ == put_file(
                            old(self).history@,
                            int_text(timestamp as int),
                            EntryV {
                                timestamp: timestamp as int,
                                handle: spec_handle(handle_path_of(name)),
                                messages: match body_at(
                                    old(self).endpoints@,
                                    handle_dir(handle_path_of(name)),
                                ) {
                                    Some(b) => seq![b, resp@],
                                    None => seq![resp@],
                                },
                            },
                        )
                    },
                },
            },
            final(self).endpoints@ == old(self).endpoints@,
            final(self).envs@ == old(self).envs@,
            final(self).state == old(self).state,
    {
        let curr_handle = match self.current_endpoint() {
            Some(h) => h,
            None => {
                return Err(Error::EndpointError(EndpointError::NoHandleInUse));
            },
        };
        let curr_body = curr_handle.body(self);
        let mut entry = Entry::builder();
        match curr_body {
            Some(b) => {
                entry.message_raw(b);
            },
            None => {},
        }
        entry.handle(curr_handle.handle());
        entry.timestemp(timestamp);
        match response {
            Some(text) => {
                entry.message_raw(text);
            },
            None => {
                return Err(Error::HistoryError(HistoryError::Serialize));
            },
        }
        let built = entry.build()?;
        assert(views(entry.messages@) =~= match body_at(
            old(self).endpoints@,
            handle_dir(curr_handle@),
        ) {
            Some(b) => seq![b, response.unwrap()@],
            None => seq![response.unwrap()@],
        });
        self.history.write(built)
    }
}

} // verus!
