//! Resolving an endpoint against an environment: inherited URLs and
//! `{{name}}` variables replaced by their values.

use vstd::prelude::*;

use crate::endpoint::{key_match, Endpoint, Query};
use crate::env::Env;
use crate::error::{EndpointError, Error, Result};
use crate::handle::{handle_dir, EndpointHandle};
use crate::headers::Headers;
use crate::pairmap::{pm_insert, Entries, PairMap};
use crate::project::Quartz;
use crate::store::{body_at, endpoint_at, opt_string_view, StoreV, PathV};
use crate::text::{
    chars_of, ends_with, ends_with_exec, replace, replace_all, starts_with, starts_with_exec,
    string_of, concat,
};

verus! {

broadcast use vstd::string::group_string_axioms;

/// Every `{{name}}` replaced by the value of `name`, one variable after the
/// other, in order.
pub open spec fn substitute(s: Seq<char>, vars: Entries) -> Seq<char>
    decreases vars.len(),
{
    if vars.len() == 0 {
        s
    } else {
        substitute(replace_all(s, key_match(vars[0].0), vars[0].1), vars.skip(1))
    }
}

/// The pairs inserted in order into `acc`; a later pair wins over an
/// earlier one with the same key.
pub open spec fn insert_all(acc: Entries, pairs: Entries) -> Entries
    decreases pairs.len(),
{
    if pairs.len() == 0 {
        acc
    } else {
        insert_all(pm_insert(acc, pairs[0].0, pairs[0].1), pairs.skip(1))
    }
}

/// Every key and value with `{{k}}` replaced by `v`.
pub open spec fn replace_pairs(e: Entries, k: Seq<char>, v: Seq<char>) -> Entries {
    e.map_values(
        |p: (Seq<char>, Seq<char>)|
            (replace_all(p.0, key_match(k), v), replace_all(p.1, key_match(k), v)),
    )
}

/// The pairs with `{{k}}` replaced by `v`, collected into a map.
pub open spec fn replace_map(e: Entries, k: Seq<char>, v: Seq<char>) -> Entries {
    insert_all(Seq::empty(), replace_pairs(e, k, v))
}

/// `replace_map` for each variable in turn.
pub open spec fn replace_map_all(e: Entries, vars: Entries) -> Entries
    decreases vars.len(),
{
    if vars.len() == 0 {
        e
    } else {
        replace_map_all(replace_map(e, vars[0].0, vars[0].1), vars.skip(1))
    }
}

/// `**`.
pub open spec fn inherit_mark() -> Seq<char> {
    seq!['*', '*']
}

/// A URL without one trailing `/`.
pub open spec fn without_trailing_slash(u: Seq<char>) -> Seq<char> {
    if u.len() > 0 && u.last() == '/' {
        u.drop_last()
    } else {
        u
    }
}

/// The URL `url` of the endpoint at the handle `h`, resolved: a URL that
/// starts with `**` inherits, in place of the `**`, the resolved URL of the
/// parent handle's endpoint (without a trailing `/`); then the variables are
/// replaced. `None` when a parent that is inherited from has no endpoint.
pub open spec fn spec_resolved_url(st: StoreV, url: Seq<char>, h: PathV, vars: Entries) -> Option<
    Seq<char>,
>
    decreases h.len(),
{
    let base = if starts_with(url, inherit_mark()) && h.len() > 0 {
        let p = h.drop_last();
        match endpoint_at(st, handle_dir(p)) {
            None => None,
            Some(pe) => match spec_resolved_url(st, pe.url, p, vars) {
                None => None,
                Some(pr) => Some(without_trailing_slash(pr) + url.skip(2)),
            },
        }
    } else {
        Some(url)
    };
    match base {
        Some(b) => Some(substitute(b, vars)),
        None => None,
    }
}

/// The method of a resolved endpoint: with the last variable replaced;
/// empty with no variable.
pub open spec fn resolved_method(method: Seq<char>, vars: Entries) -> Seq<char> {
    if vars.len() == 0 {
        Seq::empty()
    } else {
        replace_all(method, key_match(vars.last().0), vars.last().1)
    }
}

/// The headers of a resolved endpoint: with the last variable replaced; none
/// with no variable.
pub open spec fn resolved_headers(headers: Entries, vars: Entries) -> Entries {
    if vars.len() == 0 {
        Seq::empty()
    } else {
        replace_map(headers, vars.last().0, vars.last().1)
    }
}

/// An endpoint resolved against an environment: what a request is made of.
pub struct ResolvedEndpoint {
    pub url: String,
    pub method: String,
    pub headers: Headers,
    pub body: Option<String>,
}

impl ResolvedEndpoint {
    /// A copy.
    pub fn clone_resolved(&self) -> (r: Self)
        ensures
            r.url@ == self.url@,
            r.method@ == self.method@,
            r.headers@ == self.headers@,
            opt_string_view(r.body) == opt_string_view(self.body),
    {
        ResolvedEndpoint {
            url: self.url.clone(),
            method: self.method.clone(),
            headers: Headers(self.headers.0.clone_map()),
            body: match &self.body {
                Some(b) => Some(b.clone()),
                None => None,
            },
        }
    }
}

/// Replaces every `{{name}}` in `s` by the value of `name`, for each
/// variable in turn.
pub fn substitute_vars(s: &str, vars: &PairMap) -> (r: String)
    ensures
        r@ == substitute(s@, vars@),
{
    let es = vars.entries();
    let ghost ev = vars@;
    let mut cur = s.to_owned();
    let mut i: usize = 0;
    assert(ev.skip(0) =~= ev);
    while i < es.len()
        invariant
            i <= es.len(),
            es@.map_values(|e: (String, String)| (e.0@, e.1@)) == ev,
            substitute(s@, ev) == substitute(cur@, ev.skip(i as int)),
        decreases es.len() - i,
    {
        assert(ev[i as int] == (es@[i as int].0@, es@[i as int].1@));
        assert(ev.skip(i as int)[0] == ev[i as int]);
        assert(ev.skip(i as int).skip(1) =~= ev.skip(i + 1));
        let km = Endpoint::key_match_str(es[i].0.as_str());
        cur = replace(cur.as_str(), km.as_str(), es[i].1.as_str());
        i = i + 1;
    }
    assert(ev.skip(es@.len() as int) =~= Seq::<(Seq<char>, Seq<char>)>::empty());
    cur
}

/// The entries of `e` with `{{k}}` replaced by `v` in every key and value,
/// collected into a map.
fn replace_in_map(e: &PairMap, k: &str, v: &str) -> (r: PairMap)
    ensures
        r@ == replace_map(e@, k@, v@),
{
    let es = e.entries();
    let ghost pairs = replace_pairs(e@, k@, v@);
    let km = Endpoint::key_match_str(k);
    let mut out = PairMap::new();
    let mut i: usize = 0;
    assert(pairs.skip(0) =~= pairs);
    while i < es.len()
        invariant
            i <= es.len(),
            km@ == key_match(k@),
            es@.map_values(|x: (String, String)| (x.0@, x.1@)) == e@,
            pairs == replace_pairs(e@, k@, v@),
            pairs.len() == e@.len(),
            replace_map(e@, k@, v@) == insert_all(out@, pairs.skip(i as int)),
        decreases es.len() - i,
    {
        assert(e@[i as int] == (es@[i as int].0@, es@[i as int].1@));
        let nk = replace(es[i].0.as_str(), km.as_str(), v);
        let nv = replace(es[i].1.as_str(), km.as_str(), v);
        assert(pairs[i as int] == (nk@, nv@));
        assert(pairs.skip(i as int)[0] == pairs[i as int]);
        assert(pairs.skip(i as int).skip(1) =~= pairs.skip(i + 1));
        out.insert(nk, nv);
        i = i + 1;
    }
    assert(pairs.skip(es@.len() as int) =~= Seq::<(Seq<char>, Seq<char>)>::empty());
    out
}

impl Endpoint {
    /// The URL, resolved: a URL that starts with `**` inherits the resolved
    /// URL of the parent handle's endpoint in place of the `**` (without its
    /// trailing `/`; at the root nothing is inherited); then every `{{name}}`
    /// is replaced by the value of the variable `name`. Fails when a parent
    /// to inherit from has no endpoint.
    pub fn resolved_url(&self, handle: &EndpointHandle, quartz: &Quartz, env: &Env) -> (r: Result<
        String,
    >)
        ensures
            match spec_resolved_url(quartz.endpoints@, self.url@, handle@, env.variables@) {
                Some(u) => r matches Ok(s) && s@ == u,
                None => r matches Err(Error::EndpointError(EndpointError::ReadHandleSpec)),
            },
        decreases handle@.len(),
    {
        proof {
            reveal_strlit("**");
            assert("**"@ =~= inherit_mark());
        }
        let mut full_url = self.url.clone();
        if starts_with_exec(self.url.as_str(), "**") {
            match handle.parent() {
                Ok(p) => {
                    let parent_endpoint = p.endpoint(quartz)?;
                    let parent_resolved = parent_endpoint.resolved_url(&p, quartz, env)?;
                    let mut pr = chars_of(parent_resolved.as_str());
                    if pr.len() > 0 && pr[pr.len() - 1] == '/' {
                        pr.pop();
                    }
                    assert(pr@ == without_trailing_slash(parent_resolved@));
                    let uv = chars_of(self.url.as_str());
                    let rest = crate::text::substring(&uv, 2, uv.len());
                    let prs = string_of(&pr);
                    full_url = concat(prs.as_str(), rest.as_str());
                    assert(rest@ =~= self.url@.skip(2));
                },
                Err(_) => {},
            }
        }
        Ok(substitute_vars(full_url.as_str(), &env.variables.0))
    }

    /// The endpoint resolved against `env`: the query parameters have every
    /// `{{name}}` replaced, variable after variable (this changes the
    /// endpoint itself); the URL is resolved as `resolved_url` does; the
    /// method and the headers are the endpoint's with the last variable
    /// replaced (with no variable, the method is empty and there is no
    /// header); there is no body. Fails as `resolved_url` does.
    pub fn as_resolved(&mut self, handle: &EndpointHandle, quartz: &Quartz, env: &Env) -> (r: Result<
        ResolvedEndpoint,
    >)
        ensures
            final(self).query@ == replace_map_all(old(self).query@, env.variables@),
            final(self).url == old(self).url,
            final(self).method == old(self).method,
            final(self).headers@ == old(self).headers@,
            match spec_resolved_url(quartz.endpoints@, old(self).url@, handle@, env.variables@) {
                Some(u) => r matches Ok(x) && x.url@ == u && x.body is None && x.method@
                    == resolved_method(old(self).method@, env.variables@) && x.headers@
                    == resolved_headers(old(self).headers@, env.variables@),
                None => r matches Err(Error::EndpointError(EndpointError::ReadHandleSpec)),
            },
    {
        let es = env.variables.0.entries();
        let ghost ev = env.variables@;
        let ghost q0 = self.query@;
        let mut i: usize = 0;
        assert(ev.skip(0) =~= ev);
        while i < es.len()
            invariant
                i <= es.len(),
                es@.map_values(|e: (String, String)| (e.0@, e.1@)) == ev,
                replace_map_all(q0, ev) == replace_map_all(self.query@, ev.skip(i as int)),
                self.url == old(self).url,
                self.method == old(self).method,
                self.headers@ == old(self).headers@,
            decreases es.len() - i,
        {
            assert(ev[i as int] == (es@[i as int].0@, es@[i as int].1@));
            assert(ev.skip(i as int)[0] == ev[i as int]);
            assert(ev.skip(i as int).skip(1) =~= ev.skip(i + 1));
            let nq = replace_in_map(&self.query.0, es[i].0.as_str(), es[i].1.as_str());
            self.query = Query(nq);
            i = i + 1;
        }
        assert(ev.skip(es@.len() as int) =~= Seq::<(Seq<char>, Seq<char>)>::empty());
        let url = self.resolved_url(handle, quartz, env)?;
        let n = es.len();
        if n == 0 {
            return Ok(ResolvedEndpoint {
                url,
                method: String::new(),
                headers: Headers(PairMap::new()),
                body: None,
            });
        }
        assert(ev.last() == (es@[n - 1].0@, es@[n - 1].1@));
        let km = Endpoint::key_match_str(es[n - 1].0.as_str());
        let method = replace(self.method.as_str(), km.as_str(), es[n - 1].1.as_str());
        let headers = replace_in_map(&self.headers.0, es[n - 1].0.as_str(), es[n - 1].1.as_str());
        Ok(ResolvedEndpoint { url, method, headers: Headers(headers), body: None })
    }
}

impl EndpointHandle {
    /// The body of the handle with every `{{name}}` replaced by the value of
    /// the variable `name`, one variable after the other.
    pub fn resolved_body(&self, quartz: &Quartz, env: &Env) -> (r: Option<String>)
        ensures
            match body_at(quartz.endpoints@, handle_dir(self@)) {
                Some(b) => r matches Some(s) && s@ == substitute(b, env.variables@),
                None => r is None,
            },
    {
        match self.body(quartz) {
            Some(b) => Some(substitute_vars(b.as_str(), &env.variables.0)),
            None => None,
        }
    }
}

} // verus!
