//! Endpoints: what a request is made of, before the environment is applied.

use vstd::prelude::*;

use crate::error::{EndpointError, Error, Result};
use crate::headers::{header_sep, Headers};
use crate::pairmap::{pm_insert, render, set_all, spec_pair, Entries, PairMap};
use crate::text::{
    chars_of, concat, contains, contains_exec, join, join_strings, str_eq, string_of, trim,
    trim_ws, views,
};
use crate::uri::{parse_uri, parts_view, uri_components, uri_parses, UriParts};

verus! {

/// What separates a query parameter from its value: `=`.
pub open spec fn query_sep() -> Seq<char> {
    seq!['=']
}

/// Query parameters, by name.
pub struct Query(pub PairMap);

impl View for Query {
    type V = Entries;

    open spec fn view(&self) -> Entries {
        self.0@
    }
}

impl Default for Query {
    fn default() -> (r: Self)
        ensures
            r@ == Seq::<(Seq<char>, Seq<char>)>::empty(),
    {
        Query(PairMap::new())
    }
}

impl Query {
    /// Reads `input` as `name=value` and sets that parameter.
    pub fn set(&mut self, input: &str) -> (r: Result)
        ensures
            match spec_pair(input@, query_sep()) {
                Some((k, v)) => r is Ok && final(self)@ == pm_insert(old(self)@, k, v),
                None => r matches Err(Error::KeymapSet) && final(self)@ == old(self)@,
            },
    {
        proof {
            reveal_strlit("=");
            assert("="@ =~= query_sep());
        }
        self.0.set_pair(input, "=")
    }

    /// One `name=value` line per parameter.
    pub fn to_string(&self) -> (r: String)
        ensures
            r@ == render(self@, query_sep()),
    {
        proof {
            reveal_strlit("=");
            assert("="@ =~= query_sep());
        }
        self.0.render("=")
    }
}

/// An endpoint as values.
pub struct EndpointV {
    pub url: Seq<char>,
    pub method: Seq<char>,
    pub query: Entries,
    pub headers: Entries,
}

/// A request template: URL, method, query parameters and headers.
pub struct Endpoint {
    pub url: String,
    /// HTTP Request method
    pub method: String,
    /// Query params.
    pub query: Query,
    /// List of (key, value) pairs.
    pub headers: Headers,
}

impl View for Endpoint {
    type V = EndpointV;

    open spec fn view(&self) -> EndpointV {
        EndpointV {
            url: self.url@,
            method: self.method@,
            query: self.query@,
            headers: self.headers@,
        }
    }
}

/// `GET`.
pub open spec fn get_method() -> Seq<char> {
    seq!['G', 'E', 'T']
}

impl Default for Endpoint {
    fn default() -> (r: Self)
        ensures
            r@ == (EndpointV {
                url: Seq::empty(),
                method: get_method(),
                query: Seq::empty(),
                headers: Seq::empty(),
            }),
    {
        proof {
            reveal_strlit("GET");
        }
        let e = Endpoint {
            method: String::from_str("GET"),
            url: String::new(),
            headers: Headers::default(),
            query: Query::default(),
        };
        assert(e@.method =~= get_method());
        e
    }
}

/// Body types a patch may declare.
pub struct ContentTypeGroup {
    pub json: Option<Option<String>>,
    pub raw: Option<String>,
}

/// Changes to apply to an endpoint.
pub struct EndpointPatch {
    pub url: Option<String>,
    pub method: Option<String>,
    pub query: Vec<String>,
    pub headers: Vec<String>,
    pub data: Option<ContentTypeGroup>,
}

impl Default for EndpointPatch {
    fn default() -> (r: Self)
        ensures
            r.url is None,
            r.method is None,
            r.query@.len() == 0,
            r.headers@.len() == 0,
            r.data is None,
    {
        EndpointPatch { url: None, method: None, query: Vec::new(), headers: Vec::new(), data: None }
    }
}

impl EndpointPatch {
    /// Whether the patch sets the URL, the method, a query parameter or a header.
    pub fn has_changes(&self) -> (b: bool)
        ensures
            b == (self.url is Some || self.method is Some || self.query@.len() > 0
                || self.headers@.len() > 0),
    {
        self.url.is_some() || self.method.is_some() || !self.query.is_empty()
            || !self.headers.is_empty()
    }
}

/// `Content-type`.
pub open spec fn content_type_name() -> Seq<char> {
    seq!['C', 'o', 'n', 't', 'e', 'n', 't', '-', 't', 'y', 'p', 'e']
}

/// `application/json`.
pub open spec fn json_mime() -> Seq<char> {
    seq!['a', 'p', 'p', 'l', 'i', 'c', 'a', 't', 'i', 'o', 'n', '/', 'j', 's', 'o', 'n']
}

/// The string view of an optional string.
pub open spec fn opt_view(o: Option<String>) -> Option<Seq<char>> {
    match o {
        Some(s) => Some(s@),
        None => None,
    }
}

/// Whether a patch declares a JSON body.
pub open spec fn declares_json(p: &EndpointPatch) -> bool {
    match p.data {
        Some(d) => d.json is Some,
        None => false,
    }
}

/// What `update` makes of the query parameters and headers of `e` with `p`:
/// the query parameters, the headers, and whether every pair could be read.
pub open spec fn patched_pairs(e: EndpointV, p: &EndpointPatch) -> (Entries, Entries, bool) {
    let (q1, ok1) = set_all(e.query, views(p.query@), query_sep());
    if !ok1 {
        (q1, e.headers, false)
    } else {
        let (h1, ok2) = set_all(e.headers, views(p.headers@), header_sep());
        if !ok2 {
            (q1, h1, false)
        } else {
            let q2 = set_all(q1, views(p.query@), query_sep()).0;
            let h2 = if declares_json(p) {
                pm_insert(h1, content_type_name(), json_mime())
            } else {
                h1
            };
            (q2, h2, true)
        }
    }
}

impl Endpoint {
    /// A new endpoint: method `GET`, no URL, no query parameter, no header.
    pub fn new() -> (r: Self)
        ensures
            r@ == (EndpointV {
                url: Seq::empty(),
                method: get_method(),
                query: Seq::empty(),
                headers: Seq::empty(),
            }),
    {
        Self::default()
    }

    /// A copy of the endpoint.
    pub fn clone_endpoint(&self) -> (r: Self)
        ensures
            r@ == self@,
    {
        Endpoint {
            url: self.url.clone(),
            method: self.method.clone(),
            query: Query(self.query.0.clone_map()),
            headers: Headers(self.headers.0.clone_map()),
        }
    }

    /// The directory name for an endpoint name: trimmed, with `/` and `\`
    /// replaced by `-`.
    pub fn name_to_dir(name: &str) -> (r: String)
        ensures
            r@ == trim_ws(name@).map_values(
                |c: char|
                    if c == '/' || c == '\\' {
                        '-'
                    } else {
                        c
                    },
            ),
    {
        let t = trim(name);
        let v = chars_of(t.as_str());
        let mut out: Vec<char> = Vec::new();
        let mut i: usize = 0;
        while i < v.len()
            invariant
                i <= v.len(),
                out@ == v@.take(i as int).map_values(
                    |c: char|
                        if c == '/' || c == '\\' {
                            '-'
                        } else {
                            c
                        },
                ),
            decreases v.len() - i,
        {
            let c = v[i];
            let d = if c == '/' || c == '\\' {
                '-'
            } else {
                c
            };
            out.push(d);
            assert(v@.take(i + 1) =~= v@.take(i as int).push(c));
            assert(out@ =~= v@.take(i + 1).map_values(
                |c: char|
                    if c == '/' || c == '\\' {
                        '-'
                    } else {
                        c
                    },
            ));
            i = i + 1;
        }
        assert(v@.take(v.len() as int) =~= v@);
        string_of(&out)
    }

    /// Applies `src`: the method and URL it holds are swapped with the
    /// endpoint's; its query parameters, then its headers, then its query
    /// parameters again are set; a JSON body sets `Content-type:
    /// application/json`. Fails at the first pair that cannot be read.
    pub fn update(&mut self, src: &mut EndpointPatch) -> (r: Result)
        ensures
            final(self).method@ == (match old(src).method {
                Some(m) => m@,
                None => old(self).method@,
            }),
            final(self).url@ == (match old(src).url {
                Some(u) => u@,
                None => old(self).url@,
            }),
            opt_view(final(src).method) == (match old(src).method {
                Some(_) => Some(old(self).method@),
                None => None::<Seq<char>>,
            }),
            opt_view(final(src).url) == (match old(src).url {
                Some(_) => Some(old(self).url@),
                None => None::<Seq<char>>,
            }),
            final(src).query == old(src).query,
            final(src).headers == old(src).headers,
            final(src).data == old(src).data,
            final(self).query@ == patched_pairs(old(self)@, old(src)).0,
            final(self).headers@ == patched_pairs(old(self)@, old(src)).1,
            r is Ok == patched_pairs(old(self)@, old(src)).2,
            r is Err ==> r matches Err(Error::KeymapSet),
    {
        let ghost e0 = self@;
        match &src.method {
            Some(m) => {
                let new_method = m.clone();
                let old_method = self.method.clone();
                self.method = new_method;
                src.method = Some(old_method);
            },
            None => {},
        }
        match &src.url {
            Some(u) => {
                let new_url = u.clone();
                let old_url = self.url.clone();
                self.url = new_url;
                src.url = Some(old_url);
            },
            None => {},
        }
        proof {
            reveal_strlit("=");
            reveal_strlit(": ");
            assert("="@ =~= query_sep());
            assert(": "@ =~= header_sep());
        }
        self.query.0.set_pairs(&src.query, "=")?;
        self.headers.0.set_pairs(&src.headers, ": ")?;
        proof {
            lemma_set_all_ok(e0.query, self.query@, views(src.query@), query_sep());
        }
        self.query.0.set_pairs(&src.query, "=")?;
        match &src.data {
            Some(data) => {
                if data.json.is_some() {
                    proof {
                        reveal_strlit("Content-type");
                        reveal_strlit("application/json");
                        assert("Content-type"@ =~= content_type_name());
                        assert("application/json"@ =~= json_mime());
                    }
                    self.headers.0.insert(
                        String::from_str("Content-type"),
                        String::from_str("application/json"),
                    );
                }
            },
            None => {},
        }
        Ok(())
    }

    /// `{{key}}`: how a variable is written in a template.
    pub fn key_match_str(key: &str) -> (r: String)
        ensures
            r@ == key_match(key@),
    {
        proof {
            reveal_strlit("{{");
            reveal_strlit("}}");
        }
        let a = concat("{{", key);
        let r = concat(a.as_str(), "}}");
        assert(r@ =~= key_match(key@));
        r
    }

    /// The query parameters as `name=value`, in their order, joined with `&`.
    ///
    /// For `v = 9000` and `fields = "lorem,ipsum"` this is `v=9000&fields=lorem,ipsum`.
    pub fn query_string(&self) -> (r: String)
        ensures
            r@ == spec_query_string(self.query@),
    {
        let entries = self.query.0.entries();
        let mut parts: Vec<String> = Vec::new();
        let mut i: usize = 0;
        while i < entries.len()
            invariant
                i <= entries.len(),
                entries@.map_values(|e: (String, String)| (e.0@, e.1@)) == self.query@,
                views(parts@) == query_items(self.query@).take(i as int),
            decreases entries.len() - i,
        {
            proof {
                reveal_strlit("=");
                assert("="@ =~= seq!['=']);
            }
            assert(self.query@[i as int] == (entries@[i as int].0@, entries@[i as int].1@));
            let a = concat(entries[i].0.as_str(), "=");
            let item = concat(a.as_str(), entries[i].1.as_str());
            assert(item@ == query_items(self.query@)[i as int]);
            let ghost prev = views(parts@);
            parts.push(item);
            assert(views(parts@) =~= prev.push(item@));
            assert(query_items(self.query@).take(i + 1) =~= query_items(self.query@).take(
                i as int,
            ).push(item@));
            i = i + 1;
        }
        assert(query_items(self.query@).take(entries.len() as int) =~= query_items(self.query@));
        proof {
            reveal_strlit("&");
            assert("&"@ =~= seq!['&']);
        }
        join_strings(&parts, "&")
    }

    /// The URL with the query string appended (after `?`, or after `&` when
    /// the URL already holds a `?`), parsed as a URI; when that fails and the
    /// URL has no `://`, parsed again with `http://` in front. The URI comes
    /// with its parts, those `hyper` reads from the text that was parsed.
    pub fn full_url(&self) -> (r: Result<(hyper::Uri, UriParts)>)
        ensures
            ({
                let t = url_with_query(self@);
                let h = seq!['h', 't', 't', 'p', ':', '/', '/'] + t;
                if uri_parses(t) {
                    r matches Ok((_, p)) && Some(parts_view(p)) == uri_components(t)
                } else if !contains(t, seq![':', '/', '/']) && uri_parses(h) {
                    r matches Ok((_, p)) && Some(parts_view(p)) == uri_components(h)
                } else {
                    r matches Err(Error::EndpointError(EndpointError::SerializeUri))
                }
            }),
    {
        let query_string = self.query_string();
        let mut url = self.url.clone();
        proof {
            reveal_strlit("?");
            reveal_strlit("&");
            reveal_strlit("://");
            reveal_strlit("http://");
            assert("?"@ =~= seq!['?']);
            assert("&"@ =~= seq!['&']);
            assert("://"@ =~= seq![':', '/', '/']);
            assert("http://"@ =~= seq!['h', 't', 't', 'p', ':', '/', '/']);
        }
        if !query_string.as_str().is_empty() {
            let delimiter = if contains_exec(self.url.as_str(), "?") {
                "&"
            } else {
                "?"
            };
            url.append(delimiter);
            url.append(query_string.as_str());
        }
        assert(url@ == url_with_query(self@));
        match parse_uri(url.as_str()) {
            Some(x) => Ok(x),
            None => {
                if !contains_exec(url.as_str(), "://") {
                    let scheme = concat("http://", url.as_str());
                    match parse_uri(scheme.as_str()) {
                        Some(x) => Ok(x),
                        None => Err(Error::EndpointError(EndpointError::SerializeUri)),
                    }
                } else {
                    Err(Error::EndpointError(EndpointError::SerializeUri))
                }
            },
        }
    }
}

/// `{{key}}`.
pub open spec fn key_match(key: Seq<char>) -> Seq<char> {
    seq!['{', '{'] + key + seq!['}', '}']
}

/// Every query parameter as `name=value`, in order.
pub open spec fn query_items(q: Entries) -> Seq<Seq<char>> {
    q.map_values(|e: (Seq<char>, Seq<char>)| e.0 + seq!['='] + e.1)
}

/// The query string: the parameters as `name=value`, in their order, joined
/// with `&`.
pub open spec fn spec_query_string(q: Entries) -> Seq<char> {
    join(query_items(q), seq!['&'])
}

/// The URL with the query string appended.
pub open spec fn url_with_query(e: EndpointV) -> Seq<char> {
    let qs = spec_query_string(e.query);
    if qs.len() == 0 {
        e.url
    } else if contains(e.url, seq!['?']) {
        e.url + seq!['&'] + qs
    } else {
        e.url + seq!['?'] + qs
    }
}

/// Whether every pair can be read does not depend on the entries they are set in.
pub proof fn lemma_set_all_ok(e1: Entries, e2: Entries, inputs: Seq<Seq<char>>, sep: Seq<char>)
    ensures
        set_all(e1, inputs, sep).1 == set_all(e2, inputs, sep).1,
    decreases inputs.len(),
{
    if inputs.len() > 0 {
        if let Some((k, v)) = spec_pair(inputs[0], sep) {
            lemma_set_all_ok(pm_insert(e1, k, v), pm_insert(e2, k, v), inputs.skip(1), sep);
        }
    }
}

} // verus!
