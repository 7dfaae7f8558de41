//! Code snippets that reproduce a resolved request with other tools.

use vstd::prelude::*;

use crate::headers::header_sep;
use crate::history::Http;
use crate::pairmap::{render, Entries};
use crate::uri::{parse_uri, uri_components};
use crate::resolve::ResolvedEndpoint;
use crate::store::opt_string_view;

verus! {

/// The options of a `curl` command line that a snippet uses.
pub enum CurlOption {
    Location,
    Request,
    Header,
    Data,
}

/// How a `curl` snippet is written: long option names, one option per line.
pub struct Curl {
    /// Use long form cURL options (--header instead of -H)
    pub long: bool,
    /// Split output across multiple lines
    pub multiline: bool,
}

/// The text of an option, long or short.
pub open spec fn option_text(long: bool, option: CurlOption) -> Seq<char> {
    match option {
        CurlOption::Location => if long {
            seq!['-', '-', 'l', 'o', 'c', 'a', 't', 'i', 'o', 'n']
        } else {
            seq!['-', 'L']
        },
        CurlOption::Request => if long {
            seq!['-', '-', 'r', 'e', 'q', 'u', 'e', 's', 't']
        } else {
            seq!['-', 'X']
        },
        CurlOption::Header => if long {
            seq!['-', '-', 'h', 'e', 'a', 'd', 'e', 'r']
        } else {
            seq!['-', 'H']
        },
        CurlOption::Data => if long {
            seq!['-', '-', 'd', 'a', 't', 'a']
        } else {
            seq!['-', 'd']
        },
    }
}

/// What stands between two options: a space, or a backslash, a line break
/// and a tab.
pub open spec fn separator(multiline: bool) -> Seq<char> {
    if multiline {
        seq![' ', '\\', '\n', '\t']
    } else {
        seq![' ']
    }
}

/// The header options: `<sep><-H> '<name>: <value>'` for each header.
pub open spec fn header_options(sep: Seq<char>, opt: Seq<char>, headers: Entries) -> Seq<char>
    decreases headers.len(),
{
    if headers.len() == 0 {
        Seq::empty()
    } else {
        header_options(sep, opt, headers.drop_last()) + sep + opt + seq![' ', '\''] + headers.last().0
            + seq![':', ' '] + headers.last().1 + seq!['\'']
    }
}

/// A body without one trailing line break.
pub open spec fn without_final_newline(b: Seq<char>) -> Seq<char> {
    if b.len() > 0 && b.last() == '\n' {
        b.drop_last()
    } else {
        b
    }
}

/// The start of a `curl` command line: the URL and the method.
pub open spec fn curl_head(long: bool, url: Seq<char>, method: Seq<char>) -> Seq<char> {
    seq!['c', 'u', 'r', 'l', ' '] + option_text(long, CurlOption::Location) + seq![' ', '\''] + url
        + seq!['\''] + seq![' '] + option_text(long, CurlOption::Request) + seq![' '] + method
}

/// The end of a `curl` command line: the body, if any, and a line break.
pub open spec fn curl_tail(long: bool, multiline: bool, body: Option<Seq<char>>) -> Seq<char> {
    match body {
        Some(b) => separator(multiline) + option_text(long, CurlOption::Data) + seq![' ', '\'']
            + without_final_newline(b) + seq!['\'', '\n'],
        None => seq!['\n'],
    }
}

/// The `curl` command line for a resolved endpoint.
pub open spec fn curl_text(
    long: bool,
    multiline: bool,
    url: Seq<char>,
    method: Seq<char>,
    headers: Entries,
    body: Option<Seq<char>>,
) -> Seq<char> {
    curl_head(long, url, method) + header_options(
        separator(multiline),
        option_text(long, CurlOption::Header),
        headers,
    ) + curl_tail(long, multiline, body)
}

/// Appends the header options for `headers` to `w`.
fn push_header_options(w: &mut String, sep: &str, opt: &str, headers: &crate::pairmap::PairMap)
    ensures
        final(w)@ == old(w)@ + header_options(sep@, opt@, headers@),
{
    let es = headers.entries();
    let ghost hv = headers@;
    let ghost prefix = w@;
    let mut i: usize = 0;
    assert(hv.take(0) =~= Seq::<(Seq<char>, Seq<char>)>::empty());
    assert(w@ =~= prefix + header_options(sep@, opt@, hv.take(0)));
    while i < es.len()
        invariant
            i <= es.len(),
            es@.map_values(|e: (String, String)| (e.0@, e.1@)) == hv,
            w@ == prefix + header_options(sep@, opt@, hv.take(i as int)),
        decreases es.len() - i,
    {
        proof {
            reveal_strlit(" '");
            reveal_strlit(": ");
            reveal_strlit("'");
        }
        assert(hv[i as int] == (es@[i as int].0@, es@[i as int].1@));
        assert(hv.take(i + 1).drop_last() =~= hv.take(i as int));
        assert(hv.take(i + 1).last() == hv[i as int]);
        w.append(sep);
        w.append(opt);
        w.append(" '");
        w.append(es[i].0.as_str());
        w.append(": ");
        w.append(es[i].1.as_str());
        w.append("'");
        assert(w@ =~= prefix + header_options(sep@, opt@, hv.take(i + 1)));
        i = i + 1;
    }
    assert(hv.take(es.len() as int) =~= hv);
}

impl Curl {
    /// The text of `option`.
    pub fn option_string(&self, option: CurlOption) -> (r: String)
        ensures
            r@ == option_text(self.long, option),
    {
        let s = match option {
            CurlOption::Location => if self.long {
                "--location"
            } else {
                "-L"
            },
            CurlOption::Request => if self.long {
                "--request"
            } else {
                "-X"
            },
            CurlOption::Header => if self.long {
                "--header"
            } else {
                "-H"
            },
            CurlOption::Data => if self.long {
                "--data"
            } else {
                "-d"
            },
        };
        proof {
            reveal_strlit("--location");
            reveal_strlit("-L");
            reveal_strlit("--request");
            reveal_strlit("-X");
            reveal_strlit("--header");
            reveal_strlit("-H");
            reveal_strlit("--data");
            reveal_strlit("-d");
        }
        let r = s.to_owned();
        assert(r@ =~= option_text(self.long, option));
        r
    }

    /// The start of the command line: the URL and the method.
    fn head_text(&self, url: &str, method: &str) -> (r: String)
        ensures
            r@ == curl_head(self.long, url@, method@),
    {
        proof {
            reveal_strlit("curl ");
            reveal_strlit(" '");
            reveal_strlit("'");
            reveal_strlit(" ");
        }
        let mut w = String::from_str("curl ");
        let loc = self.option_string(CurlOption::Location);
        w.append(loc.as_str());
        w.append(" '");
        w.append(url);
        w.append("'");
        w.append(" ");
        let req = self.option_string(CurlOption::Request);
        w.append(req.as_str());
        w.append(" ");
        w.append(method);
        assert(w@ =~= curl_head(self.long, url@, method@));
        w
    }

    /// The end of the command line: the body, if any, and a line break.
    fn tail_text(&self, body: &Option<String>) -> (r: String)
        ensures
            r@ == curl_tail(self.long, self.multiline, opt_string_view(*body)),
    {
        proof {
            reveal_strlit(" \\\n\t");
            reveal_strlit(" ");
            reveal_strlit(" '");
            reveal_strlit("'\n");
            reveal_strlit("\n");
        }
        match body {
            Some(b) => {
                let mut w = if self.multiline {
                    String::from_str(" \\\n\t")
                } else {
                    String::from_str(" ")
                };
                assert(w@ =~= separator(self.multiline));
                let dopt = self.option_string(CurlOption::Data);
                w.append(dopt.as_str());
                w.append(" '");
                let mut bv = crate::text::chars_of(b.as_str());
                if bv.len() > 0 && bv[bv.len() - 1] == '\n' {
                    bv.pop();
                }
                assert(bv@ =~= without_final_newline(b@));
                let t = crate::text::string_of(&bv);
                w.append(t.as_str());
                w.append("'\n");
                assert(w@ =~= curl_tail(self.long, self.multiline, opt_string_view(*body)));
                w
            },
            None => {
                let w = String::from_str("\n");
                assert(w@ =~= seq!['\n']);
                w
            },
        }
    }

    /// The `curl` command line for `endpoint`: the URL after `-L`, the method
    /// after `-X`, a `-H` option for each header, and the body (without a
    /// trailing line break) after `-d`; ended by a line break.
    pub fn write(&self, endpoint: ResolvedEndpoint) -> (r: String)
        ensures
            r@ == curl_text(
                self.long,
                self.multiline,
                endpoint.url@,
                endpoint.method@,
                endpoint.headers@,
                opt_string_view(endpoint.body),
            ),
    {
        proof {
            reveal_strlit(" \\\n\t");
            reveal_strlit(" ");
        }
        let sep = if self.multiline {
            " \\\n\t"
        } else {
            " "
        };
        assert(sep@ =~= separator(self.multiline));
        let mut w = self.head_text(endpoint.url.as_str(), endpoint.method.as_str());
        let hopt = self.option_string(CurlOption::Header);
        push_header_options(&mut w, sep, hopt.as_str(), &endpoint.headers.0);
        let t = self.tail_text(&endpoint.body);
        w.append(t.as_str());
        w
    }
}

/// The HTTP text of a request: the request line, the `Host` line, one line
/// per header, and the body after an empty line.
pub open spec fn http_text(
    method: Seq<char>,
    path: Seq<char>,
    host: Seq<char>,
    headers: Entries,
    body: Option<Seq<char>>,
) -> Seq<char> {
    method + seq![' '] + path + seq![' ', 'H', 'T', 'T', 'P', '/', '1', '.', '1', '\n'] + seq![
        'H',
        'o',
        's',
        't',
        ':',
        ' ',
    ] + host + seq!['\n'] + render(headers, header_sep()) + match body {
        Some(b) => seq!['\n'] + b,
        None => Seq::empty(),
    }
}

/// The URL has a host and a path where it is a URI.
pub open spec fn http_writable(url: Seq<char>) -> bool {
    uri_components(url) matches Some((_, _, host, path)) ==> host is Some && path is Some
}

impl Http {
    /// The endpoint as HTTP text; `None` when its URL is no URI.
    pub fn write(endpoint: ResolvedEndpoint) -> (r: Option<String>)
        requires
            http_writable(endpoint.url@),
        ensures
            match uri_components(endpoint.url@) {
                None => r is None,
                Some((_, _, host, path)) => r matches Some(s) && s@ == http_text(
                    endpoint.method@,
                    path.unwrap(),
                    host.unwrap(),
                    endpoint.headers@,
                    opt_string_view(endpoint.body),
                ),
            },
    {
        let parts = match parse_uri(endpoint.url.as_str()) {
            Some((_, p)) => p,
            None => {
                return None;
            },
        };
        let path = parts.path_and_query.unwrap();
        let host = parts.host.unwrap();
        proof {
            reveal_strlit(" ");
            reveal_strlit(" HTTP/1.1\n");
            reveal_strlit("Host: ");
            reveal_strlit("\n");
        }
        let mut w = endpoint.method.clone();
        w.append(" ");
        w.append(path.as_str());
        w.append(" HTTP/1.1\n");
        w.append("Host: ");
        w.append(host.as_str());
        w.append("\n");
        let h = endpoint.headers.to_string();
        w.append(h.as_str());
        match &endpoint.body {
            Some(b) => {
                w.append("\n");
                w.append(b.as_str());
            },
            None => {},
        }
        assert(w@ =~= http_text(
            endpoint.method@,
            path@,
            host@,
            endpoint.headers@,
            opt_string_view(endpoint.body),
        ));
        Some(w)
    }

    /// Whether `write` can write the URL: it is no URI (and `write` gives
    /// `None`), or it has a host and a path.
    pub fn writable(url: &str) -> (b: bool)
        ensures
            b == http_writable(url@),
    {
        match parse_uri(url) {
            Some((_, p)) => p.host.is_some() && p.path_and_query.is_some(),
            None => true,
        }
    }
}

} // verus!
