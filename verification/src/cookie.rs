//! The cookies that responses set, kept per environment in a `cookies` file:
//! one line `domain<TAB>name<TAB>value` per cookie.

use vstd::prelude::*;

use crate::error::{CookieError, Error, Result};
use crate::pairmap::{lemma_split_render, no_line_break, pair_lines, render, Entries};
use crate::project::{join_path, path_join};
use crate::text::{
    lemma_split_char_nonempty, lemma_split_once_pair, occurs_at, split, split_char, split_once,
    split_once_exec, trim, trim_ws,
};

verus! {

/// A cookie as values: its domain, name and value.
pub type CookieV = (Seq<char>, Seq<char>, Seq<char>);

/// A cookie that a response set for a domain.
pub struct Cookie {
    pub domain: String,
    pub name: String,
    pub value: String,
}

impl View for Cookie {
    type V = CookieV;

    open spec fn view(&self) -> CookieV {
        (self.domain@, self.name@, self.value@)
    }
}

/// The cookies, in the order they were first set.
pub struct CookieJar {
    pub cookies: Vec<Cookie>,
}

pub open spec fn cookies_view(v: Seq<Cookie>) -> Seq<CookieV> {
    v.map_values(|c: Cookie| c@)
}

impl View for CookieJar {
    type V = Seq<CookieV>;

    open spec fn view(&self) -> Seq<CookieV> {
        cookies_view(self.cookies@)
    }
}

/// The position of the first cookie named `name` for `domain`.
pub open spec fn find_cookie(cs: Seq<CookieV>, domain: Seq<char>, name: Seq<char>) -> Option<int>
    decreases cs.len(),
{
    if cs.len() == 0 {
        None
    } else {
        match find_cookie(cs.drop_last(), domain, name) {
            Some(i) => Some(i),
            None => if cs.last().0 == domain && cs.last().1 == name {
                Some(cs.len() - 1)
            } else {
                None
            },
        }
    }
}

/// The value of the cookie named `name` for `domain`, if there is one.
pub open spec fn jar_get(cs: Seq<CookieV>, domain: Seq<char>, name: Seq<char>) -> Option<Seq<char>> {
    match find_cookie(cs, domain, name) {
        Some(i) => Some(cs[i].2),
        None => None,
    }
}

/// The cookies with `name` for `domain` set to `value`: the cookie replaced
/// where it is, or added at the end.
pub open spec fn jar_set(cs: Seq<CookieV>, domain: Seq<char>, name: Seq<char>, value: Seq<char>) -> Seq<
    CookieV,
> {
    match find_cookie(cs, domain, name) {
        Some(i) => cs.update(i, (domain, name, value)),
        None => cs.push((domain, name, value)),
    }
}

/// The name and value that a `Set-Cookie` text sets: `name=value` before
/// the first `;`, both trimmed; nothing without `=` or with an empty name.
pub open spec fn received_pair(text: Seq<char>) -> Option<(Seq<char>, Seq<char>)> {
    let first = split_char(text, ';')[0];
    match split_once(first, seq!['=']) {
        Some((n, v)) => if trim_ws(n).len() > 0 {
            Some((trim_ws(n), trim_ws(v)))
        } else {
            None
        },
        None => None,
    }
}

/// `\t`.
pub open spec fn tab() -> Seq<char> {
    seq!['\t']
}

/// A cookie as a pair: the domain, then the name and value with a tab
/// between them.
pub open spec fn cookie_entry(c: CookieV) -> (Seq<char>, Seq<char>) {
    (c.0, c.1 + tab() + c.2)
}

pub open spec fn jar_entries(cs: Seq<CookieV>) -> Entries {
    cs.map_values(|c: CookieV| cookie_entry(c))
}

/// The content of a `cookies` file: a line `domain<TAB>name<TAB>value` per
/// cookie.
pub open spec fn jar_text(cs: Seq<CookieV>) -> Seq<char> {
    render(jar_entries(cs), tab())
}

/// A line of a `cookies` file read as a cookie.
pub open spec fn cookie_of_line(l: Seq<char>) -> Option<CookieV> {
    match split_once(l, tab()) {
        Some((d, rest)) => match split_once(rest, tab()) {
            Some((n, v)) => Some((d, n, v)),
            None => None,
        },
        None => None,
    }
}

/// The lines read as cookies, empty lines skipped, or `None` when one of
/// them is no cookie.
pub open spec fn cookies_of_lines(ls: Seq<Seq<char>>) -> Option<Seq<CookieV>>
    decreases ls.len(),
{
    if ls.len() == 0 {
        Some(Seq::empty())
    } else {
        match cookies_of_lines(ls.drop_last()) {
            Some(cs) => if ls.last().len() == 0 {
                Some(cs)
            } else {
                match cookie_of_line(ls.last()) {
                    Some(c) => Some(cs.push(c)),
                    None => None,
                }
            },
            None => None,
        }
    }
}

/// What a `cookies` file holds: the cookies of its non-empty lines.
pub open spec fn parse_jar(text: Seq<char>) -> Option<Seq<CookieV>> {
    cookies_of_lines(split_char(text, '\n'))
}

/// What a jar is made of: the cookies of the file when there is one that
/// can be read, else none.
pub open spec fn jar_or_default(text: Option<Seq<char>>) -> Seq<CookieV> {
    match text {
        Some(t) => match parse_jar(t) {
            Some(cs) => cs,
            None => Seq::empty(),
        },
        None => Seq::empty(),
    }
}

/// Cookies that a `cookies` file keeps: domains and names without a tab or a
/// line break, values without a line break.
pub open spec fn storable_cookies(cs: Seq<CookieV>) -> bool {
    forall|i: int|
        0 <= i < cs.len() ==> !(#[trigger] cs[i]).0.contains('\t') && !cs[i].0.contains('\n')
            && !cs[i].1.contains('\t') && !cs[i].1.contains('\n') && !cs[i].2.contains('\n')
}

/// `cookies`: the name of the jar file in an environment's directory.
pub open spec fn cookies_file_name() -> Seq<char> {
    seq!['c', 'o', 'o', 'k', 'i', 'e', 's']
}

/// Where the jar is written after a request: the path given, else the
/// `cookies` file of the environment's directory.
pub fn cookie_jar_path(env_dir: &str, given: Option<String>) -> (r: String)
    ensures
        r@ == match given {
            Some(p) => p@,
            None => join_path(env_dir@, cookies_file_name()),
        },
{
    match given {
        Some(p) => p,
        None => {
            proof {
                reveal_strlit("cookies");
                assert("cookies"@ =~= cookies_file_name());
            }
            path_join(env_dir, "cookies")
        },
    }
}

/// `a` without a tab.
proof fn lemma_no_tab_split(a: Seq<char>, b: Seq<char>)
    requires
        !a.contains('\t'),
    ensures
        split_once(a + tab() + b, tab()) == Some((a, b)),
{
    assert forall|j: int| 0 <= j < a.len() implies !occurs_at(a + tab() + b, tab(), j) by {
        if occurs_at(a + tab() + b, tab(), j) {
            assert((a + tab() + b).subrange(j, j + 1)[0] == tab()[0]);
            assert(a[j] == '\t');
        }
    }
    lemma_split_once_pair(a, tab(), b);
}

/// The line of each storable cookie reads back as the cookie.
proof fn lemma_lines_read_back(cs: Seq<CookieV>, k: int)
    requires
        storable_cookies(cs),
        0 <= k <= cs.len(),
    ensures
        cookies_of_lines(pair_lines(jar_entries(cs), tab()).take(k)) == Some(cs.take(k)),
    decreases k,
{
    let ls = pair_lines(jar_entries(cs), tab());
    if k == 0 {
        assert(ls.take(0) =~= Seq::<Seq<char>>::empty());
        assert(cs.take(0) =~= Seq::<CookieV>::empty());
    } else {
        lemma_lines_read_back(cs, k - 1);
        assert(ls.take(k).drop_last() =~= ls.take(k - 1));
        let c = cs[k - 1];
        assert(ls.take(k).last() == c.0 + tab() + (c.1 + tab() + c.2));
        assert(ls.take(k).last().len() > 0);
        lemma_no_tab_split(c.0, c.1 + tab() + c.2);
        lemma_no_tab_split(c.1, c.2);
        assert(cs.take(k) =~= cs.take(k - 1).push(c));
    }
}

/// Reading back a written jar: the `cookies` file written from storable
/// cookies reads back as the same cookies, in the same order.
pub proof fn law_jar_text_read_back(cs: Seq<CookieV>)
    requires
        storable_cookies(cs),
    ensures
        parse_jar(jar_text(cs)) == Some(cs),
{
    let e = jar_entries(cs);
    assert(no_line_break(e, tab())) by {
        assert forall|i: int| 0 <= i < e.len() implies !(#[trigger] e[i]).0.contains('\n')
            && !e[i].1.contains('\n') by {
            let c = cs[i];
            assert(e[i] == cookie_entry(c));
            if e[i].1.contains('\n') {
                let k = choose|k: int| 0 <= k < e[i].1.len() && e[i].1[k] == '\n';
                if k < c.1.len() {
                    assert(c.1[k] == '\n');
                } else if k == c.1.len() {
                    assert(tab()[0] == '\n');
                } else {
                    assert(c.2[k - c.1.len() - 1] == '\n');
                }
            }
        }
        if tab().contains('\n') {
            assert(tab()[0] == '\n');
        }
    }
    lemma_split_render(e, tab(), Seq::<char>::empty());
    assert(render(e, tab()) + Seq::<char>::empty() =~= render(e, tab()));
    let ls = pair_lines(e, tab());
    lemma_lines_read_back(cs, cs.len() as int);
    assert(ls.take(ls.len() as int) =~= ls);
    assert(cs.take(cs.len() as int) =~= cs);
    assert(ls.push(Seq::<char>::empty()).drop_last() =~= ls);
}

/// A prefix of the lines that is not read as cookies stops the whole.
proof fn lemma_cookies_prefix_none(ls: Seq<Seq<char>>, k: int)
    requires
        0 <= k <= ls.len(),
        cookies_of_lines(ls.take(k)) is None,
    ensures
        cookies_of_lines(ls) is None,
    decreases ls.len(),
{
    if k == ls.len() {
        assert(ls.take(k) =~= ls);
    } else {
        assert(ls.drop_last().take(k) =~= ls.take(k));
        lemma_cookies_prefix_none(ls.drop_last(), k);
    }
}

/// A prefix of the cookies that finds a cookie finds it for the whole.
proof fn lemma_find_cookie_take(cs: Seq<CookieV>, domain: Seq<char>, name: Seq<char>, k: int)
    requires
        0 <= k <= cs.len(),
        find_cookie(cs.take(k), domain, name) is Some,
    ensures
        find_cookie(cs, domain, name) == find_cookie(cs.take(k), domain, name),
    decreases cs.len(),
{
    if k == cs.len() {
        assert(cs.take(k) =~= cs);
    } else {
        assert(cs.drop_last().take(k) =~= cs.take(k));
        lemma_find_cookie_take(cs.drop_last(), domain, name, k);
    }
}

/// `find_cookie` finds the first cookie with that domain and name.
pub proof fn lemma_find_cookie(cs: Seq<CookieV>, domain: Seq<char>, name: Seq<char>)
    ensures
        find_cookie(cs, domain, name) matches Some(i) ==> 0 <= i < cs.len() && cs[i].0 == domain
            && cs[i].1 == name && forall|j: int| 0 <= j < i ==> !(#[trigger] cs[j].0 == domain
            && cs[j].1 == name),
        find_cookie(cs, domain, name) is None ==> forall|j: int|
            0 <= j < cs.len() ==> !(#[trigger] cs[j].0 == domain && cs[j].1 == name),
    decreases cs.len(),
{
    if cs.len() > 0 {
        lemma_find_cookie(cs.drop_last(), domain, name);
        assert forall|j: int| 0 <= j < cs.len() - 1 implies cs[j] == cs.drop_last()[j] by {}
    }
}

/// Reading back a set cookie: after a cookie is set for a domain, it gives
/// the value set, and every other cookie what it gave before.
pub proof fn law_set_then_get(
    cs: Seq<CookieV>,
    domain: Seq<char>,
    name: Seq<char>,
    value: Seq<char>,
    d2: Seq<char>,
    n2: Seq<char>,
)
    ensures
        jar_get(jar_set(cs, domain, name, value), domain, name) == Some(value),
        !(d2 == domain && n2 == name) ==> jar_get(jar_set(cs, domain, name, value), d2, n2)
            == jar_get(cs, d2, n2),
{
    let r = jar_set(cs, domain, name, value);
    lemma_find_cookie(cs, domain, name);
    lemma_find_cookie(cs, d2, n2);
    lemma_find_cookie(r, domain, name);
    lemma_find_cookie(r, d2, n2);
    match find_cookie(cs, domain, name) {
        Some(i) => {
            assert(r[i] == (domain, name, value));
            let j = find_cookie(r, domain, name);
            if j is Some && j.unwrap() != i {
                assert(r[j.unwrap()] == cs[j.unwrap()]);
            }
            if j is None {
                assert(r[i].0 == domain && r[i].1 == name);
            }
            match find_cookie(cs, d2, n2) {
                Some(k) => {
                    if !(d2 == domain && n2 == name) {
                        assert(r[k] == cs[k]);
                        let jj = find_cookie(r, d2, n2);
                        if jj is Some && jj.unwrap() != k {
                            assert(r[jj.unwrap()] == cs[jj.unwrap()] || jj.unwrap() == i);
                        }
                        if jj is None {
                            assert(r[k].0 == d2 && r[k].1 == n2);
                        }
                    }
                },
                None => {
                    if !(d2 == domain && n2 == name) {
                        if find_cookie(r, d2, n2) is Some {
                            let jj = find_cookie(r, d2, n2).unwrap();
                            if jj != i {
                                assert(r[jj] == cs[jj]);
                            }
                        }
                    }
                },
            }
        },
        None => {
            let n = cs.len() as int;
            assert(r[n] == (domain, name, value));
            let j = find_cookie(r, domain, name);
            if j is Some && j.unwrap() != n {
                assert(r[j.unwrap()] == cs[j.unwrap()]);
            }
            if j is None {
                assert(r[n].0 == domain && r[n].1 == name);
            }
            if !(d2 == domain && n2 == name) {
                match find_cookie(cs, d2, n2) {
                    Some(k) => {
                        assert(r[k] == cs[k]);
                        let jj = find_cookie(r, d2, n2);
                        if jj is Some && jj.unwrap() != k {
                            if jj.unwrap() < n {
                                assert(r[jj.unwrap()] == cs[jj.unwrap()]);
                            }
                        }
                        if jj is None {
                            assert(r[k].0 == d2 && r[k].1 == n2);
                        }
                    },
                    None => {
                        if find_cookie(r, d2, n2) is Some {
                            let jj = find_cookie(r, d2, n2).unwrap();
                            if jj < n {
                                assert(r[jj] == cs[jj]);
                            }
                        }
                    },
                }
            }
        },
    }
}

impl CookieJar {
    /// A jar without any cookie.
    pub fn new() -> (r: Self)
        ensures
            r@ == Seq::<CookieV>::empty(),
    {
        let r = CookieJar { cookies: Vec::new() };
        assert(r@ =~= Seq::<CookieV>::empty());
        r
    }

    /// Where the cookie named `name` for `domain` stands.
    fn find(&self, domain: &str, name: &str) -> (r: Option<usize>)
        ensures
            match find_cookie(self@, domain@, name@) {
                Some(i) => r matches Some(j) && j as int == i,
                None => r is None,
            },
            r matches Some(i) ==> i < self.cookies@.len() && self@[i as int] == self.cookies@[i as int]@,
    {
        proof {
            lemma_find_cookie(self@, domain@, name@);
        }
        let ghost cs = self@;
        let mut i: usize = 0;
        assert(cs.take(0) =~= Seq::<CookieV>::empty());
        while i < self.cookies.len()
            invariant
                i <= self.cookies.len(),
                cs == self@,
                find_cookie(cs.take(i as int), domain@, name@) is None,
            decreases self.cookies.len() - i,
        {
            assert(cs.take(i + 1).drop_last() =~= cs.take(i as int));
            assert(cs[i as int] == self.cookies@[i as int]@);
            if crate::text::str_eq(self.cookies[i].domain.as_str(), domain) && crate::text::str_eq(
                self.cookies[i].name.as_str(),
                name,
            ) {
                proof {
                    assert(cs.take(i + 1).last() == cs[i as int]);
                    lemma_find_cookie_take(cs, domain@, name@, i + 1);
                }
                return Some(i);
            }
            i = i + 1;
        }
        assert(cs.take(self.cookies.len() as int) =~= cs);
        None
    }

    /// The value of the cookie named `name` for `domain`, if there is one.
    pub fn get(&self, domain: &str, name: &str) -> (r: Option<String>)
        ensures
            match jar_get(self@, domain@, name@) {
                Some(v) => r matches Some(s) && s@ == v,
                None => r is None,
            },
    {
        match self.find(domain, name) {
            Some(i) => {
                assert(self@[i as int] == self.cookies@[i as int]@);
                let v = self.cookies[i].value.clone();
                assert(jar_get(self@, domain@, name@) == Some(self.cookies@[i as int].value@));
                Some(v)
            },
            None => None,
        }
    }

    /// Stores the cookie that the `Set-Cookie` text `set_cookie` of a
    /// response from `host` sets (a text that sets none is ignored).
    pub fn set(&mut self, host: &str, set_cookie: &str)
        ensures
            final(self)@ == match received_pair(set_cookie@) {
                Some((n, v)) => jar_set(old(self)@, host@, n, v),
                None => old(self)@,
            },
    {
        let pieces = split(set_cookie, ';');
        proof {
            lemma_split_char_nonempty(set_cookie@, ';');
            reveal_strlit("=");
            assert("="@ =~= seq!['=']);
        }
        assert(crate::text::views(pieces@)[0] == pieces@[0]@);
        assert(pieces@[0]@ == split_char(set_cookie@, ';')[0]);
        let (n, v) = match split_once_exec(pieces[0].as_str(), "=") {
            Some(p) => p,
            None => {
                return;
            },
        };
        let name = trim(n.as_str());
        if name.as_str().is_empty() {
            return;
        }
        let value = trim(v.as_str());
        let c = Cookie { domain: host.to_owned(), name, value };
        let ghost cv = c@;
        match self.find(host, c.name.as_str()) {
            Some(i) => {
                self.cookies.set(i, c);
                assert(self@ =~= old(self)@.update(i as int, cv));
            },
            None => {
                self.cookies.push(c);
                assert(self@ =~= old(self)@.push(cv));
            },
        }
    }

    /// The content of the `cookies` file for the jar.
    pub fn to_text(&self) -> (r: String)
        ensures
            r@ == jar_text(self@),
    {
        let ghost e = jar_entries(self@);
        let mut out = String::new();
        let mut i: usize = 0;
        assert(e.take(0) =~= Entries::empty());
        while i < self.cookies.len()
            invariant
                i <= self.cookies.len(),
                e == jar_entries(self@),
                out@ == render(e.take(i as int), tab()),
            decreases self.cookies.len() - i,
        {
            proof {
                reveal_strlit("\t");
                reveal_strlit("\n");
            }
            let c = &self.cookies[i];
            assert(self@[i as int] == c@);
            assert(e.take(i + 1).drop_last() =~= e.take(i as int));
            assert(e.take(i + 1).last() == cookie_entry(c@));
            out.append(c.domain.as_str());
            out.append("\t");
            out.append(c.name.as_str());
            out.append("\t");
            out.append(c.value.as_str());
            out.append("\n");
            assert(out@ =~= render(e.take(i + 1), tab()));
            i = i + 1;
        }
        assert(e.take(self.cookies.len() as int) =~= e);
        out
    }

    /// The jar of a `cookies` file: a line `domain<TAB>name<TAB>value` per
    /// cookie, empty lines skipped. Fails on a line that is no cookie.
    pub fn parse(text: &str) -> (r: Result<CookieJar>)
        ensures
            match parse_jar(text@) {
                Some(cs) => r matches Ok(j) && j@ == cs,
                None => r matches Err(Error::CookieErr(CookieError::InvalidFormat)),
            },
    {
        let ls = split(text, '\n');
        let ghost lv = split_char(text@, '\n');
        let mut jar = CookieJar::new();
        let mut i: usize = 0;
        proof {
            reveal_strlit("\t");
            assert("\t"@ =~= tab());
        }
        assert(lv.take(0) =~= Seq::<Seq<char>>::empty());
        while i < ls.len()
            invariant
                i <= ls.len(),
                crate::text::views(ls@) == lv,
                lv == split_char(text@, '\n'),
                cookies_of_lines(lv.take(i as int)) == Some(jar@),
            decreases ls.len() - i,
        {
            proof {
                reveal_strlit("\t");
                assert("\t"@ =~= tab());
            }
            let l = ls[i].as_str();
            assert(lv[i as int] == l@);
            assert(lv.take(i + 1).drop_last() =~= lv.take(i as int));
            assert(lv.take(i + 1).last() == l@);
            if !l.is_empty() {
                let (d, rest) = match split_once_exec(l, "\t") {
                    Some(p) => p,
                    None => {
                        proof {
                            assert(cookie_of_line(l@) is None);
                            assert(cookies_of_lines(lv.take(i + 1)) is None);
                            lemma_cookies_prefix_none(lv, i + 1);
                        }
                        return Err(Error::CookieErr(CookieError::InvalidFormat));
                    },
                };
                let (n, v) = match split_once_exec(rest.as_str(), "\t") {
                    Some(p) => p,
                    None => {
                        proof {
                            assert(cookie_of_line(l@) is None);
                            assert(cookies_of_lines(lv.take(i + 1)) is None);
                            lemma_cookies_prefix_none(lv, i + 1);
                        }
                        return Err(Error::CookieErr(CookieError::InvalidFormat));
                    },
                };
                let c = Cookie { domain: d, name: n, value: v };
                let ghost prev = jar@;
                jar.cookies.push(c);
                assert(jar@ =~= prev.push(c@));
            }
            i = i + 1;
        }
        assert(lv.take(ls.len() as int) =~= lv);
        Ok(jar)
    }

    /// The jar of an environment: the one its `cookies` file holds, when
    /// there is one that can be read, else an empty one.
    pub fn read_or_default(text: Option<String>) -> (r: CookieJar)
        ensures
            r@ == jar_or_default(crate::store::opt_string_view(text)),
    {
        match text {
            Some(t) => match CookieJar::parse(t.as_str()) {
                Ok(j) => j,
                Err(_) => CookieJar::new(),
            },
            None => CookieJar::new(),
        }
    }
}

} // verus!
