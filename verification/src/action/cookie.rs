//! `show cookies`: the cookies of the environment in use.

use vstd::prelude::*;

use crate::action::{CliError, CliResult};
use crate::cookie::{Cookie, CookieJar, CookieV};
use crate::store::opt_string_view;
use crate::text::{concat, ends_with, ends_with_exec, str_eq};

verus! {

/// The arguments of `show cookies`.
pub struct PrintArgs {
    pub key: Option<String>,
    /// Filter cookies that match this domain
    pub domain: Option<String>,
}

/// A cookie set for `cookie_domain` matches `domain` when `domain` is that
/// domain or one of its subdomains.
pub open spec fn domain_matches(cookie_domain: Seq<char>, domain: Seq<char>) -> bool {
    domain == cookie_domain || ends_with(domain, seq!['.'] + cookie_domain)
}

/// Whether the cookie is shown for the domain filter.
pub open spec fn shown(domain: Option<Seq<char>>) -> spec_fn(CookieV) -> bool {
    |c: CookieV| domain is None || domain_matches(c.0, domain.unwrap())
}

/// Whether the cookie is named `key`.
pub open spec fn named(key: Seq<char>) -> spec_fn(CookieV) -> bool {
    |c: CookieV| c.1 == key
}

/// A line per cookie: `name=value`, or with `by_domain`, `domain: value`.
pub open spec fn cookie_lines(cs: Seq<CookieV>, by_domain: bool) -> Seq<char>
    decreases cs.len(),
{
    if cs.len() == 0 {
        Seq::empty()
    } else {
        let c = cs.last();
        cookie_lines(cs.drop_last(), by_domain) + (if by_domain {
            c.0 + seq![':', ' '] + c.2
        } else {
            c.1 + seq!['='] + c.2
        }) + seq!['\n']
    }
}

/// What `show cookies` prints for the cookies `cs`: without a key, a line
/// `name=value` per cookie shown; with a key, the value of the one cookie
/// of that name, or a line `domain: value` for each of several.
pub open spec fn printed_cookies(cs: Seq<CookieV>, key: Option<Seq<char>>, domain: Option<Seq<char>>) -> Option<
    Seq<char>,
> {
    let s = cs.filter(shown(domain));
    match key {
        None => Some(cookie_lines(s, false)),
        Some(k) => {
            let ns = s.filter(named(k));
            if ns.len() == 0 {
                None
            } else if ns.len() == 1 {
                Some(ns[0].2 + seq!['\n'])
            } else {
                Some(cookie_lines(ns, true))
            }
        },
    }
}

/// Whether the cookie is shown for the domain filter.
fn is_shown(c: &Cookie, domain: &Option<String>) -> (b: bool)
    ensures
        b == shown(opt_string_view(*domain))(c@),
{
    match domain {
        None => true,
        Some(d) => {
            proof {
                reveal_strlit(".");
            }
            let dotted = concat(".", c.domain.as_str());
            assert(dotted@ =~= seq!['.'] + c.domain@);
            str_eq(d.as_str(), c.domain.as_str()) || ends_with_exec(d.as_str(), dotted.as_str())
        },
    }
}

/// The lines of `cs`, as `cookie_lines` writes them.
fn lines_of(cs: &Vec<Cookie>, by_domain: bool) -> (r: String)
    ensures
        r@ == cookie_lines(cs@.map_values(|c: Cookie| c@), by_domain),
{
    let ghost cv = cs@.map_values(|c: Cookie| c@);
    let mut out = String::new();
    let mut i: usize = 0;
    assert(cv.take(0) =~= Seq::<CookieV>::empty());
    while i < cs.len()
        invariant
            i <= cs.len(),
            cv == cs@.map_values(|c: Cookie| c@),
            out@ == cookie_lines(cv.take(i as int), by_domain),
        decreases cs.len() - i,
    {
        proof {
            reveal_strlit(": ");
            reveal_strlit("=");
            reveal_strlit("\n");
        }
        let c = &cs[i];
        assert(cv[i as int] == c@);
        assert(cv.take(i + 1).drop_last() =~= cv.take(i as int));
        if by_domain {
            out.append(c.domain.as_str());
            out.append(": ");
        } else {
            out.append(c.name.as_str());
            out.append("=");
        }
        out.append(c.value.as_str());
        out.append("\n");
        assert(out@ =~= cookie_lines(cv.take(i + 1), by_domain));
        i = i + 1;
    }
    assert(cv.take(cs.len() as int) =~= cv);
    out
}

fn copy_cookie(c: &Cookie) -> (r: Cookie)
    ensures
        r@ == c@,
{
    Cookie { domain: c.domain.clone(), name: c.name.clone(), value: c.value.clone() }
}

/// `show cookies`: the cookies of `jar` that match the domain given, if
/// any; without a key, a line `name=value` for each; with a key, the value
/// of the cookie of that name, or a line `domain: value` for each of several.
/// Fails when no cookie shown has that name.
pub fn print(jar: &CookieJar, args: &PrintArgs) -> (r: CliResult<String>)
    ensures
        match printed_cookies(jar@, opt_string_view(args.key), opt_string_view(args.domain)) {
            Some(t) => r matches Ok(s) && s@ == t,
            None => r matches Err(CliError::NoSuchCookie(k)) && args.key matches Some(k2) && k@ == k2@,
        },
{
    let ghost dv = opt_string_view(args.domain);
    let ghost cs = jar@;
    let mut kept: Vec<Cookie> = Vec::new();
    let mut i: usize = 0;
    assert(cs.take(0) =~= Seq::<CookieV>::empty());
    while i < jar.cookies.len()
        invariant
            i <= jar.cookies.len(),
            cs == jar@,
            dv == opt_string_view(args.domain),
            kept@.map_values(|c: Cookie| c@) == cs.take(i as int).filter(shown(dv)),
        decreases jar.cookies.len() - i,
    {
        let c = &jar.cookies[i];
        assert(cs[i as int] == c@);
        assert(cs.take(i + 1) =~= cs.take(i as int).push(c@));
        proof {
            cs.take(i as int).lemma_filter_push(c@, shown(dv));
        }
        let ghost before = kept@.map_values(|c: Cookie| c@);
        if is_shown(c, &args.domain) {
            kept.push(copy_cookie(c));
            assert(kept@.map_values(|c: Cookie| c@) =~= before.push(c@));
        }
        i = i + 1;
    }
    assert(cs.take(jar.cookies.len() as int) =~= cs);
    let ghost sv = cs.filter(shown(dv));
    match &args.key {
        None => Ok(lines_of(&kept, false)),
        Some(k) => {
            let mut ns: Vec<Cookie> = Vec::new();
            let mut j: usize = 0;
            assert(sv.take(0) =~= Seq::<CookieV>::empty());
            while j < kept.len()
                invariant
                    j <= kept.len(),
                    kept@.map_values(|c: Cookie| c@) == sv,
                    ns@.map_values(|c: Cookie| c@) == sv.take(j as int).filter(named(k@)),
                decreases kept.len() - j,
            {
                let c = &kept[j];
                assert(sv[j as int] == c@);
                assert(sv.take(j + 1) =~= sv.take(j as int).push(c@));
                proof {
                    sv.take(j as int).lemma_filter_push(c@, named(k@));
                }
                let ghost before = ns@.map_values(|c: Cookie| c@);
                if str_eq(c.name.as_str(), k.as_str()) {
                    ns.push(copy_cookie(c));
                    assert(ns@.map_values(|c: Cookie| c@) =~= before.push(c@));
                }
                j = j + 1;
            }
            assert(sv.take(kept.len() as int) =~= sv);
            if ns.len() == 0 {
                Err(CliError::NoSuchCookie(k.clone()))
            } else if ns.len() == 1 {
                proof {
                    reveal_strlit("\n");
                }
                assert(ns@.map_values(|c: Cookie| c@)[0] == ns@[0]@);
                Ok(concat(ns[0].value.as_str(), "\n"))
            } else {
                Ok(lines_of(&ns, true))
            }
        },
    }
}

} // verus!
