use quartz_core::action::cookie::{print, PrintArgs};
use quartz_core::action::CliError;
use quartz_core::cookie::{cookie_jar_path, CookieJar};
use quartz_core::endpoint::EndpointPatch;
use quartz_core::error::{CookieError, Error, RequestError};
use quartz_core::project::Quartz;
use quartz_core::request::{Request, ResponseHeader};

fn jar_of(cookies: &[(&str, &str)]) -> CookieJar {
    let mut jar = CookieJar::new();
    for (host, text) in cookies {
        jar.set(host, text);
    }
    jar
}

#[test]
fn set_cookie_is_stored_for_the_host_and_replaced_in_place() {
    let mut jar = CookieJar::new();
    jar.set("a.com", "id=1; Path=/; HttpOnly");
    jar.set("b.org", " token = xyz ");
    jar.set("a.com", "id=2");
    jar.set("a.com", "no-equal-sign");
    jar.set("a.com", "=nameless");
    assert_eq!(jar.get("a.com", "id"), Some("2".to_string()));
    assert_eq!(jar.get("b.org", "token"), Some("xyz".to_string()));
    assert_eq!(jar.get("b.org", "id"), None);
    assert_eq!(jar.to_text(), "a.com\tid\t2\nb.org\ttoken\txyz\n");
}

#[test]
fn jar_text_reads_back() {
    let jar = jar_of(&[("a.com", "id=1"), ("b.org", "k=v=w")]);
    let back = CookieJar::parse(&jar.to_text()).unwrap();
    assert_eq!(back.to_text(), jar.to_text());
    assert_eq!(back.get("b.org", "k"), Some("v=w".to_string()));
    assert_eq!(CookieJar::parse("\n\n").unwrap().cookies.len(), 0);
    assert!(matches!(CookieJar::parse("a.com\tonly-two\n"), Err(Error::CookieErr(CookieError::InvalidFormat))));
    assert_eq!(CookieJar::read_or_default(Some("garbage".to_string())).cookies.len(), 0);
    assert_eq!(CookieJar::read_or_default(None).cookies.len(), 0);
}

#[test]
fn jar_is_written_where_asked() {
    assert_eq!(cookie_jar_path("/p/.quartz/env/default", None), "/p/.quartz/env/default/cookies");
    assert_eq!(cookie_jar_path("/p/.quartz/env/default", Some("/tmp/jar".to_string())), "/tmp/jar");
}

#[test]
fn a_request_keeps_the_cookies_its_responses_set() {
    let mut q = Quartz::init("/tmp/cookies", "/tmp/cookies-config".to_string(), false).unwrap();
    let h = q.new_handle("api");
    let mut patch = EndpointPatch::default();
    patch.url = Some("https://api.example.com/login".to_string());
    h.apply_endpoint_patch(&mut q, patch).unwrap();
    q.switch_endpoint("api".to_string()).unwrap();
    let mut req = Request::from_quartz(&q, Some("old.com\ta\t1\n".to_string())).unwrap();
    assert_eq!(req.cookie_jar.get("old.com", "a"), Some("1".to_string()));
    req.store_cookie(ResponseHeader::Text("session=abc; Secure".to_string())).unwrap();
    req.store_cookie(ResponseHeader::Absent).unwrap();
    assert_eq!(req.cookie_jar.get("api.example.com", "session"), Some("abc".to_string()));
    assert!(matches!(
        req.store_cookie(ResponseHeader::NotText),
        Err(Error::RequestError(RequestError::ParseCookie))
    ));
    assert_eq!(req.cookie_jar.to_text(), "old.com\ta\t1\napi.example.com\tsession\tabc\n");
}

#[test]
fn show_cookies_by_key_and_domain() {
    let jar = jar_of(&[("a.com", "id=1"), ("b.org", "id=2"), ("a.com", "lang=en")]);
    let all = PrintArgs { key: None, domain: None };
    assert_eq!(print(&jar, &all).unwrap(), "id=1\nid=2\nlang=en\n");
    let a = PrintArgs { key: None, domain: Some("a.com".to_string()) };
    assert_eq!(print(&jar, &a).unwrap(), "id=1\nlang=en\n");
    let sub = PrintArgs { key: Some("id".to_string()), domain: Some("www.a.com".to_string()) };
    assert_eq!(print(&jar, &sub).unwrap(), "1\n");
    let both = PrintArgs { key: Some("id".to_string()), domain: None };
    assert_eq!(print(&jar, &both).unwrap(), "a.com: 1\nb.org: 2\n");
    match print(&jar, &PrintArgs { key: Some("none".to_string()), domain: None }) {
        Err(CliError::NoSuchCookie(k)) => assert_eq!(k, "none"),
        _ => panic!("a missing cookie was found"),
    }
}
