use quartz_core::endpoint::{ContentTypeGroup, Endpoint, EndpointPatch, Query};
use quartz_core::env::{Env, Variables};
use quartz_core::error::{EndpointError, Error};
use quartz_core::handle::{EndpointHandle, EndpointHandlePath};
use quartz_core::headers::Headers;
use quartz_core::pairmap::PairMap;

fn pairs(map: &PairMap) -> Vec<(String, String)> {
    map.entries().clone()
}

#[test]
fn pairmap_insert_then_get_and_overwrite_in_place() {
    let mut m = PairMap::new();
    assert_eq!(m.insert("a".into(), "1".into()), None);
    assert_eq!(m.insert("b".into(), "2".into()), None);
    assert_eq!(m.insert("a".into(), "3".into()), Some("1".to_string()));
    assert_eq!(m.get("a"), Some(&"3".to_string()));
    assert_eq!(m.get("b"), Some(&"2".to_string()));
    assert_eq!(pairs(&m), vec![("a".to_string(), "3".to_string()), ("b".to_string(), "2".to_string())]);
    assert_eq!(m.len(), 2);
}

#[test]
fn pairmap_remove_then_get() {
    let mut m = PairMap::new();
    m.insert("a".into(), "1".into());
    m.insert("b".into(), "2".into());
    assert_eq!(m.remove("a"), Some("1".to_string()));
    assert_eq!(m.get("a"), None);
    assert_eq!(m.get("b"), Some(&"2".to_string()));
    assert_eq!(m.remove("a"), None);
    assert!(!m.contains_key("a"));
}

#[test]
fn variables_parse_skips_empty_lines_and_splits_at_first_equal() {
    let v = Variables::parse("a=1\n\nb=x=y\n").unwrap();
    assert_eq!(pairs(&v.0), vec![("a".to_string(), "1".to_string()), ("b".to_string(), "x=y".to_string())]);
    assert_eq!(v.to_string(), "a=1\nb=x=y\n");
}

#[test]
fn variables_parse_refuses_a_line_without_equal() {
    assert!(matches!(Variables::parse("a=1\nnope\n"), Err(Error::KeymapSet)));
}

#[test]
fn headers_parse_strips_carriage_returns() {
    let h = Headers::parse("Accept: text/html\r\nX-A: b: c\r\n\r\n").unwrap();
    assert_eq!(
        pairs(&h.0),
        vec![("Accept".to_string(), "text/html".to_string()), ("X-A".to_string(), "b: c".to_string())]
    );
    assert_eq!(h.to_string(), "Accept: text/html\nX-A: b: c\n");
    assert!(matches!(Headers::parse("Accept:text\n"), Err(Error::KeymapSet)));
    assert_eq!(Headers::pair("a: b"), Some(("a".to_string(), "b".to_string())));
    assert_eq!(Headers::pair("ab"), None);
}

#[test]
fn env_variables_and_headers() {
    let mut env = Env::default();
    env.var_set("a".into(), "1".into()).unwrap();
    env.var_set("b".into(), "2".into()).unwrap();
    assert_eq!(env.var_get("a"), Some("1".to_string()));
    assert_eq!(env.var_get("z"), None);
    env.header_set("X".into(), "y".into()).unwrap();
    assert_eq!(env.header_get("X").unwrap(), "y");
    assert!(matches!(env.header_get("nope"), Err(Error::HeaderNotFound)));
    env.header_rm("X").unwrap();
    assert!(env.header_get("X").is_err());
    assert_eq!(pairs(&env.vars().0).len(), 2);
}

#[test]
fn env_var_rm_stops_at_missing_key_keeping_earlier_removals() {
    let mut env = Env::default();
    env.var_set("a".into(), "1".into()).unwrap();
    env.var_set("b".into(), "2".into()).unwrap();
    let r = env.var_rm(vec!["a".to_string(), "zz".to_string(), "b".to_string()]);
    assert!(matches!(r, Err(Error::RemoveHeader)));
    assert_eq!(env.var_get("a"), None);
    assert_eq!(env.var_get("b"), Some("2".to_string()));
}

#[test]
fn query_string_keeps_the_order_of_the_parameters() {
    let mut e = Endpoint::new();
    e.query.set("v=9000").unwrap();
    e.query.set("fields=lorem,ipsum").unwrap();
    assert_eq!(e.query_string(), "v=9000&fields=lorem,ipsum");
    assert_eq!(Endpoint::new().query_string(), "");
    assert!(matches!(e.query.set("nothing"), Err(Error::KeymapSet)));
    assert_eq!(e.query.to_string(), "v=9000\nfields=lorem,ipsum\n");
}

#[test]
fn full_url_appends_the_query_string() {
    let mut e = Endpoint::new();
    e.url = "https://example.com/x?y=1".to_string();
    e.query.set("z=2").unwrap();
    assert_eq!(e.full_url().unwrap().0.to_string(), "https://example.com/x?y=1&z=2");
    let mut f = Endpoint::new();
    f.url = "https://example.com/x".to_string();
    f.query.set("a=b").unwrap();
    assert_eq!(f.full_url().unwrap().0.to_string(), "https://example.com/x?a=b");
    let (_, parts) = f.full_url().unwrap();
    assert_eq!(parts.scheme, Some("https".to_string()));
    assert_eq!(parts.host, Some("example.com".to_string()));
    assert_eq!(parts.path_and_query, Some("/x?a=b".to_string()));
    let mut g = Endpoint::new();
    g.url = "exa mple".to_string();
    assert!(matches!(g.full_url(), Err(Error::EndpointError(EndpointError::SerializeUri))));
}

#[test]
fn name_to_dir_trims_and_replaces_slashes() {
    assert_eq!(Endpoint::name_to_dir("  users/list\\all \n"), "users-list-all");
    assert_eq!(Endpoint::key_match_str("id"), "{{id}}");
}

#[test]
fn update_swaps_method_and_url_and_sets_pairs() {
    let mut e = Endpoint::new();
    let mut patch = EndpointPatch::default();
    patch.url = Some("https://a.com".to_string());
    patch.method = Some("POST".to_string());
    patch.query = vec!["a=1".to_string()];
    patch.headers = vec!["X: y".to_string()];
    patch.data = Some(ContentTypeGroup { json: Some(None), raw: None });
    assert!(patch.has_changes());
    e.update(&mut patch).unwrap();
    assert_eq!(e.url, "https://a.com");
    assert_eq!(e.method, "POST");
    assert_eq!(patch.method, Some("GET".to_string()));
    assert_eq!(patch.url, Some(String::new()));
    assert_eq!(e.query.0.get("a"), Some(&"1".to_string()));
    assert_eq!(e.headers.0.get("X"), Some(&"y".to_string()));
    assert_eq!(e.headers.0.get("Content-type"), Some(&"application/json".to_string()));
}

#[test]
fn update_fails_on_a_header_without_separator() {
    let mut e = Endpoint::new();
    let mut patch = EndpointPatch::default();
    patch.headers = vec!["X=y".to_string()];
    assert!(matches!(e.update(&mut patch), Err(Error::KeymapSet)));
    assert!(!EndpointPatch::default().has_changes());
    let mut p2 = EndpointPatch::default();
    p2.query = vec!["a=1".to_string()];
    let made = Endpoint::from_patch(&mut p2).unwrap();
    assert_eq!(made.method, "GET");
    assert_eq!(made.query.0.get("a"), Some(&"1".to_string()));
}

#[test]
fn handle_paths_and_names() {
    let h = EndpointHandle::named("/a//b/");
    assert_eq!(h.path.0, vec!["a".to_string(), String::new(), "b".to_string()]);
    assert_eq!(h.handle(), "a//b");
    assert_eq!(h.head(), "b");
    assert_eq!(h.depth(), 3);
    assert_eq!(h.dir_key(), vec!["a".to_string(), "b".to_string()]);
    assert!(matches!(
        EndpointHandle::root().parent(),
        Err(Error::EndpointError(EndpointError::NoHandleParentDir))
    ));
    assert_eq!(EndpointHandle::root().head(), "");
    let mut r = EndpointHandle::named("users/list");
    r.replace("users", "people");
    assert_eq!(r.handle(), "people/list");
    assert_eq!(EndpointHandlePath::parse("x").0, vec!["x".to_string()]);
    let q = Query::default();
    assert_eq!(q.to_string(), "");
}
