use quartz_core::action::confirm_answer;
use quartz_core::action::last::{cmd as last_cmd, req, res, res_body, LastCmd, LastResCmd};
use quartz_core::action::remove_keys_printed;
use quartz_core::action::CliError;
use quartz_core::color::{colored_method, method_color, Color, MethodStyle};
use quartz_core::endpoint::{Endpoint, EndpointPatch};
use quartz_core::env::Env;
use quartz_core::error::{EndpointError, Error};
use quartz_core::handle::EndpointHandle;
use quartz_core::headers::Headers;
use quartz_core::history::{Entry, Http};
use quartz_core::pairmap::PairMap;
use quartz_core::project::Quartz;
use quartz_core::resolve::ResolvedEndpoint;
use quartz_core::snippet::{Curl, CurlOption};

fn resolved(url: &str, method: &str, headers: &[(&str, &str)], body: Option<&str>) -> ResolvedEndpoint {
    let mut map = PairMap::new();
    for (k, v) in headers {
        map.insert(k.to_string(), v.to_string());
    }
    ResolvedEndpoint {
        url: url.to_string(),
        method: method.to_string(),
        headers: Headers(map),
        body: body.map(|b| b.to_string()),
    }
}

fn project(name: &str) -> Quartz {
    Quartz::init(&format!("/tmp/{}", name), format!("/tmp/{}-config", name), false).unwrap()
}

fn add_endpoint(quartz: &mut Quartz, handle: &str, url: &str, method: &str) {
    let h = quartz.new_handle(handle);
    let mut patch = EndpointPatch::default();
    patch.url = Some(url.to_string());
    patch.method = Some(method.to_string());
    h.apply_endpoint_patch(quartz, patch).unwrap();
}

#[test]
fn curl_short_options_on_one_line() {
    let curl = Curl { long: false, multiline: false };
    let e = resolved("https://x.io/get", "POST", &[("Accept", "json")], Some("data\n"));
    assert_eq!(curl.write(e), "curl -L 'https://x.io/get' -X POST -H 'Accept: json' -d 'data'\n");
    let bare = resolved("https://x.io", "GET", &[], None);
    assert_eq!(curl.write(bare), "curl -L 'https://x.io' -X GET\n");
}

#[test]
fn curl_long_options_on_several_lines() {
    let curl = Curl { long: true, multiline: true };
    let e = resolved("https://x.io/get", "POST", &[("Accept", "json"), ("X-Id", "7")], Some("data"));
    assert_eq!(
        curl.write(e),
        "curl --location 'https://x.io/get' --request POST \\\n\t--header 'Accept: json' \\\n\t--header 'X-Id: 7' \\\n\t--data 'data'\n"
    );
    assert_eq!(curl.option_string(CurlOption::Data), "--data");
    assert_eq!(Curl { long: false, multiline: true }.option_string(CurlOption::Header), "-H");
}

#[test]
fn http_text_of_a_request() {
    let e = resolved("https://x.io/get?q=1", "POST", &[("Accept", "json")], Some("data"));
    assert_eq!(Http::write(e).unwrap(), "POST /get?q=1 HTTP/1.1\nHost: x.io\nAccept: json\n\ndata");
    assert!(Http::writable("https://x.io/get"));
    let no_body = resolved("http://h.org/", "GET", &[], None);
    assert_eq!(Http::write(no_body).unwrap(), "GET / HTTP/1.1\nHost: h.org\n");
}

#[test]
fn http_text_of_a_url_that_is_no_uri() {
    assert!(Http::writable("not a uri"));
    assert!(Http::write(resolved("not a uri", "GET", &[], None)).is_none());
}

#[test]
fn method_colors() {
    assert_eq!(method_color("GET"), Color::Blue);
    assert_eq!(method_color("POST"), Color::Green);
    assert_eq!(method_color("PATCH"), Color::Yellow);
    assert_eq!(method_color("DELETE"), Color::Red);
    assert_eq!(method_color("HEAD"), Color::Cyan);
    assert_eq!(method_color("get"), Color::White);
    assert_eq!(colored_method("---"), MethodStyle::Dimmed);
    assert_eq!(colored_method("PUT"), MethodStyle::Colored(Color::Yellow));
    let mut e = Endpoint::default();
    e.method = "OPTIONS".to_string();
    assert_eq!(e.colored_method(), MethodStyle::Colored(Color::Cyan));
}

#[test]
fn confirm_answers() {
    assert!(confirm_answer('\n'));
    assert!(confirm_answer('y'));
    assert!(confirm_answer('Y'));
    assert!(!confirm_answer('n'));
    assert!(!confirm_answer(' '));
}

#[test]
fn removing_keys_prints_what_was_there() {
    let mut m = PairMap::new();
    m.insert("a".to_string(), "1".to_string());
    m.insert("b".to_string(), "2".to_string());
    let p = remove_keys_printed(&mut m, &vec!["a".to_string(), "z".to_string(), "a".to_string()], "header");
    assert_eq!(p.out, "Removed header: a\n");
    assert_eq!(p.err, "z: No such header\na: No such header\n");
    assert_eq!(m.entries().clone(), vec![("b".to_string(), "2".to_string())]);
}

#[test]
fn last_request_and_response_are_cleaned() {
    let e = Entry::from_parts(
        3,
        "api".to_string(),
        vec![
            "> GET / HTTP/1.1\n> Host: a\n>".to_string(),
            "< HTTP/1.1 200 OK\n< a: b\n<".to_string(),
            "body".to_string(),
        ],
    );
    assert_eq!(req(&e), "GET / HTTP/1.1\nHost: a\n\n");
    assert_eq!(res(Some(LastResCmd::Head), &e), "HTTP/1.1 200 OK\na: b\n\n");
    assert_eq!(res_body(&e), "body\n");
    assert_eq!(res(None, &e), "HTTP/1.1 200 OK\na: b\n\nbody\n");
}

#[test]
fn last_on_a_project_history() {
    let mut q = project("last");
    assert!(matches!(last_cmd(&q, None), Err(CliError::NoHistoryEntry)));
    add_endpoint(&mut q, "api", "https://a.com", "GET");
    q.switch_endpoint("api".to_string()).unwrap();
    q.record_response(Some("first".to_string()), 10).unwrap();
    q.record_response(Some("second".to_string()), 11).unwrap();
    assert_eq!(last_cmd(&q, None).unwrap(), "api\nsecond\n");
    assert_eq!(last_cmd(&q, Some(LastCmd::Handle)).unwrap(), "api\n");
    assert_eq!(last_cmd(&q, Some(LastCmd::Res(Some(LastResCmd::Body)))).unwrap(), "second\n");
}

#[test]
fn resolving_keeps_the_last_variable_for_method_and_headers() {
    let mut q = project("resolve-last");
    add_endpoint(&mut q, "api", "{{HOST}}/x", "{{VERB}}");
    let h = q.new_handle("api");
    let mut ep = h.endpoint(&q).unwrap();
    let mut env = Env::default();
    env.var_set("HOST".to_string(), "https://h.io".to_string()).unwrap();
    env.var_set("VERB".to_string(), "PUT".to_string()).unwrap();
    let r = ep.as_resolved(&h, &q, &env).unwrap();
    assert_eq!(r.url, "https://h.io/x");
    assert_eq!(r.method, "PUT");
    assert!(r.body.is_none());
    let empty = Env::default();
    let r = ep.as_resolved(&h, &q, &empty).unwrap();
    assert_eq!(r.url, "{{HOST}}/x");
    assert_eq!(r.method, "");
    assert_eq!(r.headers.0.len(), 0);
}

#[test]
fn inheriting_at_the_root_and_from_a_missing_parent() {
    let mut q = project("inherit");
    let root = EndpointHandle::root();
    let mut patch = EndpointPatch::default();
    patch.url = Some("**/x".to_string());
    root.apply_endpoint_patch(&mut q, patch).unwrap();
    let ep = root.endpoint(&q).unwrap();
    assert_eq!(ep.resolved_url(&root, &q, &Env::default()).unwrap(), "**/x");
    add_endpoint(&mut q, "top", "**/y", "GET");
    let h = q.new_handle("top");
    let ep = h.endpoint(&q).unwrap();
    assert_eq!(ep.resolved_url(&h, &q, &Env::default()).unwrap(), "**/x/y");
    add_endpoint(&mut q, "lone/child", "**/y", "GET");
    let c = q.new_handle("lone/child");
    let ep = c.endpoint(&q).unwrap();
    assert!(matches!(
        ep.resolved_url(&c, &q, &Env::default()),
        Err(Error::EndpointError(EndpointError::ReadHandleSpec))
    ));
}

#[test]
fn recursive_copy_puts_children_under_the_first_component_of_the_destination() {
    let mut q = project("copy-prefix");
    add_endpoint(&mut q, "a", "https://a.com", "GET");
    add_endpoint(&mut q, "a/c", "https://a.com/c", "GET");
    q.copy_endpoint(true, "a", "b/x").unwrap();
    assert!(q.new_handle("b/x").is_present(&q));
    assert!(q.new_handle("b/c").is_present(&q));
    assert!(!q.new_handle("b/x/c").is_present(&q));
    assert_eq!(q.new_handle("b/c").endpoint(&q).unwrap().url, "https://a.com/c");
}

#[test]
fn deleting_a_missing_handle_or_a_parent_without_recursion_fails() {
    let mut q = project("delete-errors");
    add_endpoint(&mut q, "p", "https://p.com", "GET");
    add_endpoint(&mut q, "p/k", "https://p.com/k", "GET");
    assert!(matches!(
        q.new_handle("p").delete(&mut q, false),
        Err(Error::EndpointError(EndpointError::RemoveChildrenOnNonRecursiveMode))
    ));
    q.new_handle("p/k").delete(&mut q, false).unwrap();
    assert!(!q.new_handle("p/k").is_present(&q));
    assert!(q.new_handle("p").is_present(&q));
}

#[test]
fn body_written_is_read_back_and_keeps_the_endpoint() {
    let mut q = project("body-rt");
    add_endpoint(&mut q, "api", "https://a.com", "POST");
    let h = q.new_handle("api");
    assert!(h.body(&q).is_none());
    h.set_body(&mut q, "{\"a\": 1}").unwrap();
    assert_eq!(h.body(&q), Some("{\"a\": 1}".to_string()));
    assert_eq!(h.endpoint(&q).unwrap().url, "https://a.com");
    let fresh = q.new_handle("fresh/one");
    fresh.set_body(&mut q, "x").unwrap();
    assert_eq!(fresh.body(&q), Some("x".to_string()));
    assert!(fresh.endpoint(&q).is_err());
}
