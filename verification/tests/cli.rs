use quartz_core::action::handle::{create, use_handle, CreateArgs, MvArgs, SwitchArgs};
use quartz_core::action::header::{get as header_get, ls as header_ls, rm as header_rm, set as header_set};
use quartz_core::action::ls::{cmd as ls, Args as LsArgs};
use quartz_core::action::show::url as show_url;
use quartz_core::endpoint::EndpointPatch;
use quartz_core::project::{Quartz, State};

fn no_override() -> State {
    State { handle: None, previous_handle: None }
}

fn with_handle(h: &str) -> State {
    State { handle: Some(h.to_string()), previous_handle: None }
}

fn patch_with_url(url: &str) -> EndpointPatch {
    let mut patch = EndpointPatch::default();
    patch.url = Some(url.to_string());
    patch
}

/// A project with one endpoint, `sample`, in use.
fn preset_using_sample_endpoint() -> Quartz {
    let mut quartz = Quartz::init("/tmp/sample", "/tmp/sample-config".to_string(), false).unwrap();
    let mut patch = patch_with_url("https://httpbin.org/get");
    patch.method = Some("GET".to_string());
    create(&mut quartz, CreateArgs { handle: "sample".to_string(), patch, switch: true }).unwrap();
    quartz
}

/// A project with the httpbin endpoints.
fn preset_httpbin() -> Quartz {
    let mut quartz = Quartz::init("/tmp/httpbin", "/tmp/httpbin-config".to_string(), false).unwrap();
    let handles = [
        ("httpbin", "{{BASE_URL}}"),
        ("httpbin/get", "{{BASE_URL}}/get"),
        ("httpbin/post", "{{BASE_URL}}/post"),
        ("httpbin/redirect", "{{BASE_URL}}/redirect/1"),
        ("httpbin/redirect/absolute", "{{BASE_URL}}/absolute-redirect/1"),
        ("httpbin/redirect/relative", "{{BASE_URL}}/relative-redirect/1"),
    ];
    for (handle, url) in handles {
        create(&mut quartz, CreateArgs { handle: handle.to_string(), patch: patch_with_url(url), switch: false })
            .unwrap();
    }
    quartz
}

fn ls_stdout(quartz: &Quartz) -> String {
    let lines = ls(quartz, &no_override(), LsArgs { handle: None, depth: None }).unwrap();
    lines.iter().map(|l| l.text.clone()).collect::<Vec<String>>().join("\n")
}

#[test]
fn it_adds_new_header() {
    let mut quartz = preset_using_sample_endpoint();
    let state = no_override();

    let set_output = header_set(&mut quartz, &state, "Content-type".to_string(), "application/json".to_string());
    let output = header_get(&quartz, &state, "Content-type");

    assert!(set_output.is_ok(), "{:?}", set_output);
    assert_eq!(output.trim(), "application/json");
}

#[test]
fn it_overwrites_existing_headers() {
    let mut quartz = preset_using_sample_endpoint();
    let state = no_override();

    header_set(&mut quartz, &state, "Content-type".to_string(), "application/json".to_string()).unwrap();
    header_set(&mut quartz, &state, "Accept".to_string(), "application/json".to_string()).unwrap();

    let edit_output = header_set(&mut quartz, &state, "Content-type".to_string(), "plain/text".to_string());
    let output = header_ls(&quartz, &state);

    assert!(edit_output.is_ok(), "{:?}", edit_output);

    assert!(!output.contains("Content-type: application/json"), "old value found");
    assert!(output.contains("Content-type: plain/text"), "new value was not saved");
}

#[test]
fn it_removes_header_by_key() {
    let mut quartz = preset_using_sample_endpoint();
    let state = no_override();

    header_set(&mut quartz, &state, "Content-type".to_string(), "application/json".to_string()).unwrap();

    header_set(&mut quartz, &state, "Accept".to_string(), "form".to_string()).unwrap();

    let remove_output = header_rm(&mut quartz, &state, vec!["Content-type".to_string()]);
    assert!(remove_output.is_ok(), "{:?}", remove_output.err());

    let list_output = header_ls(&quartz, &state);
    assert!(!list_output.contains("Content-type"), "did not remove specified header");
    assert!(list_output.contains("Accept"), "removed specified header, but unrelated header is missing");
}

#[test]
fn mv() {
    let mut quartz = preset_httpbin();

    let output = quartz_core::action::handle::mv(&mut quartz, &MvArgs { handles: vec!["httpbin/get".to_string(), "httpbin/getter".to_string()] });
    assert!(output.is_ok(), "{:?}", output);

    let _output = use_handle(
        &mut quartz,
        &no_override(),
        SwitchArgs { handle: Some("httpbin/get".to_string()), patch: EndpointPatch::default(), empty: false },
    );

    let output = show_url(&quartz, &with_handle("httpbin/getter")).unwrap();
    assert_eq!(output.trim(), "{{BASE_URL}}/get");
}

#[test]
fn mv_overwrite_empty() {
    let mut quartz = preset_httpbin();

    let output = quartz_core::action::handle::mv(&mut quartz, &MvArgs { handles: vec!["httpbin/get".to_string(), "httpbin".to_string()] });
    assert!(output.is_ok(), "{:?}", output);

    let _output = use_handle(
        &mut quartz,
        &no_override(),
        SwitchArgs { handle: Some("httpbin/get".to_string()), patch: EndpointPatch::default(), empty: false },
    );

    let output = show_url(&quartz, &with_handle("httpbin")).unwrap();
    assert_eq!(output.trim(), "{{BASE_URL}}/get");
}

#[test]
fn mv_overwrite() {
    let mut quartz = preset_httpbin();

    let output = quartz_core::action::handle::mv(&mut quartz, &MvArgs { handles: vec!["httpbin/get".to_string(), "httpbin".to_string()] });
    assert!(output.is_ok(), "{:?}", output);

    let _output = use_handle(
        &mut quartz,
        &no_override(),
        SwitchArgs { handle: Some("httpbin/get".to_string()), patch: EndpointPatch::default(), empty: false },
    );

    let output = show_url(&quartz, &with_handle("httpbin")).unwrap();
    assert_eq!(output.trim(), "{{BASE_URL}}/get");
}

#[test]
fn mv_multiple() {
    let mut quartz = preset_httpbin();

    let output = quartz_core::action::handle::mv(&mut quartz, &MvArgs { handles: vec![
            "httpbin/redirect/absolute".to_string(),
            "httpbin/redirect/relative".to_string(),
            "httpbin".to_string(),
        ] },
    );
    assert!(output.is_ok(), "{:?}", output);

    let stdout = ls_stdout(&quartz);
    assert!(stdout.contains("httpbin/absolute"), "{}", stdout);
    assert!(stdout.contains("httpbin/relative"), "{}", stdout);
}

#[test]
fn mv_into_missing_source_fails() {
    let mut quartz = preset_httpbin();
    let output = quartz_core::action::handle::mv(&mut quartz, &MvArgs { handles: vec!["nothing".to_string(), "httpbin/other".to_string()] });
    assert!(output.is_err());
    assert!(!ls_stdout(&quartz).contains("httpbin/other"));
}

#[test]
fn ls_marks_handle_in_use_and_pads_children() {
    let mut quartz = preset_httpbin();
    quartz.switch_endpoint("httpbin/get".to_string()).unwrap();
    let lines = ls(&quartz, &no_override(), LsArgs { handle: None, depth: None }).unwrap();
    let texts: Vec<&str> = lines.iter().map(|l| l.text.as_str()).collect();
    assert_eq!(texts[0], "httpbin");
    assert!(texts.contains(&"  httpbin/get"));
    assert!(texts.contains(&"    httpbin/redirect/absolute"));
    let in_use: Vec<&str> = lines.iter().filter(|l| l.in_use).map(|l| l.text.trim()).collect();
    assert_eq!(in_use, vec!["httpbin/get"]);
}

#[test]
fn show_url_without_handle_fails() {
    let quartz = Quartz::init("/tmp/empty", "/tmp/empty-config".to_string(), false).unwrap();
    assert!(show_url(&quartz, &no_override()).is_err());
}

#[test]
fn ls_stops_below_the_depth_given() {
    let quartz = preset_httpbin();
    let texts = |depth: Option<usize>, handle: Option<&str>| -> Vec<String> {
        ls(&quartz, &no_override(), LsArgs { handle: handle.map(|h| h.to_string()), depth })
            .unwrap()
            .iter()
            .map(|l| l.text.clone())
            .collect()
    };
    assert_eq!(texts(Some(1), None), vec!["httpbin"]);
    assert_eq!(texts(Some(0), None), Vec::<String>::new());
    assert_eq!(
        texts(Some(2), None),
        vec!["httpbin", "  httpbin/get", "  httpbin/post", "  httpbin/redirect"]
    );
    assert_eq!(texts(Some(3), None).len(), 6);
    assert_eq!(texts(None, None).len(), 6);
    assert_eq!(texts(Some(0), Some("httpbin/redirect")), vec!["httpbin/redirect"]);
    assert_eq!(texts(Some(9), Some("httpbin/redirect")).len(), 3);
}

#[test]
fn create_with_use_puts_the_handle_in_use_and_use_switches() {
    let mut quartz = preset_httpbin();
    let mut patch = patch_with_url("https://example.com");
    patch.method = Some("POST".to_string());
    create(&mut quartz, CreateArgs { handle: "fresh/one".to_string(), patch, switch: true }).unwrap();
    let name = quartz_core::project::StateField::Endpoint;
    assert_eq!(quartz.state_get(name).unwrap(), "fresh/one");
    use_handle(
        &mut quartz,
        &no_override(),
        SwitchArgs { handle: Some("httpbin/get".to_string()), patch: EndpointPatch::default(), empty: false },
    )
    .unwrap();
    assert_eq!(quartz.state_get(name).unwrap(), "httpbin/get");
    assert_eq!(quartz.state_get(quartz_core::project::StateField::PreviousEndpoint).unwrap(), "fresh/one");
    assert!(use_handle(
        &mut quartz,
        &no_override(),
        SwitchArgs { handle: Some("nowhere".to_string()), patch: EndpointPatch::default(), empty: false },
    )
    .is_err());
    assert_eq!(quartz.state_get(name).unwrap(), "httpbin/get");
}
