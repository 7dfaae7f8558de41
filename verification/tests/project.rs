use quartz_core::endpoint::EndpointPatch;
use quartz_core::env::Env;
use quartz_core::error::{ConfigError, EndpointError, EnvError, Error, HistoryError, RequestError, StateError};
use quartz_core::history::{Entry, History, HistoryFile, Http};
use quartz_core::project::{Quartz, State, StateField};
use quartz_core::request::{after_response, received_cookie, Next, Request, ResponseHeader};
use quartz_core::config::ProcessEnv;

fn project(name: &str) -> Quartz {
    Quartz::init(&format!("/tmp/{}", name), format!("/tmp/{}-config", name), false).unwrap()
}

fn with_endpoint(quartz: &mut Quartz, handle: &str, url: &str, method: &str) {
    let h = quartz.new_handle(handle);
    let mut patch = EndpointPatch::default();
    patch.url = Some(url.to_string());
    patch.method = Some(method.to_string());
    h.apply_endpoint_patch(quartz, patch).unwrap();
}

fn entry(timestamp: i64, handle: &str, messages: &[&str]) -> Entry {
    Entry::from_parts(timestamp, handle.to_string(), messages.iter().map(|m| m.to_string()).collect())
}

fn no_env() -> ProcessEnv {
    ProcessEnv { editor: None, pager: None, no_color: false, clicolor_force: None, clicolor: None }
}

#[test]
fn init_places_the_project_in_dot_quartz_and_refuses_a_second_init() {
    let q = project("init");
    assert_eq!(q.path().as_str(), "/tmp/init/.quartz");
    assert_eq!(q.envs().unwrap(), vec!["default".to_string()]);
    assert!(matches!(
        Quartz::init("/tmp/init", "/tmp/init-config".to_string(), true),
        Err(Error::AlreadyInitialized)
    ));
}

#[test]
fn state_set_then_get_and_missing_state() {
    let mut q = project("state");
    assert!(matches!(q.state_get(StateField::Endpoint), Err(Error::StateError(StateError::GetState))));
    q.state_set(StateField::Endpoint, "a/b").unwrap();
    assert_eq!(q.state_get(StateField::Endpoint).unwrap(), "a/b");
    assert!(q.state_get(StateField::Env).is_err());
    assert_eq!(
        StateField::Endpoint.file_path(&q),
        "/tmp/state/.quartz/user/state/endpoint".to_string()
    );
    assert_eq!(StateField::PreviousEndpoint.file_name(), "prev-endpoint");
}

#[test]
fn state_override_wins_for_the_endpoint_only() {
    let mut q = project("override");
    q.state_set(StateField::Endpoint, "stored").unwrap();
    q.state_set(StateField::Env, "prod").unwrap();
    let s = State { handle: Some("chosen".to_string()), previous_handle: None };
    assert_eq!(s.get(&q, StateField::Endpoint).unwrap(), "chosen");
    assert_eq!(s.get(&q, StateField::Env).unwrap(), "prod");
}

#[test]
fn switch_endpoint_and_back_with_dash() {
    let mut q = project("switch");
    with_endpoint(&mut q, "first", "https://a.com", "GET");
    with_endpoint(&mut q, "second", "https://b.com", "GET");
    assert!(matches!(q.switch_endpoint("-".to_string()), Err(Error::StateError(StateError::GetState))));
    q.switch_endpoint("first".to_string()).unwrap();
    q.switch_endpoint("second".to_string()).unwrap();
    assert_eq!(q.state_get(StateField::PreviousEndpoint).unwrap(), "first");
    let back = q.switch_endpoint("-".to_string()).unwrap();
    assert_eq!(back.handle(), "first");
    assert_eq!(q.state_get(StateField::Endpoint).unwrap(), "first");
    assert_eq!(q.state_get(StateField::PreviousEndpoint).unwrap(), "second");
}

#[test]
fn switch_to_a_missing_handle_names_its_head() {
    let mut q = project("switch-missing");
    match q.switch_endpoint("nope/deeper".to_string()) {
        Err(Error::EndpointError(EndpointError::HandleNotFound(h))) => assert_eq!(h, "deeper"),
        other => panic!("unexpected {:?}", other.map(|h| h.handle())),
    }
}

#[test]
fn env_save_then_read_round_trip() {
    let mut q = project("env-rt");
    let mut env = Env::default();
    env.var_set("BASE".to_string(), "https://x.io".to_string()).unwrap();
    env.header_set("Accept".to_string(), "json".to_string()).unwrap();
    let r = q.create_env("prod".to_string()).unwrap();
    r.save(&mut q, &env).unwrap();
    let back = r.read(&q).unwrap();
    assert_eq!(back.var_get("BASE"), Some("https://x.io".to_string()));
    assert_eq!(back.header_get("Accept").unwrap(), "json");
    assert_eq!(r.dir(&q), "/tmp/env-rt/.quartz/env/prod");
}

#[test]
fn env_switch_copy_and_remove() {
    let mut q = project("env-ops");
    assert!(matches!(q.switch_env("prod".to_string()), Err(Error::EnvError(EnvError::NotFound))));
    q.create_env("prod".to_string()).unwrap();
    q.switch_env("prod".to_string()).unwrap();
    assert_eq!(q.current_env().unwrap().name, "prod");
    match q.remove_env("prod".to_string()) {
        Err(Error::EnvError(EnvError::EnvInUse(n))) => assert_eq!(n, "prod"),
        _ => panic!("the environment in use was removed"),
    }
    let mut env = Env::default();
    env.var_set("K".to_string(), "v".to_string()).unwrap();
    q.get_env("prod".to_string()).unwrap().save(&mut q, &env).unwrap();
    q.copy_env("prod".to_string(), "staging".to_string()).unwrap();
    let copied = q.get_env("staging".to_string()).unwrap().read(&q).unwrap();
    assert_eq!(copied.var_get("K"), Some("v".to_string()));
    q.remove_env("default".to_string()).unwrap();
    assert!(q.get_env("default".to_string()).is_none());
    assert!(matches!(q.remove_env("default".to_string()), Err(Error::EnvError(EnvError::NotFound))));
    assert_eq!(q.envs().unwrap(), vec!["prod".to_string(), "staging".to_string()]);
}

#[test]
fn entry_builder_errors_and_success() {
    let b = Entry::builder();
    assert!(matches!(b.build(), Err(Error::HistoryError(HistoryError::GetEntryBuilderHandle))));
    let mut b = Entry::builder();
    b.handle("h".to_string());
    assert!(matches!(b.build(), Err(Error::HistoryError(HistoryError::Empty))));
    let mut b = Entry::builder();
    b.handle("h".to_string()).timestemp(7);
    assert!(matches!(b.build(), Err(Error::HistoryError(HistoryError::Empty))));
    let mut b = Entry::builder();
    b.handle("h".to_string()).timestemp(7).message_raw("m".to_string());
    let e = b.build().unwrap();
    assert_eq!(e.timestamp(), 7);
    assert_eq!(e.handle(), "h");
    assert_eq!(e.to_string(), "h\nm");
}

#[test]
fn history_write_then_last_entry_gives_the_latest() {
    let mut h = History::with_files("/tmp/hist".to_string(), Vec::new());
    assert!(h.last_entry().unwrap().is_none());
    h.write(entry(20, "b", &["two"])).unwrap();
    h.write(entry(10, "a", &["one"])).unwrap();
    h.write(entry(300, "c", &["three"])).unwrap();
    let last = h.last_entry().unwrap().unwrap();
    assert_eq!(last.handle(), "c");
    let handles: Vec<String> = h.entries().unwrap().iter().map(|e| e.handle().to_string()).collect();
    assert_eq!(handles, vec!["c", "b", "a"]);
    let names: Vec<String> = h.files().iter().map(|f| f.name.clone()).collect();
    assert_eq!(names, vec!["20", "10", "300"]);
    assert_eq!(h.dir(), "/tmp/hist/user/history");
}

#[test]
fn history_write_replaces_the_file_of_the_same_timestamp() {
    let mut h = History::with_files("/tmp/hist2".to_string(), Vec::new());
    h.write(entry(-5, "old", &["x"])).unwrap();
    h.write(entry(-5, "new", &["y"])).unwrap();
    assert_eq!(h.files().len(), 1);
    assert_eq!(h.files()[0].name, "-5");
    assert_eq!(h.last_entry().unwrap().unwrap().handle(), "new");
}

#[test]
fn history_with_a_file_that_is_no_timestamp_cannot_be_read() {
    let files = vec![
        HistoryFile { name: "12".to_string(), entry: Some(entry(12, "a", &["m"])) },
        HistoryFile { name: "notes".to_string(), entry: None },
    ];
    let h = History::new("/tmp/hist3".to_string(), files).unwrap();
    assert!(matches!(h.entries(), Err(Error::HistoryError(HistoryError::ReadEntries))));
    assert!(matches!(h.last_entry(), Err(Error::HistoryError(HistoryError::ReadEntries))));
}

#[test]
fn history_skips_files_that_cannot_be_read() {
    let files = vec![
        HistoryFile { name: "12".to_string(), entry: Some(entry(12, "a", &["m"])) },
        HistoryFile { name: "40".to_string(), entry: None },
    ];
    let h = History::new("/tmp/hist4".to_string(), files).unwrap();
    let es = h.entries().unwrap();
    assert_eq!(es.len(), 1);
    assert_eq!(es[0].handle(), "a");
}

#[test]
fn http_messages_as_text() {
    let headers = vec![("a".to_string(), "1".to_string()), ("b".to_string(), "2".to_string())];
    let res = Http::of_response("HTTP/1.1", "200 OK", &headers);
    assert_eq!(res.0, "< HTTP/1.1 200 OK\n< a: 1\n< b: 2\n<");
    let req = Http::of_request("GET", "/get", "HTTP/1.1", "x.io", &Vec::new());
    assert_eq!(req.0, "> GET /get HTTP/1.1\n> Host: x.io\n>");
}

#[test]
fn record_response_writes_the_body_then_the_response() {
    let mut q = project("record");
    assert!(matches!(
        q.record_response(Some("r".to_string()), 5),
        Err(Error::EndpointError(EndpointError::NoHandleInUse))
    ));
    with_endpoint(&mut q, "api/get", "https://a.com", "GET");
    q.switch_endpoint("api/get".to_string()).unwrap();
    assert!(matches!(q.record_response(None, 5), Err(Error::HistoryError(HistoryError::Serialize))));
    assert!(matches!(q.record_response(Some("r".to_string()), 0), Err(Error::HistoryError(HistoryError::Empty))));
    q.new_handle("api/get").set_body(&mut q, "payload").unwrap();
    q.record_response(Some("response".to_string()), 42).unwrap();
    let last = q.history().last_entry().unwrap().unwrap();
    assert_eq!(last.timestamp(), 42);
    assert_eq!(last.handle(), "api/get");
    assert_eq!(last.messages().clone(), vec!["payload".to_string(), "response".to_string()]);
}

#[test]
fn after_response_stops_without_redirection() {
    assert!(matches!(after_response("https://a.com", true, true, ResponseHeader::Absent), Ok(Next::Done)));
    assert!(matches!(after_response("https://a.com", false, false, ResponseHeader::Absent), Ok(Next::Done)));
}

#[test]
fn after_response_follows_locations() {
    match after_response("https://a.com/x?q=1", false, true, ResponseHeader::Text("/next".to_string())) {
        Ok(Next::Resend(u)) => assert_eq!(u, "https://a.com/next"),
        _ => panic!("a path location is put on the URL"),
    }
    match after_response("https://a.com", false, true, ResponseHeader::Text("http://b.org/p".to_string())) {
        Ok(Next::Resend(u)) => assert_eq!(u, "http://b.org/p"),
        _ => panic!("an absolute location is followed"),
    }
    match after_response("https://a.com", false, true, ResponseHeader::Absent) {
        Ok(Next::Resend(u)) => assert_eq!(u, "https://a.com"),
        _ => panic!("no location keeps the URL"),
    }
    assert!(matches!(
        after_response("https://a.com", false, true, ResponseHeader::NotText),
        Err(Error::RequestError(RequestError::ParseLocationHeader))
    ));
    assert!(matches!(
        after_response("/only/a/path", false, true, ResponseHeader::Text("/next".to_string())),
        Err(Error::RequestError(RequestError::NoAuthorityInURI))
    ));
}

#[test]
fn request_from_quartz_errors_and_success() {
    let mut q = project("request");
    assert!(matches!(Request::from_quartz(&q, None), Err(Error::EndpointError(EndpointError::NoHandleInUse))));
    q.state_set(StateField::Endpoint, "missing").unwrap();
    assert!(matches!(Request::from_quartz(&q, None), Err(Error::EndpointError(EndpointError::ReadHandleSpec))));
    with_endpoint(&mut q, "api", "{{BASE}}/get", "GET");
    q.switch_endpoint("api".to_string()).unwrap();
    let mut env = Env::default();
    env.var_set("BASE".to_string(), "https://x.io".to_string()).unwrap();
    q.current_env().unwrap().save(&mut q, &env).unwrap();
    let req = Request::from_quartz(&q, None).unwrap();
    assert_eq!(req.endpoint.url, "https://x.io/get");
    assert_eq!(req.endpoint.method, "GET");
    assert_eq!(req.endpoint.headers.0.len(), 0);
    assert!(req.endpoint.body.is_none());
}

#[test]
fn config_get_set_and_invalid_keys() {
    let mut q = project("config");
    assert_eq!(q.config().get("preferences.editor", &no_env()).unwrap(), "vim");
    assert_eq!(q.config().get("preferences.pager", &no_env()).unwrap(), "less");
    let mut env = no_env();
    env.editor = Some("nano".to_string());
    assert_eq!(q.config().get("preferences.editor", &env).unwrap(), "nano");
    q.config_mut().set("preferences.editor", "emacs").unwrap();
    assert_eq!(q.config().get("preferences.editor", &env).unwrap(), "emacs");
    q.config_mut().set("ui.colors", "yes").unwrap();
    assert_eq!(q.config().get("ui.colors", &no_env()).unwrap(), "false");
    q.config_mut().set("ui.colors", "true").unwrap();
    assert_eq!(q.config().get("ui.colors", &no_env()).unwrap(), "true");
    match q.config_mut().set("ui.font", "x") {
        Err(Error::ConfigErr(ConfigError::InvalidConfigKey(k))) => assert_eq!(k, "ui.font"),
        _ => panic!("an unknown key was accepted"),
    }
    assert!(matches!(q.config().get("nope", &no_env()), Err(Error::ConfigErr(ConfigError::InvalidConfigKey(_)))));
}

#[test]
fn received_cookies_come_with_the_host_of_the_url() {
    assert!(matches!(received_cookie("https://a.com/x", ResponseHeader::Absent), Ok(None)));
    match received_cookie("https://a.com/x", ResponseHeader::Text("id=1".to_string())) {
        Ok(Some((host, cookie))) => {
            assert_eq!(host, "a.com");
            assert_eq!(cookie, "id=1");
        }
        _ => panic!("the cookie was not received"),
    }
    assert!(matches!(
        received_cookie("https://a.com/x", ResponseHeader::NotText),
        Err(Error::RequestError(RequestError::ParseCookie))
    ));
    assert!(matches!(
        received_cookie("/only/a/path", ResponseHeader::NotText),
        Err(Error::RequestError(RequestError::NoHostInURI))
    ));
    assert!(matches!(
        received_cookie("", ResponseHeader::Text("id=1".to_string())),
        Err(Error::RequestError(RequestError::ParseEndpointURI))
    ));
}

#[test]
fn handle_names_read_back_as_their_components() {
    let mut q = project("names");
    with_endpoint(&mut q, "a/b", "https://a.com", "GET");
    let h = q.switch_endpoint("/a/b/".to_string()).unwrap();
    assert_eq!(h.handle(), "a/b");
    assert_eq!(q.current_endpoint().unwrap().handle(), "a/b");
}

#[test]
fn a_copied_environment_reads_back_with_headers() {
    let mut q = project("env-copy-headers");
    let mut env = Env::default();
    env.var_set("K".to_string(), "v=w".to_string()).unwrap();
    env.header_set("Accept".to_string(), "json".to_string()).unwrap();
    let src = q.create_env("src".to_string()).unwrap();
    src.save(&mut q, &env).unwrap();
    q.copy_env("src".to_string(), "dest".to_string()).unwrap();
    let back = q.get_env("dest".to_string()).unwrap().read(&q).unwrap();
    assert_eq!(back.var_get("K"), Some("v=w".to_string()));
    assert_eq!(back.header_get("Accept").unwrap(), "json");
}

#[test]
fn config_set_keeps_the_other_keys() {
    let mut q = project("config-keep");
    let env = ProcessEnv { editor: None, pager: None, no_color: false, clicolor_force: None, clicolor: None };
    quartz_core::action::config::set(
        &mut q,
        &quartz_core::action::config::SetArgs { key: "preferences.pager".to_string(), value: "more".to_string() },
    )
    .unwrap();
    quartz_core::action::config::set(
        &mut q,
        &quartz_core::action::config::SetArgs { key: "preferences.editor".to_string(), value: "nano".to_string() },
    )
    .unwrap();
    assert_eq!(q.config().get("preferences.pager", &env).unwrap(), "more");
    assert_eq!(q.config().get("preferences.editor", &env).unwrap(), "nano");
}

#[test]
fn history_file_names_at_the_limits_of_i64() {
    let mut h = History::with_files("/tmp/hist-limits".to_string(), Vec::new());
    h.write(entry(i64::MIN, "min", &["a"])).unwrap();
    h.write(entry(i64::MAX, "max", &["b"])).unwrap();
    let names: Vec<String> = h.files().iter().map(|f| f.name.clone()).collect();
    assert_eq!(names, vec!["-9223372036854775808", "9223372036854775807"]);
    assert_eq!(h.last_entry().unwrap().unwrap().handle(), "max");
    let signed = vec![
        HistoryFile { name: "+12".to_string(), entry: Some(entry(12, "plus", &["m"])) },
        HistoryFile { name: "007".to_string(), entry: Some(entry(7, "zeros", &["m"])) },
    ];
    let h2 = History::new("/tmp/hist-signed".to_string(), signed).unwrap();
    let handles: Vec<String> = h2.entries().unwrap().iter().map(|e| e.handle().to_string()).collect();
    // "+12" and "007" read as 12 and 7; the entries are found again by the names 12 and 7.
    assert_eq!(handles, Vec::<String>::new());
    for bad in ["9223372036854775808", "-9223372036854775809", "-", "+", "", "1 2", "99999999999999999999999999999999999999999"] {
        let files = vec![HistoryFile { name: bad.to_string(), entry: None }];
        let h3 = History::new("/tmp/hist-bad".to_string(), files).unwrap();
        assert!(matches!(h3.entries(), Err(Error::HistoryError(HistoryError::ReadEntries))), "{}", bad);
    }
}
