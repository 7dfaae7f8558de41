use quartz_core::endpoint::EndpointPatch;
use quartz_core::env::Env;
use quartz_core::project::{Quartz, StateField};
use quartz_core::sync::{sync, SyncAction};

fn sample() -> Quartz {
    let mut q = Quartz::init("/tmp/sync", "/tmp/sync-config".to_string(), false).unwrap();
    for (h, url) in [("a", "https://a.com"), ("a/b", "https://a.com/b"), ("c", "https://c.com")] {
        let mut patch = EndpointPatch::default();
        patch.url = Some(url.to_string());
        q.new_handle(h).apply_endpoint_patch(&mut q, patch).unwrap();
    }
    q.new_handle("c").set_body(&mut q, "old").unwrap();
    q
}

fn describe(actions: &[SyncAction]) -> Vec<String> {
    actions
        .iter()
        .map(|a| match a {
            SyncAction::RemoveEndpointDir(p) => format!("rmdir {}", p.join("/")),
            SyncAction::CreateEndpointDir(p) => format!("mkdir {}", p.join("/")),
            SyncAction::WriteEndpoint(p, e) => format!("endpoint {} {}", p.join("/"), e.url),
            SyncAction::RemoveEndpointFile(p) => format!("rm endpoint {}", p.join("/")),
            SyncAction::WriteBody(p, b) => format!("body {} {}", p.join("/"), b),
            SyncAction::RemoveBody(p) => format!("rm body {}", p.join("/")),
            SyncAction::RemoveEnvDir(n) => format!("rm env {}", n),
            SyncAction::CreateEnvDir(n) => format!("mkenv {}", n),
            SyncAction::WriteVariables(n, t) => format!("variables {} {:?}", n, t),
            SyncAction::WriteHeaders(n, t) => format!("headers {} {:?}", n, t),
            SyncAction::WriteState(_, v) => format!("state {}", v),
        })
        .collect()
}

#[test]
fn nothing_changed_only_ensures_directories() {
    let base = sample();
    let now = sample();
    assert_eq!(describe(&sync(&base, &now)), vec!["mkdir ", "mkdir a", "mkdir a/b", "mkdir c", "mkenv default"]);
}

#[test]
fn changes_become_writes_and_removals() {
    let base = sample();
    let mut now = sample();
    now.new_handle("a").delete(&mut now, true).unwrap();
    let mut patch = EndpointPatch::default();
    patch.url = Some("https://new.c".to_string());
    now.new_handle("c").apply_endpoint_patch(&mut now, patch).unwrap();
    now.new_handle("c").set_body(&mut now, "new").unwrap();
    let mut env = Env::default();
    env.var_set("K".to_string(), "v".to_string()).unwrap();
    now.create_env("prod".to_string()).unwrap().save(&mut now, &env).unwrap();
    now.remove_env("default".to_string()).unwrap_err();
    now.state_set(StateField::Endpoint, "c").unwrap();
    assert_eq!(
        describe(&sync(&base, &now)),
        vec![
            "rmdir a",
            "rmdir a/b",
            "mkdir ",
            "mkdir c",
            "endpoint c https://new.c",
            "body c new",
            "mkenv default",
            "mkenv prod",
            "variables prod \"K=v\\n\"",
            "headers prod \"\"",
            "state c",
        ]
    );
}
