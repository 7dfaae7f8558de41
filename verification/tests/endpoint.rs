use quartz_core::endpoint::Endpoint;
use quartz_core::env::Env;
use quartz_core::handle::EndpointHandle;
use quartz_core::project::Quartz;

fn empty_project() -> Quartz {
    Quartz::init("/tmp/project", "/tmp/project-config".to_string(), false).unwrap()
}

fn default_env(quartz: &Quartz) -> Env {
    quartz.current_env().unwrap().read(quartz).unwrap()
}

#[test]
fn test_simple_cp_handle() {
    let mut quartz = empty_project();
    let handle = quartz.new_handle("testing");
    handle.ensure_dir(&mut quartz).unwrap();
    quartz.copy_endpoint(false, "testing", "testing-copy").unwrap();

    let found_handle = quartz.new_handle("testing-copy");
    assert!(found_handle.is_present(&quartz));
}

#[test]
fn test_recursive_cp_handle() {
    let mut quartz = empty_project();
    quartz.new_handle("testing").ensure_dir(&mut quartz).unwrap();
    quartz.new_handle("testing/ex").ensure_dir(&mut quartz).unwrap();
    quartz.new_handle("testing/ex2").ensure_dir(&mut quartz).unwrap();
    quartz.new_handle("testing/ex2/sub").ensure_dir(&mut quartz).unwrap();
    quartz.copy_endpoint(true, "testing", "testing-copy").unwrap();

    assert!(quartz.new_handle("testing-copy").is_present(&quartz));
    assert!(quartz.new_handle("testing-copy/ex").is_present(&quartz));
    assert!(quartz.new_handle("testing-copy/ex2").is_present(&quartz));
    assert!(quartz.new_handle("testing-copy/ex2/sub").is_present(&quartz));
}

#[test]
fn test_non_recursive_cp_handle() {
    let mut quartz = empty_project();
    quartz.new_handle("testing").ensure_dir(&mut quartz).unwrap();
    quartz.new_handle("testing/ex").ensure_dir(&mut quartz).unwrap();
    quartz.new_handle("testing/ex2").ensure_dir(&mut quartz).unwrap();
    quartz.new_handle("testing/ex2/sub").ensure_dir(&mut quartz).unwrap();
    quartz.copy_endpoint(false, "testing", "testing-copy").unwrap();

    assert!(quartz.new_handle("testing-copy").is_present(&quartz));
    assert!(!quartz.new_handle("testing-copy/ex").is_present(&quartz));
    assert!(!quartz.new_handle("testing-copy/ex2").is_present(&quartz));
    assert!(!quartz.new_handle("testing-copy/ex2/sub").is_present(&quartz));
}

#[test]
fn test_cp_endpoint_spec() {
    let mut quartz = empty_project();
    quartz.new_handle("testing").ensure_dir(&mut quartz).unwrap();
    quartz.new_handle("testing/ex2").ensure_dir(&mut quartz).unwrap();
    let created_handle = quartz.new_handle("testing/ex2/sub");

    let example_url = "https://jsonplaceholder.typicode.com/todos/1".to_owned();
    let mut new_endpoint = Endpoint::new();
    new_endpoint.url = example_url.clone();
    created_handle.write_endpoint(&mut quartz, &new_endpoint).unwrap();

    let mut created_endpoint = created_handle.endpoint(&quartz).unwrap();
    created_endpoint.url = example_url.clone();
    created_handle.write_endpoint(&mut quartz, &created_endpoint).unwrap();
    quartz.copy_endpoint(true, "testing", "testing-copy").unwrap();

    let found_handle = quartz.new_handle("testing-copy/ex2/sub");
    assert!(found_handle.is_present(&quartz));
    let found_endpoint = found_handle.endpoint(&quartz).unwrap();
    assert_eq!(found_endpoint.url, example_url);

    // Check that the source endpoint was not affected
    let source_handle = quartz.new_handle("testing/ex2/sub");
    let source_endpoint = source_handle.endpoint(&quartz).unwrap();
    assert_eq!(source_endpoint.url, example_url)
}

#[test]
fn test_endpoint_removal() {
    let mut quartz = empty_project();
    quartz.new_handle("testing").ensure_dir(&mut quartz).unwrap();
    let handle = quartz.new_handle("testing/ex2");
    handle.ensure_dir(&mut quartz).unwrap();
    handle.delete(&mut quartz, false).unwrap();

    assert!(!quartz.new_handle("testing/ex2").is_present(&quartz));
    assert!(quartz.new_handle("testing").is_present(&quartz));
}

#[test]
fn test_recursive_endpoint_removal() {
    let mut quartz = empty_project();
    let handle = quartz.new_handle("testing");
    handle.ensure_dir(&mut quartz).unwrap();
    quartz.new_handle("testing/ex2").ensure_dir(&mut quartz).unwrap();
    handle.delete(&mut quartz, true).unwrap();

    assert!(!quartz.new_handle("testing/ex2").is_present(&quartz));
    assert!(!quartz.new_handle("testing").is_present(&quartz));
}

#[test]
fn test_non_recursive_endpoint_removal() {
    let mut quartz = empty_project();
    let handle = quartz.new_handle("testing");
    handle.ensure_dir(&mut quartz).unwrap();
    quartz.new_handle("testing/ex2").ensure_dir(&mut quartz).unwrap();

    assert!(handle.delete(&mut quartz, false).is_err());

    assert!(quartz.new_handle("testing/ex2").is_present(&quartz));
    assert!(quartz.new_handle("testing").is_present(&quartz));
}

#[test]
fn test_mv_handle() {
    let mut quartz = empty_project();
    quartz.new_handle("testing").ensure_dir(&mut quartz).unwrap();

    quartz.move_endpoint("testing", "new").unwrap();

    assert!(quartz.new_handle("new").is_present(&quartz));
    assert!(!quartz.new_handle("testing").is_present(&quartz));
}

#[test]
fn test_mv_handle_overwrite() {
    let mut quartz = empty_project();
    let first_handle = quartz.new_handle("testing");
    let mut first_endpoint = Endpoint::new();
    first_endpoint.url = "https://jsonplaceholder.typicode.com/todos/1".to_owned();
    first_handle.write_endpoint(&mut quartz, &first_endpoint).unwrap();
    let second_handle = quartz.new_handle("new");
    let mut second_endpoint = Endpoint::new();
    second_endpoint.url = "https://jsonplaceholder.typicode.com/todos/2".to_owned();
    second_handle.write_endpoint(&mut quartz, &second_endpoint).unwrap();

    quartz.move_endpoint("testing", "new").unwrap();

    let overwritten_handle = EndpointHandle::named("new");
    assert!(overwritten_handle.is_present(&quartz));
    assert!(!EndpointHandle::named("testing").is_present(&quartz));

    let overwritten_endpoint = overwritten_handle.endpoint(&quartz).unwrap();
    assert_eq!(overwritten_endpoint.url, "https://jsonplaceholder.typicode.com/todos/1");
}

#[test]
fn test_resolve_endpoint_url() {
    let mut quartz = empty_project();
    let default_env = default_env(&quartz);

    let first_handle = quartz.new_handle("jsonplaceholder");

    let mut first_endpoint = Endpoint::new();
    first_endpoint.url = "https://jsonplaceholder.typicode.com".into();
    first_handle.write_endpoint(&mut quartz, &first_endpoint).unwrap();

    let sub_handle = quartz.new_handle("jsonplaceholder/todos");
    let mut sub_endpoint = Endpoint::new();
    sub_endpoint.url = "**/todos".into();
    sub_handle.write_endpoint(&mut quartz, &sub_endpoint).unwrap();

    let resolved = sub_endpoint.resolved_url(&sub_handle, &quartz, &default_env).unwrap();
    assert_eq!(resolved, "https://jsonplaceholder.typicode.com/todos");
}

#[test]
fn test_multilevel_inheritance() {
    let mut quartz = empty_project();
    let default_env = default_env(&quartz);
    let first_handle = quartz.new_handle("jsonplaceholder");
    let mut first_endpoint = Endpoint::new();
    first_endpoint.url = "https://jsonplaceholder.typicode.com".into();
    first_handle.write_endpoint(&mut quartz, &first_endpoint).unwrap();

    let second_handle = quartz.new_handle("jsonplaceholder/todos");
    let mut second_endpoint = Endpoint::new();
    second_endpoint.url = "**/todos".into();
    second_handle.write_endpoint(&mut quartz, &second_endpoint).unwrap();

    let third_handle = quartz.new_handle("jsonplaceholder/todos/first");
    let mut third_endpoint = Endpoint::new();
    third_endpoint.url = "**/1".into();
    third_handle.write_endpoint(&mut quartz, &third_endpoint).unwrap();

    let resolved = third_endpoint.resolved_url(&third_handle, &quartz, &default_env).unwrap();
    assert_eq!(resolved, "https://jsonplaceholder.typicode.com/todos/1");
}

#[test]
fn test_resolve_endpoint_vars() {
    let mut quartz = empty_project();
    let env_ref = quartz.current_env().unwrap();
    let mut default_env = env_ref.read(&quartz).unwrap();

    let first_handle = quartz.new_handle("jsonplaceholder");
    let mut first_endpoint = Endpoint::new();
    first_endpoint.url = "https://jsonplaceholder.typicode.com/todos/{{id}}".into();
    first_handle.write_endpoint(&mut quartz, &first_endpoint).unwrap();

    default_env.var_set("id".into(), "1".into()).unwrap();
    env_ref.save(&mut quartz, &default_env).unwrap();

    let resolved = first_endpoint.as_resolved(&first_handle, &quartz, &default_env).unwrap();
    assert_eq!(resolved.url, "https://jsonplaceholder.typicode.com/todos/1");
}

#[test]
fn test_handle_parent() {
    let quartz = empty_project();

    let first_handle = quartz.new_handle("first");
    let second_handle = quartz.new_handle("first/sub");
    assert_eq!(first_handle.head(), "first");
    assert_eq!(second_handle.head(), "sub");

    let second_parent = second_handle.parent().unwrap();
    assert_eq!(second_parent.head(), "first");
}

#[test]
fn test_resolve_body() {
    let mut quartz = empty_project();
    let mut default_env = default_env(&quartz);

    let first_handle = quartz.new_handle("first");

    assert_eq!(first_handle.body(&quartz), None);
    first_handle.set_body(&mut quartz, "{{testing}}").unwrap();

    let raw_body = first_handle.body(&quartz);
    assert_eq!(raw_body, Some("{{testing}}".into()));

    default_env.var_set("testing".into(), "1".into()).unwrap();
    assert_eq!(first_handle.resolved_body(&quartz, &default_env), Some("1".into()));
}
