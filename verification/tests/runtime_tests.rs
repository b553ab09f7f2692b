use selective_scan::runtime::{GlobalHttpQueryRuntime, GlobalIORuntime, GlobalInstance};

#[test]
fn io_runtime_is_registered_and_sized() {
    let mut registry = GlobalInstance::new();
    GlobalIORuntime::init(8, &mut registry).unwrap();
    let rt = GlobalIORuntime::instance(&registry);
    assert!(rt.thread_num >= 8);
    assert!(rt.thread_num >= 2);
    assert_eq!(rt.name.as_deref(), Some("IO-worker"));
}

#[test]
fn io_runtime_never_runs_below_two_workers() {
    let mut registry = GlobalInstance::new();
    GlobalIORuntime::init(0, &mut registry).unwrap();
    let rt = GlobalIORuntime::instance(&registry);
    assert!(rt.thread_num >= 2);
}

#[test]
fn http_query_runtime_is_registered_and_accessible() {
    let mut registry = GlobalInstance::new();
    GlobalHttpQueryRuntime::init(4, &mut registry).unwrap();
    let handle = GlobalHttpQueryRuntime::instance(&registry);
    let rt = handle.runtime();
    assert!(rt.thread_num >= 4);
    assert_eq!(rt.name.as_deref(), Some("http-query-ctx-worker"));
}

#[test]
fn the_two_runtimes_do_not_displace_each_other() {
    let mut registry = GlobalInstance::new();
    GlobalIORuntime::init(2, &mut registry).unwrap();
    GlobalHttpQueryRuntime::init(2, &mut registry).unwrap();
    assert_eq!(
        GlobalIORuntime::instance(&registry).name.as_deref(),
        Some("IO-worker")
    );
    assert_eq!(
        GlobalHttpQueryRuntime::instance(&registry)
            .runtime()
            .name
            .as_deref(),
        Some("http-query-ctx-worker")
    );
}
