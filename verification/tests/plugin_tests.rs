use torana_core::plugin::{guest_args, missing_export, plugin_paths, verdict_for_code, verdict_of, Plugin, PluginLoadError, PluginRunError, Verdict};

const ALLOW_ALL_SOURCE: &str = r#"
(module
  (memory (export "memory") 1)
  (global $next (mut i32) (i32.const 1024))
  (func (export "alloc") (param $len i32) (result i32)
    (local $p i32)
    (local.set $p (global.get $next))
    (global.set $next (i32.add (global.get $next) (local.get $len)))
    (local.get $p))
  (func (export "on_request") (param i32 i32 i32 i32) (result i32)
    (i32.const 0)))
"#;

const DENY_POST_SOURCE: &str = r#"
(module
  (memory (export "memory") 1)
  (global $next (mut i32) (i32.const 1024))
  (func (export "alloc") (param $len i32) (result i32)
    (local $p i32)
    (local.set $p (global.get $next))
    (global.set $next (i32.add (global.get $next) (local.get $len)))
    (local.get $p))
  (func (export "on_request") (param $mp i32) (param $ml i32) (param i32 i32) (result i32)
    (if (result i32)
      (i32.and
        (i32.eq (local.get $ml) (i32.const 4))
        (i32.eq (i32.load (local.get $mp)) (i32.const 0x54534F50)))
      (then (i32.const 403))
      (else (i32.const 0)))))
"#;

const INFINITE_LOOP_SOURCE: &str = r#"
(module
  (memory (export "memory") 1)
  (func (export "alloc") (param $len i32) (result i32)
    (i32.const 1024))
  (func (export "on_request") (param i32 i32 i32 i32) (result i32)
    (loop $forever (br $forever))
    (i32.const 0)))
"#;

#[test]
fn allow_all_plugin_allows_everything() {
    let plugin = Plugin::load(ALLOW_ALL_SOURCE.as_bytes()).expect("plugin should load");
    assert_eq!(plugin.evaluate("GET", "/"), Verdict::Allow);
    assert_eq!(plugin.evaluate("POST", "/anything"), Verdict::Allow);
}

#[test]
fn plugin_can_deny_by_method() {
    let plugin = Plugin::load(DENY_POST_SOURCE.as_bytes()).expect("plugin should load");
    assert_eq!(plugin.evaluate("GET", "/"), Verdict::Allow);
    assert_eq!(plugin.evaluate("POST", "/"), Verdict::Deny(403));
}

#[test]
fn plugin_is_isolated_between_calls() {
    let plugin = Plugin::load(DENY_POST_SOURCE.as_bytes()).expect("plugin should load");
    for _ in 0..50 {
        assert_eq!(plugin.evaluate("GET", "/"), Verdict::Allow);
    }
}

#[test]
fn infinite_loop_is_fuel_limited_not_hung() {
    let plugin = Plugin::load(INFINITE_LOOP_SOURCE.as_bytes()).expect("plugin should load");
    let start = std::time::Instant::now();
    assert_eq!(plugin.evaluate("GET", "/"), Verdict::Deny(500));
    assert!(
        start.elapsed() < std::time::Duration::from_secs(5),
        "fuel exhaustion should abort well under 5s"
    );
}

#[test]
fn load_rejects_missing_exports() {
    assert!(Plugin::load(b"(module)").is_err());
}

#[test]
fn load_reports_which_export_is_missing() {
    let no_alloc = r#"(module (memory (export "memory") 1)
        (func (export "on_request") (param i32 i32 i32 i32) (result i32) (i32.const 0)))"#;
    match Plugin::load(no_alloc.as_bytes()) {
        Err(PluginLoadError::MissingExport(name)) => assert_eq!(name, "alloc"),
        _ => panic!("expected a missing export"),
    }
    match Plugin::load(b"(module)") {
        Err(e) => assert_eq!(e.message(), "plugin is missing the required export `on_request`"),
        Ok(_) => panic!("expected an error"),
    }
    match Plugin::load(b"not wasm at all") {
        Err(e) => assert_eq!(e, PluginLoadError::Compile),
        Ok(_) => panic!("expected an error"),
    }
}

#[test]
fn status_codes_map_to_verdicts() {
    assert_eq!(verdict_for_code(0), Verdict::Allow);
    assert_eq!(verdict_for_code(400), Verdict::Deny(400));
    assert_eq!(verdict_for_code(599), Verdict::Deny(599));
    assert_eq!(verdict_for_code(600), Verdict::Deny(403));
    assert_eq!(verdict_for_code(399), Verdict::Deny(403));
    assert_eq!(verdict_for_code(-1), Verdict::Deny(403));
    assert_eq!(verdict_of(None), Verdict::Deny(500));
    assert_eq!(verdict_of(Some(451)), Verdict::Deny(451));
}

#[test]
fn plugin_paths_are_loaded_once_each() {
    let mut routes = Vec::new();
    for (name, plugin) in [("a", Some("p.wasm")), ("b", None), ("c", Some("q.wasm")), ("d", Some("p.wasm"))] {
        let mut r = common_route(name);
        r.plugin = plugin.map(|p| p.to_string());
        routes.push(r);
    }
    let paths = plugin_paths(&routes);
    assert_eq!(
        paths,
        vec![("a".to_string(), "p.wasm".to_string()), ("c".to_string(), "q.wasm".to_string())]
    );
}

fn common_route(name: &str) -> torana_core::config::RouteConfig {
    torana_core::config::RouteConfig {
        name: name.to_string(),
        host: None,
        path: None,
        when: None,
        upstream: vec![],
        mirror: None,
        timeout: torana_core::config::TimeoutConfig::default(),
        headers: torana_core::config::HeaderConfig::default(),
        health_check: None,
        retries: None,
        plugin: None,
    }
}

#[test]
fn guest_arguments_and_missing_exports() {
    assert_eq!(guest_args(16, "GET", 32, "/é"), (16, 3, 32, 3));
    assert_eq!(missing_export(false, false, false), Some("on_request".to_string()));
    assert_eq!(missing_export(true, false, false), Some("alloc".to_string()));
    assert_eq!(missing_export(true, true, false), Some("memory".to_string()));
    assert_eq!(missing_export(true, true, true), None);
}

#[test]
fn missing_memory_has_its_own_wording() {
    let no_memory = r#"(module
        (func (export "alloc") (param i32) (result i32) (i32.const 0))
        (func (export "on_request") (param i32 i32 i32 i32) (result i32) (i32.const 0)))"#;
    match Plugin::load(no_memory.as_bytes()) {
        Err(e) => assert_eq!(e.message(), "plugin is missing the exported `memory`"),
        Ok(_) => panic!("expected an error"),
    }
}

#[test]
fn run_errors_name_the_failing_step() {
    let bad_signature = r#"(module (memory (export "memory") 1)
        (func (export "alloc") (param i32) (result i32) (i32.const 1024))
        (func (export "on_request") (param i32) (result i32) (i32.const 0)))"#;
    let plugin = Plugin::load(bad_signature.as_bytes()).expect("exports are present");
    assert_eq!(plugin.try_evaluate("GET", "/"), Err(PluginRunError::OnRequestSignature));
    assert_eq!(plugin.evaluate("GET", "/"), Verdict::Deny(500));
    let looping = Plugin::load(INFINITE_LOOP_SOURCE.as_bytes()).expect("plugin should load");
    let err = looping.try_evaluate("GET", "/").unwrap_err();
    assert_eq!(err, PluginRunError::Trap);
    assert_eq!(err.message(), "plugin `on_request` trapped (possibly out of fuel)");
    let allow = Plugin::load(ALLOW_ALL_SOURCE.as_bytes()).expect("plugin should load");
    assert_eq!(allow.try_evaluate("GET", "/"), Ok(0));
}
