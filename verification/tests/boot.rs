//! The checks boot makes before it starts anything, and the small decisions on the way.

use brenn_server::apps::AppConfig;
use brenn_server::boot::{
    allows_output, assert_build_id_valid, assert_unique_store_paths, consumer_store_paths,
    has_startup_hooks, host_capabilities, links_mqtt, needs_container_cleanup, needs_runtime_dir,
    needs_server_origin, startup_hooks_skipped, tool_server_origin, upload_limit_shortfall,
    BuildIdFault, Capability, OperatorAlert, StoreClash, StoreOwner,
};
use brenn_server::obs_config::{
    build, AlertBackend, AlertConfig, AlertFault, AlertingConfig, LoggingConfig, MailConfig,
    NtfyConfig, RateLimitConfig,
};
use brenn_server::model::AlertSeverity;
use brenn_server::policy::{AppCapability, AppPolicy, ToolGrant};
use brenn_server::wasm_model::{ActivationPacing, ResolvedWasmConsumer, WasmGrant};
use indexmap::IndexMap;

#[test]
fn valid_build_id_no_panic() {
    assert_eq!(assert_build_id_valid("test-build"), Ok(()));
    assert_eq!(assert_build_id_valid(&"x".repeat(64)), Ok(()));
}

#[test]
fn empty_build_id_panics() {
    assert_eq!(assert_build_id_valid(""), Err(BuildIdFault::Empty));
}

#[test]
fn over_long_build_id_panics() {
    assert_eq!(assert_build_id_valid(&"x".repeat(65)), Err(BuildIdFault::TooLong));
    assert_eq!(
        assert_build_id_valid(&"\u{e9}".repeat(33)),
        Err(BuildIdFault::TooLong),
        "the limit counts bytes"
    );
}

fn path(name: &str) -> String {
    format!("/tmp/store/{name}")
}

#[test]
fn unique_store_paths_no_panic() {
    let replay = vec![path("replay.sqlite")];
    let consumer = vec![(path("consumer.sqlite"), "my-consumer".to_string())];
    assert_eq!(assert_unique_store_paths(&replay, &consumer), Ok(()));
}

#[test]
fn consumer_store_path_aliasing_replay_panics() {
    let replay = vec![path("shared.sqlite")];
    let consumer = vec![(path("shared.sqlite"), "my-consumer".to_string())];
    assert_eq!(
        assert_unique_store_paths(&replay, &consumer),
        Err(StoreClash { earlier: StoreOwner::Replay(0), later: StoreOwner::Consumer(0) })
    );
}

#[test]
fn duplicate_consumer_store_paths_panic() {
    let consumer = vec![
        (path("shared.sqlite"), "consumer-a".to_string()),
        (path("shared.sqlite"), "consumer-b".to_string()),
    ];
    assert_eq!(
        assert_unique_store_paths(&[], &consumer),
        Err(StoreClash { earlier: StoreOwner::Consumer(0), later: StoreOwner::Consumer(1) })
    );
}

#[test]
fn two_replay_stores_on_one_path_clash() {
    let replay = vec![path("a"), path("b"), path("a")];
    assert_eq!(
        assert_unique_store_paths(&replay, &[]),
        Err(StoreClash { earlier: StoreOwner::Replay(0), later: StoreOwner::Replay(2) })
    );
    for (one, other) in [
        ("/d/x.sqlite", "/d/x.sqlite/"),
        ("/d/x.sqlite", "/d//x.sqlite"),
        ("/d/x.sqlite", "//d/./x.sqlite/."),
        ("./d/x", "./d/./x"),
        ("d/x", "d//x"),
    ] {
        let as_paths = std::path::Path::new(one) == std::path::Path::new(other);
        assert!(as_paths, "{one} and {other} are one path");
        assert_eq!(
            assert_unique_store_paths(&[one.to_string()], &[(other.to_string(), "c".to_string())]),
            Err(StoreClash { earlier: StoreOwner::Replay(0), later: StoreOwner::Consumer(0) })
        );
    }
    for (one, other) in [
        ("/d/x", "d/x"),
        ("./d/x", "d/x"),
        ("/d/x", "/d/../d/x"),
        ("/d/x", "/d/x.sqlite"),
        ("/d/.x", "/d/x"),
        ("/", ""),
        (".", ""),
        ("/d", "/D"),
    ] {
        let as_paths = std::path::Path::new(one) == std::path::Path::new(other);
        assert!(!as_paths, "{one} and {other} are two paths");
        assert_eq!(
            assert_unique_store_paths(&[one.to_string()], &[(other.to_string(), "c".to_string())]),
            Ok(())
        );
    }
}

fn consumer(slug: &str, store: Option<&str>, grants: Vec<WasmGrant>) -> ResolvedWasmConsumer {
    ResolvedWasmConsumer {
        slug: slug.to_string(),
        component_path: "/tmp/a.wasm".to_string(),
        grants,
        store_path: store.map(|p| p.to_string()),
        max_page_count: 1,
        inputs: vec![],
        outputs: vec![],
        config: vec![],
        policy: AppPolicy::new(),
        activation_pacing: ActivationPacing { burst: 1, min_period_ms: 1 },
        mqtt_sinks: vec![],
    }
}

#[test]
fn only_consumers_with_a_store_have_a_store_path() {
    let list = [
        consumer("a", Some("/s/a"), vec![]),
        consumer("b", None, vec![]),
        consumer("c", Some("/s/c"), vec![]),
    ];
    assert_eq!(
        consumer_store_paths(&list),
        vec![
            ("/s/a".to_string(), "a".to_string()),
            ("/s/c".to_string(), "c".to_string())
        ]
    );
}

#[test]
fn linked_interfaces_follow_the_grants_and_the_tools() {
    let mut c = consumer("a", None, vec![WasmGrant::Mqtt, WasmGrant::Ports]);
    assert_eq!(host_capabilities(&c), vec![Capability::Ports, Capability::Mqtt]);
    assert!(links_mqtt(&c));
    c.policy.tool_grants =
        vec![ToolGrant { tool: "apull".to_string(), acl: vec![], rate_limit: None }];
    assert_eq!(
        host_capabilities(&c),
        vec![Capability::Ports, Capability::Mqtt, Capability::Tools]
    );
    let all = consumer(
        "b",
        None,
        vec![
            WasmGrant::Config,
            WasmGrant::Alert,
            WasmGrant::Log,
            WasmGrant::Store,
        ],
    );
    assert_eq!(
        host_capabilities(&all),
        vec![Capability::Store, Capability::Log, Capability::Alert, Capability::Config]
    );
    assert!(!links_mqtt(&all));
}

#[test]
fn an_output_is_allowed_on_a_covered_durable_channel_only() {
    let mut policy = AppPolicy::new();
    policy.grant(AppCapability::MessagingPublish, "alerts");
    policy.grant(AppCapability::EphemeralPublish, "alerts");
    assert!(allows_output(&policy, "brenn:alerts"));
    assert!(!allows_output(&policy, "brenn:other"));
    assert!(!allows_output(&policy, "ephemeral:alerts"));
    assert!(!allows_output(&policy, "alerts"));
}

#[test]
fn container_work_follows_the_apps() {
    assert!(!needs_runtime_dir(&[]));
    assert!(!needs_runtime_dir(&[true, true]));
    assert!(needs_runtime_dir(&[true, false]));
    assert!(!needs_container_cleanup(&[]));
    assert!(!needs_container_cleanup(&[false, false]));
    assert!(needs_container_cleanup(&[false, true]));
}

fn app(messaging_enabled: bool) -> AppConfig {
    AppConfig {
        policy: AppPolicy::new(),
        messaging: None,
        webhook_subscriptions: vec![],
        mqtt_subscriptions: vec![],
        messaging_enabled,
    }
}

#[test]
fn the_origin_is_needed_by_messaging_by_an_app_or_by_push() {
    let quiet = IndexMap::from([("a".to_string(), app(false))]);
    let loud = IndexMap::from([("a".to_string(), app(false)), ("b".to_string(), app(true))]);
    assert!(!needs_server_origin(false, &quiet, false));
    assert!(needs_server_origin(true, &quiet, false));
    assert!(needs_server_origin(false, &quiet, true));
    assert!(needs_server_origin(false, &loud, false));
}

#[test]
fn tool_callers_fall_back_on_the_listening_address() {
    assert_eq!(tool_server_origin(&Some("brenn://me".to_string()), "[::]:80"), "brenn://me");
    assert_eq!(tool_server_origin(&None, "127.0.0.1:80"), "127.0.0.1:80");
}

#[test]
fn uploads_fall_short_below_a_quarter_of_the_squared_edge() {
    assert_eq!(upload_limit_shortfall(1_000_000, 2000), None);
    assert_eq!(upload_limit_shortfall(999_999, 2000), Some(1_000_000));
    assert_eq!(upload_limit_shortfall(0, 1), None);
    assert_eq!(upload_limit_shortfall(0, 3), Some(2));
}

#[test]
fn hooks_are_skipped_and_told_of_after_a_pull_warning() {
    assert!(!has_startup_hooks(0, 0));
    assert!(has_startup_hooks(1, 0));
    assert!(has_startup_hooks(0, 1));
    assert_eq!(startup_hooks_skipped("graf", &[]), None);
    assert_eq!(
        startup_hooks_skipped("graf", &["one".to_string(), "two".to_string()]),
        Some(OperatorAlert {
            severity: AlertSeverity::Warning,
            title: "startup_hooks skipped for graf due to pull failure".to_string(),
            body: "one\ntwo".to_string(),
        })
    );
}

fn logging() -> LoggingConfig {
    LoggingConfig {
        log_dir: "/var/log/brenn".to_string(),
        console_level: "info".to_string(),
        file_level: "debug".to_string(),
    }
}

fn alerting(ntfy: bool, mail: bool) -> Option<AlertingConfig> {
    Some(AlertingConfig {
        ntfy: if ntfy {
            Some(NtfyConfig { url: "https://ntfy.sh/test".to_string() })
        } else {
            None
        },
        mail: if mail {
            Some(MailConfig {
                to: "test@example.com".to_string(),
                subject_label: "Test".to_string(),
            })
        } else {
            None
        },
        max_alerts: 5,
        window_secs: 60,
    })
}

#[test]
fn build_panics_when_both_ntfy_and_mail_set() {
    let fault = build(&logging(), &alerting(true, true), None).unwrap_err();
    assert_eq!(fault, AlertFault::BothBackends);
}

#[test]
fn build_panics_when_neither_ntfy_nor_mail_set() {
    let fault = build(&logging(), &alerting(false, false), None).unwrap_err();
    assert_eq!(fault, AlertFault::NoBackend);
}

#[test]
fn one_backend_is_taken_over_with_its_rate() {
    let obs = build(&logging(), &alerting(true, false), Some("/etc/brenn.toml")).unwrap();
    assert_eq!(obs.log_dir, "/var/log/brenn");
    assert_eq!(obs.console_level, "info");
    assert_eq!(obs.file_level, "debug");
    assert_eq!(obs.diagnostic_log_name, "brenn.log");
    assert_eq!(obs.security_log_name, "security.log");
    assert_eq!(obs.instance_name.as_deref(), Some("/etc/brenn.toml"));
    assert_eq!(
        obs.alert,
        Some(AlertConfig {
            backend: AlertBackend::Ntfy { url: "https://ntfy.sh/test".to_string() },
            rate_limit: RateLimitConfig { max_alerts: 5, window_secs: 60 },
        })
    );
    let obs = build(&logging(), &alerting(false, true), None).unwrap();
    assert_eq!(obs.instance_name, None);
    assert_eq!(
        obs.alert.unwrap().backend,
        AlertBackend::Mail {
            to: "test@example.com".to_string(),
            subject_label: "Test".to_string(),
        }
    );
    assert!(build(&logging(), &None, None).unwrap().alert.is_none());
}
