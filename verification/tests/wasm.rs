//! Resolving WASM consumers: what each knob resolves to, and what each mistake is answered with.

use brenn_server::address::ChannelScheme;
use brenn_server::clients::MqttClient;
use brenn_server::directory::{ChannelEntry, MessagingDirectory, ResolvedChannel};
use brenn_server::model::{Depth, NoiseLevel, Sink, SinkBudget, Urgency, WakeMin};
use brenn_server::policy::{
    AppCapability, ChannelMatcher, MqttClientMatcher, MqttSubMatcher, ToolClause, ToolGrant,
    ToolRateLimit, WebhookMatcher,
};
use brenn_server::wasm::{
    resolve_wasm_consumers, DEFAULT_ACTIVATION_BURST, DEFAULT_ACTIVATION_MIN_PERIOD_MS,
    TOOL_RESULT_INPUT_PORT,
};
use brenn_server::wasm_model::{
    ResolvedWasmConsumer, StorePath, WasmConsumerConfigRaw, WasmConsumerMqttOutputRaw,
    WasmConsumerOutputRaw, WasmConsumerSubscriptionRaw, WasmFault, WasmFaultKind, WasmGrant,
};
use indexmap::IndexMap;
use std::time::Duration;

/// 64 MiB in pages of 4096 bytes.
const GLOBAL_PAGES: u64 = 16384;

fn uuid_of(address: &str) -> u128 {
    address.bytes().fold(1u128, |acc, b| acc.wrapping_mul(257).wrapping_add(b as u128))
}

fn brenn_entry_with(
    addr: &str,
    push_depth: Depth,
    retain_depth: Depth,
    noise: NoiseLevel,
) -> ChannelEntry {
    ChannelEntry {
        uuid: uuid_of(addr),
        address: addr.to_string(),
        description: None,
        resolved_channel: ResolvedChannel {
            push_depth,
            retain_depth,
            standing_retain_depth: retain_depth,
            noise,
            sink: Sink::Drop,
            wake_min: WakeMin::Normal,
        },
        subscribers: vec![],
        transport_type: ChannelScheme::Brenn,
        mount: None,
    }
}

fn brenn_entry(addr: &str) -> ChannelEntry {
    brenn_entry_with(addr, Depth::Unbounded, Depth::Unbounded, NoiseLevel::Silent)
}

fn dir_of(entries: Vec<ChannelEntry>) -> MessagingDirectory {
    MessagingDirectory::with_entries(entries)
}

fn make_brenn_dir(addr: &str) -> (MessagingDirectory, String) {
    (dir_of(vec![brenn_entry(addr)]), addr.to_string())
}

fn make_two_brenn_dirs(a: &str, b: &str) -> MessagingDirectory {
    dir_of(vec![brenn_entry(a), brenn_entry(b)])
}

fn make_dir_with_noise(addr: &str, noise: NoiseLevel) -> (MessagingDirectory, String) {
    (
        dir_of(vec![brenn_entry_with(addr, Depth::Unbounded, Depth::Unbounded, noise)]),
        addr.to_string(),
    )
}

fn sub_raw(channel: &str, port: &str) -> WasmConsumerSubscriptionRaw {
    WasmConsumerSubscriptionRaw {
        channel: channel.to_string(),
        port: port.to_string(),
        push_depth: None,
        retain_depth: None,
        noise: None,
        wake_min: None,
        amplification_mt: None,
    }
}

fn out_raw(port: &str, channel: &str) -> WasmConsumerOutputRaw {
    WasmConsumerOutputRaw {
        port: port.to_string(),
        channel: channel.to_string(),
        urgency: None,
        publish_per_activation_mt: None,
        publish_capacity_mt: None,
    }
}

fn minimal_wasm_consumer() -> WasmConsumerConfigRaw {
    WasmConsumerConfigRaw {
        slug: "probe".to_string(),
        component_path: "/nonexistent/probe.wasm".to_string(),
        grants: vec![],
        subscribe_acl: vec![],
        publish_acl: vec![],
        mqtt_publish_acl: vec![],
        mqtt_subscribe_acl: vec![],
        mqtt_covered: vec![],
        webhook_acl: vec![],
        store_path: None,
        store_page_limit: None,
        subscriptions: vec![],
        outputs: vec![],
        config: None,
        activation_burst: None,
        activation_min_period_ms: None,
        mqtt_outputs: vec![],
        tool_grants: vec![],
    }
}

fn minimal_wasm_consumer_raw(slug: &str, path: &str, addr: &str) -> WasmConsumerConfigRaw {
    WasmConsumerConfigRaw {
        slug: slug.to_string(),
        component_path: path.to_string(),
        subscriptions: vec![sub_raw(addr, "in")],
        ..minimal_wasm_consumer()
    }
}

fn resolve(raw: &[WasmConsumerConfigRaw], dir: &MessagingDirectory) -> Vec<ResolvedWasmConsumer> {
    resolve_wasm_consumers(raw, dir, GLOBAL_PAGES, &IndexMap::new()).unwrap()
}

fn refusal(raw: WasmConsumerConfigRaw, dir: &MessagingDirectory) -> WasmFaultKind {
    resolve_wasm_consumers(&[raw], dir, GLOBAL_PAGES, &IndexMap::new()).unwrap_err().kind
}

fn exact(name: &str) -> ChannelMatcher {
    ChannelMatcher::Exact(name.to_string())
}

fn declared_clients(slugs: &[&str]) -> IndexMap<String, MqttClient> {
    slugs
        .iter()
        .map(|slug| (slug.to_string(), MqttClient { urgency: Urgency::Normal }))
        .collect()
}

fn client(slug: &str) -> MqttClientMatcher {
    MqttClientMatcher { client: slug.to_string() }
}

fn budget_consumer(chan: &str) -> WasmConsumerConfigRaw {
    let addr = format!("brenn:{chan}");
    WasmConsumerConfigRaw {
        grants: vec![WasmGrant::Ports],
        subscriptions: vec![sub_raw(&addr, "in")],
        outputs: vec![out_raw("out", &addr)],
        publish_acl: vec![exact(chan)],
        ..minimal_wasm_consumer()
    }
}

#[test]
fn duplicate_wasm_slug_panics_at_bootstrap() {
    let (dir, addr) = make_brenn_dir("brenn:dedup-test");
    let raw = vec![
        minimal_wasm_consumer_raw("duplicate", "/tmp/a.wasm", &addr),
        minimal_wasm_consumer_raw("duplicate", "/tmp/b.wasm", &addr),
    ];
    let fault = resolve_wasm_consumers(&raw, &dir, GLOBAL_PAGES, &IndexMap::new()).unwrap_err();
    assert_eq!(
        fault,
        WasmFault { consumer: 1, item: 0, kind: WasmFaultKind::DuplicateSlug }
    );
}

#[test]
fn a_slug_with_a_separator_is_refused() {
    let (dir, addr) = make_brenn_dir("brenn:slug-test");
    for slug in ["a:b", "a@b", ":", "tail@"] {
        let mut raw = vec![
            minimal_wasm_consumer_raw("fine", "/tmp/a.wasm", &addr),
            minimal_wasm_consumer_raw(slug, "/tmp/b.wasm", &addr),
        ];
        raw[1].grants = vec![WasmGrant::Config, WasmGrant::Config];
        let fault = resolve_wasm_consumers(&raw, &dir, GLOBAL_PAGES, &IndexMap::new()).unwrap_err();
        assert_eq!(fault, WasmFault { consumer: 1, item: 0, kind: WasmFaultKind::SlugCharset });
    }
}

#[test]
fn wasm_consumer_resolves_with_non_empty_acl() {
    let (dir, addr) = make_brenn_dir("brenn:acl-passthrough");
    let mut raw = minimal_wasm_consumer_raw("acl-consumer", "/tmp/a.wasm", &addr);
    raw.subscribe_acl = vec![exact("inbox")];
    raw.publish_acl = vec![ChannelMatcher::Prefix("events.".to_string())];
    raw.grants = vec![WasmGrant::Ports];

    let resolved = resolve(&[raw], &dir);
    assert_eq!(resolved.len(), 1, "consumer with non-empty ACL must resolve");
    let c = &resolved[0];
    assert_eq!(c.policy.acls.brenn_subscribe, vec![exact("inbox")]);
    assert_eq!(
        c.policy.acls.brenn_publish,
        vec![ChannelMatcher::Prefix("events.".to_string())]
    );
    assert!(c.policy.acls.mqtt_subscribe.is_empty());
    assert!(c.policy.acls.mqtt_publish.is_empty());
    assert!(c.policy.acls.webhook.is_empty());
    assert!(c.policy.allows_channel_access("brenn:inbox"));
    assert!(c.policy.allows_brenn_publish("events.door"));
    assert!(!c.policy.allows_brenn_publish("inbox"));
}

#[test]
fn wasm_consumer_resolves_tool_grants_into_policy() {
    let (dir, addr) = make_brenn_dir("brenn:tool-grant");
    let mut raw = minimal_wasm_consumer_raw("puller", "/tmp/a.wasm", &addr);
    let repo = |name: &str| vec![("repo".to_string(), name.to_string())];
    let declared = || {
        vec![
            ToolGrant {
                tool: "git-repo-pull".to_string(),
                acl: vec![ToolClause { arguments: repo("brenn") }],
                rate_limit: None,
            },
            ToolGrant {
                tool: "search".to_string(),
                acl: vec![],
                rate_limit: Some(ToolRateLimit { calls: 5, per_secs: 60 }),
            },
        ]
    };
    raw.tool_grants = declared();
    let resolved = resolve(&[raw], &dir);
    assert_eq!(resolved[0].policy.tool_grants, declared());
    let grant = resolved[0]
        .policy
        .tool_grants
        .iter()
        .find(|g| g.tool == "git-repo-pull")
        .expect("tool grant resolved into policy");
    assert!(grant.acl_allows(&repo("brenn")));
    assert!(!grant.acl_allows(&repo("pfin")));
}

#[test]
fn wasm_consumer_without_tool_grants_has_empty_map() {
    let (dir, chan_addr) = make_brenn_dir("brenn:no-tool-grant");
    let raw = minimal_wasm_consumer_raw("plain", "/tmp/a.wasm", &chan_addr);
    let resolved = resolve(&[raw], &dir);
    assert!(resolved[0].policy.tool_grants.is_empty());
}

#[test]
fn activation_pacing_absent_resolves_to_defaults() {
    let (dir, chan_addr) = make_brenn_dir("brenn:pacing-default");
    let raw = minimal_wasm_consumer_raw("pacing-default", "/tmp/a.wasm", &chan_addr);
    assert!(raw.activation_burst.is_none());
    assert!(raw.activation_min_period_ms.is_none());
    let resolved = resolve(&[raw], &dir);
    let pacing = resolved[0].activation_pacing;
    assert_eq!(pacing.burst, DEFAULT_ACTIVATION_BURST);
    assert_eq!(pacing.min_period_ms, DEFAULT_ACTIVATION_MIN_PERIOD_MS);
    assert_eq!(DEFAULT_ACTIVATION_BURST, 60);
    assert_eq!(
        Duration::from_millis(DEFAULT_ACTIVATION_MIN_PERIOD_MS),
        Duration::from_secs(1)
    );
}

#[test]
fn activation_pacing_present_overrides_defaults() {
    let (dir, chan_addr) = make_brenn_dir("brenn:pacing-override");
    let mut raw = minimal_wasm_consumer_raw("pacing-override", "/tmp/a.wasm", &chan_addr);
    raw.activation_burst = Some(5);
    raw.activation_min_period_ms = Some(250);
    let resolved = resolve(&[raw], &dir);
    let pacing = resolved[0].activation_pacing;
    assert_eq!(pacing.burst, 5);
    assert_eq!(Duration::from_millis(pacing.min_period_ms), Duration::from_millis(250));
}

#[test]
fn activation_burst_zero_panics() {
    let (dir, addr) = make_brenn_dir("brenn:pacing-zero-burst");
    let mut raw = minimal_wasm_consumer_raw("pacing-zero-burst", "/tmp/a.wasm", &addr);
    raw.activation_burst = Some(0);
    assert_eq!(refusal(raw, &dir), WasmFaultKind::ZeroActivationBurst);
}

#[test]
fn activation_min_period_zero_panics() {
    let (dir, addr) = make_brenn_dir("brenn:pacing-zero-period");
    let mut raw = minimal_wasm_consumer_raw("pacing-zero-period", "/tmp/a.wasm", &addr);
    raw.activation_min_period_ms = Some(0);
    assert_eq!(refusal(raw, &dir), WasmFaultKind::ZeroActivationPeriod);
}

#[test]
fn wasm_consumer_inherits_channel_noise() {
    let (dir, addr) = make_dir_with_noise("brenn:inherit-test", NoiseLevel::Alarm);
    let raw = minimal_wasm_consumer_raw("consumer-a", "/tmp/a.wasm", &addr);
    let result = resolve(&[raw], &dir);
    assert_eq!(result.len(), 1);
    assert_eq!(result[0].inputs.len(), 1);
    assert_eq!(result[0].inputs[0].sub.noise, NoiseLevel::Alarm);
}

#[test]
fn wasm_consumer_explicit_noise_overrides_channel() {
    let (dir, addr) = make_dir_with_noise("brenn:override-test", NoiseLevel::Alarm);
    let mut raw = minimal_wasm_consumer_raw("consumer-b", "/tmp/b.wasm", &addr);
    raw.subscriptions[0].push_depth = Some(Depth::Bounded(5));
    raw.subscriptions[0].noise = Some(NoiseLevel::Metered);
    let result = resolve(&[raw], &dir);
    assert_eq!(result[0].inputs[0].sub.noise, NoiseLevel::Metered);
    assert_eq!(result[0].inputs[0].sub.push_depth, Depth::Bounded(5));
}

#[test]
fn wasm_consumer_explicit_noise_on_pull_only_panics() {
    let (dir, addr) = make_dir_with_noise("brenn:pullonly-panic-test", NoiseLevel::Silent);
    let mut raw = minimal_wasm_consumer_raw("consumer-c", "/tmp/c.wasm", &addr);
    raw.subscriptions[0].push_depth = Some(Depth::Bounded(0));
    raw.subscriptions[0].noise = Some(NoiseLevel::Alarm);
    assert_eq!(refusal(raw, &dir), WasmFaultKind::NoiseWithoutQueue);
}

#[test]
fn wasm_consumer_explicit_wake_min_panics() {
    let (dir, addr) = make_dir_with_noise("brenn:wakemin-panic-test", NoiseLevel::Silent);
    let mut raw = minimal_wasm_consumer_raw("consumer-wm", "/tmp/wm.wasm", &addr);
    raw.subscriptions[0].push_depth = Some(Depth::Bounded(5));
    raw.subscriptions[0].wake_min = Some(WakeMin::High);
    assert_eq!(refusal(raw, &dir), WasmFaultKind::WakeMinSet);
}

#[test]
fn wasm_consumer_all_sampled_inputs_panics() {
    let (dir, addr) = make_dir_with_noise("brenn:pullonly-dead-test", NoiseLevel::Alarm);
    let mut raw = minimal_wasm_consumer_raw("consumer-d", "/tmp/d.wasm", &addr);
    raw.subscriptions[0].push_depth = Some(Depth::Bounded(0));
    assert_eq!(refusal(raw, &dir), WasmFaultKind::CannotActivate);
}

#[test]
fn wasm_consumer_dead_port_both_depths_zero_panics() {
    let (dir, addr) = make_dir_with_noise("brenn:dead-port-test", NoiseLevel::Alarm);
    let mut raw = minimal_wasm_consumer_raw("consumer-dead-port", "/tmp/dp.wasm", &addr);
    raw.subscriptions[0].push_depth = Some(Depth::Bounded(0));
    raw.subscriptions[0].retain_depth = Some(Depth::Bounded(0));
    assert_eq!(refusal(raw, &dir), WasmFaultKind::DeadPort);
}

#[test]
fn wasm_consumer_explicit_noise_on_channel_pull_only_panics() {
    let dir = dir_of(vec![brenn_entry_with(
        "brenn:ch-pullonly-panic-test",
        Depth::Bounded(0),
        Depth::Unbounded,
        NoiseLevel::Silent,
    )]);
    let mut raw = minimal_wasm_consumer_raw(
        "consumer-e",
        "/tmp/e.wasm",
        "brenn:ch-pullonly-panic-test",
    );
    raw.subscriptions[0].noise = Some(NoiseLevel::Alarm);
    assert_eq!(refusal(raw, &dir), WasmFaultKind::NoiseWithoutQueue);
}

#[test]
fn duplicate_input_port_names_panic() {
    let dir = dir_of(vec![brenn_entry("brenn:ch1"), brenn_entry("brenn:ch2")]);
    let raw = WasmConsumerConfigRaw {
        subscriptions: vec![sub_raw("brenn:ch1", "same-port"), sub_raw("brenn:ch2", "same-port")],
        ..minimal_wasm_consumer()
    };
    let fault = resolve_wasm_consumers(&[raw], &dir, GLOBAL_PAGES, &IndexMap::new()).unwrap_err();
    assert_eq!(
        fault,
        WasmFault { consumer: 0, item: 1, kind: WasmFaultKind::DuplicatePort }
    );
}

#[test]
fn input_output_port_name_collision_panics() {
    let dir = dir_of(vec![brenn_entry("brenn:in-ch"), brenn_entry("brenn:out-ch")]);
    let raw = WasmConsumerConfigRaw {
        subscriptions: vec![sub_raw("brenn:in-ch", "shared-port")],
        outputs: vec![out_raw("shared-port", "brenn:out-ch")],
        ..minimal_wasm_consumer()
    };
    assert_eq!(refusal(raw, &dir), WasmFaultKind::DuplicatePort);
}

#[test]
fn reserved_tool_results_input_port_panics() {
    let dir = dir_of(vec![brenn_entry("brenn:ch1")]);
    let raw = WasmConsumerConfigRaw {
        subscriptions: vec![sub_raw("brenn:ch1", TOOL_RESULT_INPUT_PORT)],
        ..minimal_wasm_consumer()
    };
    assert_eq!(refusal(raw, &dir), WasmFaultKind::ReservedPort);
}

#[test]
fn reserved_tool_results_output_port_panics() {
    let dir = dir_of(vec![brenn_entry("brenn:in-ch"), brenn_entry("brenn:out-ch")]);
    let raw = WasmConsumerConfigRaw {
        subscriptions: vec![sub_raw("brenn:in-ch", "in")],
        outputs: vec![out_raw(TOOL_RESULT_INPUT_PORT, "brenn:out-ch")],
        ..minimal_wasm_consumer()
    };
    assert_eq!(refusal(raw, &dir), WasmFaultKind::ReservedPort);
}

#[test]
fn non_brenn_output_channel_panics() {
    let wh = ChannelEntry {
        transport_type: ChannelScheme::Webhook,
        ..brenn_entry("webhook:wh")
    };
    let dir = dir_of(vec![brenn_entry("brenn:in-ch"), wh]);
    let raw = WasmConsumerConfigRaw {
        subscriptions: vec![sub_raw("brenn:in-ch", "in")],
        outputs: vec![out_raw("out", "webhook:wh")],
        ..minimal_wasm_consumer()
    };
    assert_eq!(refusal(raw, &dir), WasmFaultKind::OutputNotBrenn);
}

#[test]
fn outputs_without_inputs_panics() {
    let (dir, addr) = make_brenn_dir("brenn:out-only");
    let raw = WasmConsumerConfigRaw {
        outputs: vec![out_raw("out", &addr)],
        ..minimal_wasm_consumer()
    };
    assert_eq!(refusal(raw, &dir), WasmFaultKind::OutputsWithoutInputs);
}

#[test]
fn resolved_consumer_carries_port_and_channel_info() {
    let in_e = brenn_entry("brenn:in-ch");
    let out_e = brenn_entry("brenn:out-ch");
    let in_uuid = in_e.uuid;
    let out_uuid = out_e.uuid;
    let dir = dir_of(vec![in_e, out_e]);
    let raw = WasmConsumerConfigRaw {
        slug: "my-consumer".to_string(),
        component_path: "/tmp/a.wasm".to_string(),
        grants: vec![WasmGrant::Ports],
        publish_acl: vec![exact("out-ch")],
        subscriptions: vec![sub_raw("brenn:in-ch", "data-in")],
        outputs: vec![out_raw("data-out", "brenn:out-ch")],
        ..minimal_wasm_consumer()
    };
    let result = resolve(&[raw], &dir);
    assert_eq!(result.len(), 1);
    let c = &result[0];
    assert_eq!(c.slug, "my-consumer");
    assert_eq!(c.component_path, "/tmp/a.wasm");
    assert_eq!(c.inputs.len(), 1);
    assert_eq!(c.inputs[0].port, "data-in");
    assert_eq!(c.inputs[0].sub.channel_uuid, in_uuid);
    assert_eq!(c.inputs[0].sub.channel_address, "brenn:in-ch");
    assert_eq!(c.outputs.len(), 1);
    assert_eq!(c.outputs[0].port, "data-out");
    assert_eq!(c.outputs[0].channel_uuid, out_uuid);
    assert_eq!(c.outputs[0].channel_address, "brenn:out-ch");
    assert_eq!(c.outputs[0].default_urgency, Urgency::Normal);
    assert_eq!(c.grants, vec![WasmGrant::Ports]);
}

#[test]
fn bound_output_with_empty_publish_acl_panics() {
    let dir = dir_of(vec![brenn_entry("brenn:bound-in"), brenn_entry("brenn:bound-out")]);
    let raw = WasmConsumerConfigRaw {
        slug: "bound-empty-acl".to_string(),
        grants: vec![WasmGrant::Ports],
        subscriptions: vec![sub_raw("brenn:bound-in", "in")],
        outputs: vec![out_raw("out", "brenn:bound-out")],
        ..minimal_wasm_consumer()
    };
    assert_eq!(refusal(raw, &dir), WasmFaultKind::OutputsWithoutAcl);
}

#[test]
fn ports_grant_no_outputs_empty_publish_acl_resolves() {
    let (dir, addr) = make_brenn_dir("brenn:no-outputs-ch");
    let raw = WasmConsumerConfigRaw {
        slug: "ports-no-outputs".to_string(),
        grants: vec![WasmGrant::Ports],
        subscriptions: vec![sub_raw(&addr, "in")],
        ..minimal_wasm_consumer()
    };
    let resolved = resolve(&[raw], &dir);
    assert_eq!(resolved.len(), 1);
    assert!(resolved[0].outputs.is_empty(), "no output ports resolved");
}

#[test]
fn non_empty_publish_acl_without_ports_grant_panics() {
    let (dir, addr) = make_brenn_dir("brenn:dead-acl-ch");
    let mut raw = minimal_wasm_consumer_raw("dead-publish-acl", "/tmp/a.wasm", &addr);
    raw.publish_acl = vec![exact("events")];
    assert_eq!(refusal(raw, &dir), WasmFaultKind::PublishAclNotGranted);
}

#[test]
fn duplicate_output_port_names_panic() {
    let dir = dir_of(vec![
        brenn_entry("brenn:in-ch"),
        brenn_entry("brenn:out-ch1"),
        brenn_entry("brenn:out-ch2"),
    ]);
    let raw = WasmConsumerConfigRaw {
        subscriptions: vec![sub_raw("brenn:in-ch", "in")],
        outputs: vec![out_raw("same-out", "brenn:out-ch1"), out_raw("same-out", "brenn:out-ch2")],
        ..minimal_wasm_consumer()
    };
    assert_eq!(refusal(raw, &dir), WasmFaultKind::DuplicatePort);
}

#[test]
fn empty_port_name_panics() {
    let (dir, addr) = make_brenn_dir("brenn:empty-port-ch");
    let raw = WasmConsumerConfigRaw {
        subscriptions: vec![sub_raw(&addr, "")],
        ..minimal_wasm_consumer()
    };
    assert_eq!(refusal(raw, &dir), WasmFaultKind::EmptyPort);
}

#[test]
fn reserved_char_port_name_panics() {
    let (dir, addr) = make_brenn_dir("brenn:reserved-port-ch");
    let raw = WasmConsumerConfigRaw {
        subscriptions: vec![sub_raw(&addr, "port:x")],
        ..minimal_wasm_consumer()
    };
    assert_eq!(refusal(raw, &dir), WasmFaultKind::PortCharset);
}

#[test]
fn ports_on_unusable_channels_are_refused() {
    let (dir, _) = make_brenn_dir("brenn:known");
    let raw = WasmConsumerConfigRaw {
        subscriptions: vec![sub_raw("brenn:unknown", "in")],
        ..minimal_wasm_consumer()
    };
    assert_eq!(refusal(raw, &dir), WasmFaultKind::UnknownChannel);

    let (dir, addr) = make_brenn_dir("brenn:twice");
    let raw = WasmConsumerConfigRaw {
        subscriptions: vec![sub_raw(&addr, "one"), sub_raw(&addr, "two")],
        ..minimal_wasm_consumer()
    };
    assert_eq!(refusal(raw, &dir), WasmFaultKind::DuplicateChannel);

    let (dir, addr) = make_brenn_dir("brenn:known-in");
    let raw = WasmConsumerConfigRaw {
        subscriptions: vec![sub_raw(&addr, "in")],
        outputs: vec![out_raw("out", "brenn:nowhere")],
        ..minimal_wasm_consumer()
    };
    assert_eq!(refusal(raw, &dir), WasmFaultKind::UnknownOutputChannel);
}

fn store(path: &str, parent_exists: bool, absolute: Option<&str>) -> Option<StorePath> {
    Some(StorePath {
        path: path.to_string(),
        parent_exists,
        absolute: absolute.map(|p| p.to_string()),
    })
}

fn store_consumer(addr: &str) -> WasmConsumerConfigRaw {
    WasmConsumerConfigRaw {
        grants: vec![WasmGrant::Store],
        store_path: store("data/store.sqlite", true, Some("/srv/data/store.sqlite")),
        subscriptions: vec![sub_raw(addr, "in")],
        ..minimal_wasm_consumer()
    }
}

#[test]
fn missing_store_path_parent_panics() {
    let (dir, addr) = make_brenn_dir("brenn:no-parent-ch");
    let mut raw = store_consumer(&addr);
    raw.store_path = store("/nonexistent_dir_xyz_brenn_test/store.sqlite", false, None);
    assert_eq!(refusal(raw, &dir), WasmFaultKind::StoreParentMissing);
}

#[test]
fn a_store_resolves_to_its_absolute_path_and_own_limit() {
    let (dir, addr) = make_brenn_dir("brenn:store-ok");
    let plain = resolve(&[store_consumer(&addr)], &dir);
    assert_eq!(plain[0].store_path.as_deref(), Some("/srv/data/store.sqlite"));
    assert_eq!(plain[0].max_page_count, GLOBAL_PAGES);
    let mut raw = store_consumer(&addr);
    raw.store_page_limit = Some(77);
    assert_eq!(resolve(&[raw], &dir)[0].max_page_count, 77);
    let mut raw = store_consumer(&addr);
    raw.store_path = store("store.sqlite", true, None);
    assert_eq!(refusal(raw, &dir), WasmFaultKind::StorePathUnresolved);
}

#[test]
fn wasm_consumer_config_carried_through() {
    let (dir, addr) = make_brenn_dir("brenn:config-test");
    let entries = vec![
        ("max-entries".to_string(), "512".to_string()),
        ("mode".to_string(), "strict".to_string()),
    ];
    let raw = WasmConsumerConfigRaw {
        slug: "cfg-consumer".to_string(),
        grants: vec![WasmGrant::Config],
        config: Some(entries.clone()),
        subscriptions: vec![sub_raw(&addr, "in")],
        ..minimal_wasm_consumer()
    };
    let result = resolve(&[raw], &dir);
    assert_eq!(result[0].config, entries);
    assert_eq!(result[0].grants, vec![WasmGrant::Config]);
}

#[test]
fn wasm_consumer_absent_config_gives_empty_map() {
    let (dir, chan_addr) = make_brenn_dir("brenn:no-config-test");
    let raw = vec![minimal_wasm_consumer_raw("no-cfg", "/tmp/a.wasm", &chan_addr)];
    let result = resolve(&raw, &dir);
    assert!(result[0].config.is_empty(), "absent config table must yield empty map");
}

#[test]
fn duplicate_grant_entry_panics() {
    let (dir, addr) = make_brenn_dir("brenn:dup-grant-test");
    let mut raw = minimal_wasm_consumer_raw("dup-grant", "/tmp/a.wasm", &addr);
    raw.grants = vec![WasmGrant::Ports, WasmGrant::Ports];
    assert_eq!(refusal(raw, &dir), WasmFaultKind::DuplicateGrant);
}

#[test]
fn outputs_without_ports_grant_panics() {
    let dir = dir_of(vec![
        brenn_entry("brenn:out-no-ports-in"),
        brenn_entry("brenn:out-no-ports-out"),
    ]);
    let raw = WasmConsumerConfigRaw {
        subscriptions: vec![sub_raw("brenn:out-no-ports-in", "in")],
        outputs: vec![out_raw("out", "brenn:out-no-ports-out")],
        ..minimal_wasm_consumer()
    };
    assert_eq!(refusal(raw, &dir), WasmFaultKind::OutputsNotGranted);
}

#[test]
fn config_table_without_config_grant_panics() {
    let (dir, addr) = make_brenn_dir("brenn:cfg-no-grant-test");
    let mut raw = minimal_wasm_consumer_raw("cfg-no-grant", "/tmp/a.wasm", &addr);
    raw.config = Some(vec![("key".to_string(), "val".to_string())]);
    assert_eq!(refusal(raw, &dir), WasmFaultKind::ConfigNotGranted);
}

#[test]
fn store_path_without_store_grant_panics() {
    let (dir, addr) = make_brenn_dir("brenn:store-path-no-grant-test");
    let mut raw = minimal_wasm_consumer_raw("store-path-no-grant", "/tmp/a.wasm", &addr);
    raw.store_path = store("/nonexistent/x.sqlite", false, None);
    assert_eq!(refusal(raw, &dir), WasmFaultKind::StorePathNotGranted);
}

#[test]
fn store_size_limit_without_store_grant_panics() {
    let (dir, addr) = make_brenn_dir("brenn:store-limit-no-grant-test");
    let mut raw = minimal_wasm_consumer_raw("store-limit-no-grant", "/tmp/a.wasm", &addr);
    raw.store_page_limit = Some(8192);
    assert_eq!(refusal(raw, &dir), WasmFaultKind::StoreLimitNotGranted);
}

#[test]
fn store_grant_without_store_path_panics() {
    let (dir, addr) = make_brenn_dir("brenn:store-grant-no-path-test");
    let mut raw = minimal_wasm_consumer_raw("store-grant-no-path", "/tmp/a.wasm", &addr);
    raw.grants = vec![WasmGrant::Store];
    assert_eq!(refusal(raw, &dir), WasmFaultKind::StorePathMissing);
}

#[test]
fn wasm_publish_knobs_absent_resolve_to_defaults() {
    let (dir, _) = make_brenn_dir("brenn:budget-defaults");
    let resolved = resolve(&[budget_consumer("budget-defaults")], &dir);
    let c = &resolved[0];
    assert_eq!(c.inputs[0].amplification_mt, 1000, "default amplification 1.0");
    assert_eq!(c.outputs[0].budget, SinkBudget { fill_mt: 1000, capacity_mt: 1000 });
}

#[test]
fn wasm_publish_knobs_explicit_convert_to_millitokens() {
    let (dir, _) = make_brenn_dir("brenn:budget-explicit");
    let mut raw = budget_consumer("budget-explicit");
    raw.subscriptions[0].amplification_mt = Some(100);
    raw.outputs[0].publish_per_activation_mt = Some(2500);
    raw.outputs[0].publish_capacity_mt = Some(0);
    let resolved = resolve(&[raw], &dir);
    let c = &resolved[0];
    assert_eq!(c.inputs[0].amplification_mt, 100);
    assert_eq!(c.outputs[0].budget, SinkBudget { fill_mt: 2500, capacity_mt: 0 });
}

fn mqtt_consumer(chan: &str) -> WasmConsumerConfigRaw {
    let mut raw = budget_consumer(chan);
    raw.grants = vec![WasmGrant::Ports, WasmGrant::Mqtt];
    raw.mqtt_publish_acl = vec![client("home")];
    raw
}

fn mqtt_out(slug: &str, fill: Option<u64>, capacity: Option<u64>) -> WasmConsumerMqttOutputRaw {
    WasmConsumerMqttOutputRaw {
        client: slug.to_string(),
        publish_per_activation_mt: fill,
        publish_capacity_mt: capacity,
    }
}

fn mqtt_refusal(raw: WasmConsumerConfigRaw, dir: &MessagingDirectory, slugs: &[&str]) -> WasmFaultKind {
    resolve_wasm_consumers(&[raw], dir, GLOBAL_PAGES, &declared_clients(slugs))
        .unwrap_err()
        .kind
}

#[test]
fn wasm_mqtt_sink_defaults_from_publish_acl() {
    let (dir, _) = make_brenn_dir("brenn:mqtt-default-sink");
    let raw = mqtt_consumer("mqtt-default-sink");
    let resolved =
        resolve_wasm_consumers(&[raw], &dir, GLOBAL_PAGES, &declared_clients(&["home"])).unwrap();
    assert_eq!(
        resolved[0].mqtt_sink("home"),
        Some(SinkBudget { fill_mt: 1000, capacity_mt: 1000 }),
        "an ACL-allowed client gets a default-budget sink",
    );
    assert_eq!(resolved[0].mqtt_sink("away"), None);
}

#[test]
fn a_client_listed_twice_gets_one_sink() {
    let (dir, _) = make_brenn_dir("brenn:mqtt-two");
    let mut raw = mqtt_consumer("mqtt-two");
    raw.mqtt_publish_acl = vec![client("home"), client("away"), client("home")];
    let clients = declared_clients(&["home", "away"]);
    let resolved = resolve_wasm_consumers(&[raw], &dir, GLOBAL_PAGES, &clients).unwrap();
    let names: Vec<&str> = resolved[0].mqtt_sinks.iter().map(|s| s.client.as_str()).collect();
    assert_eq!(names, vec!["home", "away"]);
}

#[test]
fn wasm_mqtt_output_override_honored() {
    let (dir, _) = make_brenn_dir("brenn:mqtt-override");
    let mut raw = mqtt_consumer("mqtt-override");
    raw.mqtt_outputs = vec![mqtt_out("home", Some(5000), Some(3000))];
    let resolved =
        resolve_wasm_consumers(&[raw], &dir, GLOBAL_PAGES, &declared_clients(&["home"])).unwrap();
    assert_eq!(
        resolved[0].mqtt_sink("home"),
        Some(SinkBudget { fill_mt: 5000, capacity_mt: 3000 })
    );
}

#[test]
fn wasm_dead_sink_zero_fill_zero_amplification_panics() {
    let (dir, _) = make_brenn_dir("brenn:dead-sink");
    let mut raw = budget_consumer("dead-sink");
    raw.subscriptions[0].amplification_mt = Some(0);
    raw.outputs[0].publish_per_activation_mt = Some(0);
    assert_eq!(refusal(raw, &dir), WasmFaultKind::DeadSink);
}

#[test]
fn a_fill_of_zero_is_kept_alive_by_an_amplifying_input() {
    let (dir, _) = make_brenn_dir("brenn:input-driven");
    let mut raw = budget_consumer("input-driven");
    raw.outputs[0].publish_per_activation_mt = Some(0);
    assert_eq!(
        resolve(&[raw], &dir)[0].outputs[0].budget,
        SinkBudget { fill_mt: 0, capacity_mt: 1000 }
    );
}

#[test]
fn wasm_explicit_amplification_on_pull_only_input_panics() {
    let dir = make_two_brenn_dirs("brenn:push-in", "brenn:pull-in");
    let raw = WasmConsumerConfigRaw {
        grants: vec![WasmGrant::Ports],
        subscriptions: vec![
            WasmConsumerSubscriptionRaw {
                push_depth: Some(Depth::Bounded(1)),
                ..sub_raw("brenn:push-in", "push")
            },
            WasmConsumerSubscriptionRaw {
                push_depth: Some(Depth::Bounded(0)),
                amplification_mt: Some(1000),
                ..sub_raw("brenn:pull-in", "pull")
            },
        ],
        outputs: vec![out_raw("out", "brenn:push-in")],
        publish_acl: vec![exact("push-in")],
        ..minimal_wasm_consumer()
    };
    assert_eq!(refusal(raw, &dir), WasmFaultKind::AmplificationWithoutQueue);
}

#[test]
fn wasm_dead_sink_pull_only_amplification_does_not_rescue() {
    let dir = make_two_brenn_dirs("brenn:push-in2", "brenn:pull-in2");
    let raw = WasmConsumerConfigRaw {
        grants: vec![WasmGrant::Ports],
        subscriptions: vec![
            WasmConsumerSubscriptionRaw {
                push_depth: Some(Depth::Bounded(1)),
                amplification_mt: Some(0),
                ..sub_raw("brenn:push-in2", "push")
            },
            WasmConsumerSubscriptionRaw {
                push_depth: Some(Depth::Bounded(0)),
                ..sub_raw("brenn:pull-in2", "pull")
            },
        ],
        outputs: vec![WasmConsumerOutputRaw {
            publish_per_activation_mt: Some(0),
            ..out_raw("out", "brenn:push-in2")
        }],
        publish_acl: vec![exact("push-in2")],
        ..minimal_wasm_consumer()
    };
    assert_eq!(refusal(raw, &dir), WasmFaultKind::DeadSink);
}

#[test]
fn wasm_mqtt_output_unlisted_client_panics() {
    let (dir, _) = make_brenn_dir("brenn:mqtt-unlisted");
    let mut raw = mqtt_consumer("mqtt-unlisted");
    raw.mqtt_outputs = vec![mqtt_out("away", None, None)];
    assert_eq!(
        mqtt_refusal(raw, &dir, &["home", "away"]),
        WasmFaultKind::UncoveredMqttOutput
    );
}

#[test]
fn wasm_mqtt_output_duplicate_client_panics() {
    let (dir, _) = make_brenn_dir("brenn:mqtt-dup");
    let mut raw = mqtt_consumer("mqtt-dup");
    raw.mqtt_outputs = vec![mqtt_out("home", Some(2000), None), mqtt_out("home", Some(3000), None)];
    assert_eq!(mqtt_refusal(raw, &dir, &["home"]), WasmFaultKind::DuplicateMqttOutput);
}

#[test]
fn a_dead_mqtt_sink_is_refused() {
    let (dir, _) = make_brenn_dir("brenn:mqtt-dead");
    let mut raw = mqtt_consumer("mqtt-dead");
    raw.subscriptions[0].amplification_mt = Some(0);
    raw.mqtt_outputs = vec![mqtt_out("home", Some(0), None)];
    assert_eq!(mqtt_refusal(raw, &dir, &["home"]), WasmFaultKind::DeadMqttSink);
}

#[test]
fn build_messaging_panics_on_wasm_mqtt_matcher_undeclared_client() {
    let mut raw = minimal_wasm_consumer();
    raw.slug = "undeclared".to_string();
    raw.grants = vec![WasmGrant::Mqtt];
    raw.mqtt_publish_acl = vec![client("home")];
    assert_eq!(
        mqtt_refusal(raw, &dir_of(vec![]), &[]),
        WasmFaultKind::UndeclaredPublishClient
    );
}

#[test]
fn build_messaging_panics_on_wasm_mqtt_subscribe_matcher_undeclared_client() {
    let mut raw = minimal_wasm_consumer();
    raw.slug = "undeclared-sub".to_string();
    raw.mqtt_subscribe_acl = vec![MqttSubMatcher {
        client: "home".to_string(),
        topic_filter: "sensors/#".to_string(),
    }];
    assert_eq!(
        mqtt_refusal(raw, &dir_of(vec![]), &[]),
        WasmFaultKind::UndeclaredSubscribeClient
    );
}

#[test]
fn build_messaging_panics_on_wasm_mqtt_publish_acl_without_mqtt_grant() {
    let mut raw = minimal_wasm_consumer();
    raw.slug = "aclless".to_string();
    raw.mqtt_publish_acl = vec![client("home")];
    assert_eq!(
        mqtt_refusal(raw, &dir_of(vec![]), &["home"]),
        WasmFaultKind::MqttAclNotGranted
    );
}

#[test]
fn a_policy_holds_a_transport_only_where_its_list_has_an_entry() {
    let (dir, addr) = make_brenn_dir("brenn:policy");
    let bare = resolve(&[minimal_wasm_consumer_raw("bare", "/tmp/a.wasm", &addr)], &dir);
    assert!(!bare[0].policy.grants.has(AppCapability::MessagingSubscribe));
    assert!(!bare[0].policy.allows_channel_access(&addr));

    let mut raw = minimal_wasm_consumer_raw("hooked", "/tmp/a.wasm", &addr);
    raw.subscribe_acl = vec![exact("policy")];
    raw.webhook_acl = vec![WebhookMatcher { endpoint: "push-alice".to_string() }];
    raw.mqtt_subscribe_acl = vec![MqttSubMatcher {
        client: "home".to_string(),
        topic_filter: "sensors/+".to_string(),
    }];
    raw.mqtt_covered = vec!["mqtt:home:sensors/temp".to_string()];
    let resolved =
        resolve_wasm_consumers(&[raw], &dir, GLOBAL_PAGES, &declared_clients(&["home"])).unwrap();
    let policy = &resolved[0].policy;
    assert!(policy.allows_channel_access(&addr));
    assert!(policy.allows_channel_access("webhook:push-alice"));
    assert!(!policy.allows_channel_access("webhook:push-bob"));
    assert!(policy.allows_channel_access("mqtt:home:sensors/temp"));
    assert!(!policy.allows_channel_access("mqtt:home:sensors/other/deep"));
    assert!(!policy.grants.has(AppCapability::MessagingPublish));
}
