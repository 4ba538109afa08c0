//! The messaging side of boot: apps, channels, participants, delivery and wiring.

use brenn_server::address::ChannelScheme;
use brenn_server::apps::{
    build_apps_with_messaging, merge_apps_for_messenger, AppConfig, ResolvedMessagingConfig,
    ResolvedWebhookSubscription,
};
use brenn_server::channels::{
    messaging_configured, system_publisher_bare_channel, transport_channel_entries,
    MessagingConfig, ParticipantsConfig, WebhookEndpoint,
};
use brenn_server::clients::MqttClient;
use brenn_server::delivery::{
    collect_system_participants, validate_static_subscriptions_deliverable, DeadReason,
    Participants, SystemParticipantSpec, Undeliverable,
};
use brenn_server::directory::{
    ChannelEntry, MessagingDirectory, ResolvedChannel, SubscriberEntry, SubscriberEntryKind,
};
use brenn_server::draft::{
    draft_messaging, resolve_participants, wire_tool_channels, MessagingDraft, MessagingFault,
    ToolInbox,
};
use brenn_server::dynamic::{
    dynamic_mqtt_ingress, referenced_channels, restore_channels, DynamicSubscription, StoredFault,
    StoredRowFault,
};
use brenn_server::model::{Depth, NoiseLevel, Sink, Urgency, WakeEconomics, WakeMin};
use brenn_server::mqtt::{DynamicMqttIngress, ResolvedMqttIngressChannel};
use brenn_server::policy::{
    AppCapability, AppPolicy, ChannelMatcher, MqttSubMatcher, ToolClause, ToolGrant, ToolRateLimit,
    WebhookMatcher,
};
use brenn_server::surface_grants::UncoveredOutput;
use brenn_server::surface_model::{
    AttachSendBudget, AutoWiring, MessagingGlobalConfig, ResolvedSubscription, SendRate,
    SurfaceComponentRaw, SurfaceConfigRaw, SurfaceFaultKind, SurfaceGrant, SurfaceLimits,
    SurfaceOutputRaw, SurfaceSubscriptionRaw,
};
use brenn_server::surfaces::build_surface_policy;
use brenn_server::wasm::TOOL_RESULT_INPUT_PORT;
use brenn_server::wasm_model::{
    WasmConsumerConfigRaw, WasmConsumerOutputRaw, WasmConsumerSubscriptionRaw, WasmFaultKind,
    WasmGrant, WasmInputPort,
};
use brenn_server::wiring::{
    assert_every_subscriber_wired, delivery_bindings, subscriber_registrations,
    tool_caller_grants, tool_executor_grants, CallerGrants, DeliveryBinding, DeliveryRoute,
    MissingWire, SubscriberRegistration, Unwired,
};
use indexmap::IndexMap;

fn globals() -> MessagingGlobalConfig {
    MessagingGlobalConfig {
        default_push_depth: Depth::Unbounded,
        default_retain_depth: Depth::Unbounded,
        default_standing_retain_depth: Depth::Bounded(1),
        default_noise: NoiseLevel::Silent,
        default_sink: Sink::Drop,
        default_wake_min: WakeMin::Normal,
        default_send_budget: 100,
        default_send_rate: SendRate { burst: 240, refill: 60, refill_interval_secs: 1 },
    }
}

fn limits() -> SurfaceLimits {
    SurfaceLimits {
        max_subscription_bindings: 64,
        max_components: 32,
        default_publish_burst: 60,
        default_publish_per_sec: 4,
        default_send: AttachSendBudget { burst: 256, refill_secs: 60 },
        skins: vec!["bench".to_string()],
    }
}

fn uuid_of(address: &str) -> u128 {
    address.bytes().fold(1u128, |acc, b| acc.wrapping_mul(257).wrapping_add(b as u128))
}

fn entry(address: &str, transport_type: ChannelScheme) -> ChannelEntry {
    ChannelEntry {
        uuid: uuid_of(address),
        address: address.to_string(),
        description: None,
        resolved_channel: ResolvedChannel {
            push_depth: Depth::Unbounded,
            retain_depth: Depth::Unbounded,
            standing_retain_depth: Depth::Unbounded,
            noise: NoiseLevel::Silent,
            sink: Sink::Drop,
            wake_min: WakeMin::Normal,
        },
        subscribers: vec![],
        transport_type,
        mount: None,
    }
}

fn ephemeral(name: &str) -> ChannelEntry {
    let mut channel = entry(&format!("ephemeral:{name}"), ChannelScheme::Ephemeral);
    channel.resolved_channel.retain_depth = Depth::Bounded(1);
    channel
}

fn subscribed(mut channel: ChannelEntry, kinds: Vec<SubscriberEntryKind>) -> ChannelEntry {
    channel.subscribers = kinds
        .into_iter()
        .map(|kind| SubscriberEntry {
            kind,
            push_depth: Depth::Unbounded,
            retain_depth: Depth::Unbounded,
            noise: NoiseLevel::Silent,
            wake_min: None,
        })
        .collect();
    channel
}

fn app(slug: &str) -> SubscriberEntryKind {
    SubscriberEntryKind::App(slug.to_string())
}

fn wasm(slug: &str) -> SubscriberEntryKind {
    SubscriberEntryKind::Wasm(slug.to_string())
}

fn surface(slug: &str, instance: Option<&str>) -> SubscriberEntryKind {
    SubscriberEntryKind::Surface {
        slug: slug.to_string(),
        instance: instance.map(|i| i.to_string()),
    }
}

fn system(component: &str) -> SubscriberEntryKind {
    SubscriberEntryKind::System(component.to_string())
}

fn subscription(address: &str) -> ResolvedSubscription {
    ResolvedSubscription {
        channel_uuid: uuid_of(address),
        channel_address: address.to_string(),
        push_depth: Depth::Unbounded,
        retain_depth: Depth::Unbounded,
        noise: NoiseLevel::Silent,
        wake_min: WakeMin::Normal,
    }
}

fn webhook_subscription(endpoint: &str) -> ResolvedWebhookSubscription {
    ResolvedWebhookSubscription {
        endpoint_slug: endpoint.to_string(),
        channel_uuid: uuid_of(&format!("webhook:{endpoint}")),
        wake_min: WakeMin::Normal,
    }
}

fn minimal_app(
    messaging: Option<ResolvedMessagingConfig>,
    webhook_subscriptions: Vec<ResolvedWebhookSubscription>,
) -> AppConfig {
    AppConfig {
        policy: AppPolicy::new(),
        messaging,
        webhook_subscriptions,
        mqtt_subscriptions: vec![],
        messaging_enabled: false,
    }
}

fn one_app(slug: &str, config: AppConfig) -> IndexMap<String, AppConfig> {
    IndexMap::from([(slug.to_string(), config)])
}

fn no_apps() -> IndexMap<String, AppConfig> {
    IndexMap::new()
}

fn covering(name: &str) -> AppPolicy {
    let mut policy = AppPolicy::new();
    policy.grant(AppCapability::MessagingSubscribe, name);
    policy
}

fn minimal_consumer(slug: &str) -> WasmConsumerConfigRaw {
    WasmConsumerConfigRaw {
        slug: slug.to_string(),
        component_path: "/nonexistent/probe.wasm".to_string(),
        grants: vec![],
        subscribe_acl: vec![],
        publish_acl: vec![],
        mqtt_publish_acl: vec![],
        mqtt_subscribe_acl: vec![],
        mqtt_covered: vec![],
        webhook_acl: vec![],
        store_path: None,
        store_page_limit: None,
        subscriptions: vec![],
        outputs: vec![],
        config: None,
        activation_burst: None,
        activation_min_period_ms: None,
        mqtt_outputs: vec![],
        tool_grants: vec![],
    }
}

fn input(channel: &str) -> WasmConsumerSubscriptionRaw {
    WasmConsumerSubscriptionRaw {
        channel: channel.to_string(),
        port: "in".to_string(),
        push_depth: Some(Depth::Unbounded),
        retain_depth: None,
        noise: None,
        wake_min: None,
        amplification_mt: None,
    }
}

fn reading_consumer(slug: &str, channel: &str, acl: &[&str]) -> WasmConsumerConfigRaw {
    WasmConsumerConfigRaw {
        subscribe_acl: acl.iter().map(|n| ChannelMatcher::Exact(n.to_string())).collect(),
        subscriptions: vec![input(channel)],
        ..minimal_consumer(slug)
    }
}

fn component(kind: &str, chrome: bool) -> SurfaceComponentRaw {
    SurfaceComponentRaw {
        kind: kind.to_string(),
        instance: None,
        abi: "dom".to_string(),
        send_burst: None,
        send_refill_secs: None,
        parked_batch_depth: None,
        config: None,
        chrome,
    }
}

fn minimal_surface(slug: &str) -> SurfaceConfigRaw {
    SurfaceConfigRaw {
        slug: slug.to_string(),
        grants: vec![],
        subscribe_acl: vec![],
        publish_acl: vec![],
        ephemeral_subscribe_acl: vec![],
        ephemeral_publish_acl: vec![],
        components: vec![component("protobar", false), component("chrome", true)],
        subscriptions: vec![],
        outputs: vec![],
        io_ports: vec![],
        skin: None,
        allowed_users: vec![],
        publish_burst: None,
        publish_per_sec: None,
    }
}

fn demo_surface() -> SurfaceConfigRaw {
    SurfaceConfigRaw {
        grants: vec![SurfaceGrant::EphemeralSubscribe],
        ephemeral_subscribe_acl: vec![ChannelMatcher::Exact("protobar-demo".to_string())],
        subscriptions: vec![SurfaceSubscriptionRaw {
            channel: Some("ephemeral:protobar-demo".to_string()),
            instance: "protobar".to_string(),
            port: "messages".to_string(),
            push_depth: Some(Depth::Bounded(8)),
            retain_depth: None,
            noise: None,
            wake_min: None,
        }],
        ..minimal_surface("deskbar")
    }
}

fn alerting_output(channel: &str) -> SurfaceOutputRaw {
    SurfaceOutputRaw {
        instance: "protobar".to_string(),
        port: "out".to_string(),
        channel: Some(channel.to_string()),
        urgency: None,
        publish_per_activation_mt: None,
        publish_capacity_mt: None,
    }
}

fn participants_config(
    wasm_consumers: Vec<WasmConsumerConfigRaw>,
    surfaces: Vec<SurfaceConfigRaw>,
) -> ParticipantsConfig {
    ParticipantsConfig {
        wasm_consumers,
        surfaces,
        globals: globals(),
        auto_wiring: AutoWiring { ports: vec![], grants: vec![] },
        surface_limits: limits(),
        store_page_limit: 16384,
        surface_error_channel: None,
        description_prefix: "surface".to_string(),
    }
}

fn empty_config() -> MessagingConfig {
    MessagingConfig {
        channels: vec![],
        ephemeral_channels: vec![],
        participants: participants_config(vec![], vec![]),
    }
}

fn draft_of(config: ParticipantsConfig, channels: Vec<ChannelEntry>) -> MessagingDraft {
    resolve_participants(&config, channels, vec![], &IndexMap::new()).unwrap()
}

fn deliverable(
    directory: &MessagingDirectory,
    apps: &IndexMap<String, AppConfig>,
    draft: &MessagingDraft,
) -> Result<(), Vec<Undeliverable>> {
    validate_static_subscriptions_deliverable(
        directory,
        &Participants {
            apps,
            wasm_consumers: &draft.wasm_consumers,
            surfaces: &draft.surfaces,
            system_participants: &[],
        },
    )
}

fn dead(reason: DeadReason) -> Result<(), Vec<Undeliverable>> {
    Err(vec![Undeliverable { channel: 0, subscriber: 0, reason }])
}

// --- apps ---

#[test]
fn webhook_only_app_included_in_apps_with_messaging() {
    let slug = "phonebuddy";
    let endpoint_slug = "pb-events";
    let apps = one_app(slug, minimal_app(None, vec![webhook_subscription(endpoint_slug)]));
    let result = build_apps_with_messaging(&apps, &globals());
    assert_eq!(result.len(), 1, "webhook-only app must be included");
    let (result_slug, result_cfg) = &result[0];
    assert_eq!(result_slug, slug);
    assert_eq!(result_cfg.send_budget, 100);
    assert_eq!(result_cfg.subscriptions.len(), 1, "one subscription expected");
    let sub = &result_cfg.subscriptions[0];
    assert_eq!(
        sub.channel_address,
        format!("webhook:{endpoint_slug}"),
        "channel_address must be webhook:<slug>"
    );
    assert_eq!(sub.channel_uuid, uuid_of("webhook:pb-events"));
    assert!(
        sub.push_depth.is_push_enabled(),
        "push_depth must be push-enabled so Immediate wakes survive"
    );
}

#[test]
fn mqtt_only_app_included_in_apps_with_messaging() {
    let slug = "pa-alice";
    let address = "mqtt:ha:home/+/state";
    let mut config = minimal_app(None, vec![]);
    config.mqtt_subscriptions = vec![subscription(address)];
    let result = build_apps_with_messaging(&one_app(slug, config), &globals());
    assert_eq!(result.len(), 1, "mqtt-only app must be included");
    let (result_slug, result_cfg) = &result[0];
    assert_eq!(result_slug, slug);
    assert_eq!(result_cfg.subscriptions.len(), 1, "one mqtt subscription expected");
    let sub = &result_cfg.subscriptions[0];
    assert_eq!(sub.channel_address, address);
    assert_eq!(sub.channel_uuid, uuid_of(address));
    assert!(sub.push_depth.is_push_enabled());
}

#[test]
fn merged_apps_map_contains_mqtt_subscription() {
    let slug = "pa-alice";
    let address = "mqtt:ha:home/+/state";
    let mut config = minimal_app(None, vec![]);
    config.mqtt_subscriptions = vec![subscription(address)];
    let apps = one_app(slug, config);
    let listed = build_apps_with_messaging(&apps, &globals());
    let merged = merge_apps_for_messenger(&apps, &listed).unwrap();
    let merged_app = merged.get(slug).expect("app must be in merged map");
    let merged_msg = merged_app
        .messaging
        .as_ref()
        .expect("merged app must have messaging (synthesised from mqtt sub)");
    let mqtt_sub =
        merged_msg.subscriptions.iter().find(|s| s.channel_address == address).unwrap();
    assert!(
        mqtt_sub.push_depth.is_push_enabled(),
        "merged mqtt subscription must have push-enabled depth (Unbounded)"
    );
}

#[test]
fn app_with_no_messaging_excluded() {
    let apps = one_app("silent-app", minimal_app(None, vec![]));
    let result = build_apps_with_messaging(&apps, &globals());
    assert!(result.is_empty(), "app with no messaging must be excluded");
}

#[test]
fn merged_apps_map_contains_webhook_subscription_webhook_only_shape() {
    let slug = "phonebuddy";
    let endpoint_slug = "pb-events";
    let apps = one_app(slug, minimal_app(None, vec![webhook_subscription(endpoint_slug)]));
    let listed = build_apps_with_messaging(&apps, &globals());
    let merged = merge_apps_for_messenger(&apps, &listed).unwrap();
    let merged_app = merged.get(slug).expect("app must be in merged map");
    let merged_msg = merged_app
        .messaging
        .as_ref()
        .expect("merged app must have messaging (synthesised from webhook sub)");
    let webhook_sub = merged_msg
        .subscriptions
        .iter()
        .find(|s| s.channel_address == format!("webhook:{endpoint_slug}"))
        .unwrap();
    assert!(
        webhook_sub.push_depth.is_push_enabled(),
        "merged webhook subscription must have push-enabled depth (Unbounded)"
    );
}

#[test]
fn merged_apps_map_contains_webhook_subscription_brenn_plus_webhook_shape() {
    let slug = "pa-alice";
    let endpoint_slug = "push-alice";
    let brenn_channel_addr = "brenn:some-channel".to_string();
    let apps = one_app(
        slug,
        minimal_app(
            Some(ResolvedMessagingConfig {
                send_budget: 100,
                subscriptions: vec![subscription(&brenn_channel_addr)],
            }),
            vec![webhook_subscription(endpoint_slug)],
        ),
    );
    let listed = build_apps_with_messaging(&apps, &globals());
    let merged = merge_apps_for_messenger(&apps, &listed).unwrap();
    let merged_app = merged.get(slug).expect("app must be in merged map");
    let merged_msg = merged_app.messaging.as_ref().expect("merged app must have messaging");
    assert!(
        merged_msg.subscriptions.iter().any(|s| s.channel_address == brenn_channel_addr),
        "merged app must retain the original brenn: subscription"
    );
    let webhook_sub = merged_msg
        .subscriptions
        .iter()
        .find(|s| s.channel_address == format!("webhook:{endpoint_slug}"))
        .unwrap();
    assert!(
        webhook_sub.push_depth.is_push_enabled(),
        "merged webhook subscription must have push-enabled depth (Unbounded)"
    );
    assert_eq!(
        merged_msg.subscriptions.len(),
        2,
        "merged config must have exactly 2 subscriptions (brenn + webhook)"
    );
}

#[test]
fn merging_leaves_the_other_apps_and_their_order_alone() {
    let mut apps = no_apps();
    apps.insert("quiet".to_string(), minimal_app(None, vec![]));
    apps.insert("loud".to_string(), minimal_app(None, vec![webhook_subscription("e")]));
    apps.insert("still".to_string(), minimal_app(None, vec![]));
    let listed = build_apps_with_messaging(&apps, &globals());
    assert_eq!(listed.len(), 1);
    let merged = merge_apps_for_messenger(&apps, &listed).unwrap();
    let slugs: Vec<&str> = merged.keys().map(|k| k.as_str()).collect();
    assert_eq!(slugs, vec!["quiet", "loud", "still"]);
    assert!(merged["quiet"].messaging.is_none());
    assert!(merged["loud"].messaging.is_some());
    assert!(merged["still"].messaging.is_none());
}

#[test]
fn a_side_for_an_unknown_app_is_refused_with_its_place() {
    let listed = vec![(
        "ghost".to_string(),
        ResolvedMessagingConfig { send_budget: 1, subscriptions: vec![] },
    )];
    assert_eq!(merge_apps_for_messenger(&no_apps(), &listed).err(), Some(0));
}

// --- channels ---

#[test]
fn messaging_configured_covers_wasm_consumer_only() {
    let config = empty_config();
    assert!(
        !messaging_configured(&config, &[], &[]),
        "a fully default config activates no messaging subsystem"
    );
    let mut with_consumer = empty_config();
    with_consumer.participants.wasm_consumers = vec![minimal_consumer("probe")];
    assert!(
        messaging_configured(&with_consumer, &[], &[]),
        "a wasm-consumer-only config must activate messaging"
    );
}

fn endpoint(slug: &str) -> WebhookEndpoint {
    WebhookEndpoint {
        slug: slug.to_string(),
        description: Some("pushes".to_string()),
        mount: "/var/hooks".to_string(),
        channel_uuid: uuid_of(&format!("webhook:{slug}")),
    }
}

fn ingress(client: &str, topic: &str) -> ResolvedMqttIngressChannel {
    let address = format!("mqtt:{client}:{topic}");
    ResolvedMqttIngressChannel {
        channel_uuid: uuid_of(&address),
        channel_address: address,
        client_slug: client.to_string(),
        topic: topic.to_string(),
        qos: 1,
        urgency: Urgency::Normal,
    }
}

#[test]
fn each_kind_of_declaration_turns_messaging_on() {
    assert!(messaging_configured(&empty_config(), &[endpoint("a")], &[]));
    assert!(messaging_configured(&empty_config(), &[], &[ingress("ha", "t")]));
    let mut config = empty_config();
    config.channels = vec![entry("brenn:a", ChannelScheme::Brenn)];
    assert!(messaging_configured(&config, &[], &[]));
    let mut config = empty_config();
    config.ephemeral_channels = vec![ephemeral("a")];
    assert!(messaging_configured(&config, &[], &[]));
    let mut config = empty_config();
    config.participants.surfaces = vec![minimal_surface("deskbar")];
    assert!(messaging_configured(&config, &[], &[]));
}

#[test]
fn build_messaging_derives_mqtt_channel_entry() {
    let address = "mqtt:homeassistant:home/+/state";
    let entries = transport_channel_entries(
        &[endpoint("push-alice")],
        &[ingress("homeassistant", "home/+/state")],
        &globals(),
    );
    assert_eq!(entries.len(), 2);
    assert_eq!(entries[0].address, "webhook:push-alice");
    assert_eq!(entries[0].transport_type, ChannelScheme::Webhook);
    assert_eq!(entries[0].mount.as_deref(), Some("/var/hooks"));
    assert_eq!(entries[0].description.as_deref(), Some("pushes"));
    assert_eq!(entries[1].address, address);
    assert_eq!(entries[1].transport_type, ChannelScheme::Mqtt);
    assert_eq!(entries[1].uuid, uuid_of(address));
    assert_eq!(entries[1].mount, None);
    for channel in &entries {
        assert_eq!(channel.resolved_channel.standing_retain_depth, Depth::Bounded(1));
        assert_eq!(channel.resolved_channel.push_depth, Depth::Unbounded);
        assert!(channel.subscribers.is_empty());
    }
}

#[test]
fn only_a_named_durable_channel_has_a_bare_name() {
    assert_eq!(system_publisher_bare_channel("brenn:errors").as_deref(), Some("errors"));
    assert_eq!(system_publisher_bare_channel("brenn:"), None);
    assert_eq!(system_publisher_bare_channel("ephemeral:errors"), None);
    assert_eq!(system_publisher_bare_channel("errors"), None);
}

// --- participants ---

#[test]
fn nothing_is_drafted_where_nothing_is_configured() {
    assert!(draft_messaging(empty_config(), &[], &[], &IndexMap::new()).unwrap().is_none());
}

#[test]
fn build_messaging_brings_up_surface_and_ephemeral_only_config() {
    let config = MessagingConfig {
        channels: vec![],
        ephemeral_channels: vec![ephemeral("protobar-demo")],
        participants: participants_config(vec![], vec![demo_surface()]),
    };
    let draft = draft_messaging(config, &[], &[], &IndexMap::new())
        .unwrap()
        .expect("a surface/ephemeral-only config must bring messaging up");
    assert_eq!(draft.ephemeral_channels.len(), 1);
    assert_eq!(draft.ephemeral_channels[0].address, "ephemeral:protobar-demo");
    assert!(draft.entries.is_empty());
    assert_eq!(draft.surfaces.len(), 1);
    assert_eq!(draft.surfaces[0].slug, "deskbar");
    assert_eq!(draft.surfaces[0].subscriptions.len(), 1);
    assert_eq!(draft.surfaces[0].subscriptions[0].channel_address, "ephemeral:protobar-demo");
    assert_eq!(draft.surface_subscriptions.len(), 1);
    assert_eq!(draft.surface_subscriptions[0].0, "deskbar");
    assert!(draft.surface_subscriptions[0].1.is_empty());
}

#[test]
fn build_messaging_brings_up_wasm_consumer_only_config() {
    let mut config = empty_config();
    config.participants.wasm_consumers = vec![minimal_consumer("probe")];
    let draft = draft_messaging(config, &[], &[], &IndexMap::new())
        .unwrap()
        .expect("a wasm-consumer-only config must bring messaging up");
    assert_eq!(draft.wasm_consumers.len(), 1);
    assert_eq!(draft.wasm_consumers[0].slug, "probe");
}

#[test]
fn every_surface_may_report_on_its_own_channels() {
    let mut config = participants_config(vec![], vec![minimal_surface("a"), minimal_surface("b")]);
    config.surface_error_channel = Some("brenn:surface-errors".to_string());
    let draft = draft_of(config, vec![entry("brenn:surface-errors", ChannelScheme::Brenn)]);
    let policy = &draft.surfaces[0].policy;
    assert!(policy.allows_brenn_publish("surface-errors"));
    assert!(policy.allows_brenn_publish("surface.surface.a.geometry"));
    assert!(policy.allows_brenn_publish("surface.surface.a.status"));
    assert!(!policy.allows_brenn_publish("surface.surface.b.status"));
    assert!(policy.allows_channel_access("ephemeral:surface.surface.a.bindings"));
    assert!(!policy.allows_channel_access("ephemeral:surface.surface.b.bindings"));
}

#[test]
fn an_error_channel_that_is_no_durable_channel_is_refused() {
    let mut config = participants_config(vec![], vec![minimal_surface("a")]);
    config.surface_error_channel = Some("ephemeral:errors".to_string());
    let fault = resolve_participants(&config, vec![], vec![], &IndexMap::new()).unwrap_err();
    assert!(matches!(fault, MessagingFault::ErrorChannel));
}

#[test]
fn an_uncovered_output_is_refused_unless_the_error_grant_covers_it() {
    let mut raw = minimal_surface("a");
    raw.outputs = vec![alerting_output("brenn:surface-errors")];
    let config = participants_config(vec![], vec![raw]);
    let channels = vec![entry("brenn:surface-errors", ChannelScheme::Brenn)];
    let fault = resolve_participants(&config, channels, vec![], &IndexMap::new()).unwrap_err();
    assert!(matches!(
        fault,
        MessagingFault::Output(UncoveredOutput { surface: 0, output: 0 })
    ));

    let mut raw = minimal_surface("a");
    raw.outputs = vec![alerting_output("brenn:surface-errors")];
    let mut config = participants_config(vec![], vec![raw]);
    config.surface_error_channel = Some("brenn:surface-errors".to_string());
    let channels = vec![entry("brenn:surface-errors", ChannelScheme::Brenn)];
    assert!(resolve_participants(&config, channels, vec![], &IndexMap::new()).is_ok());
}

#[test]
fn a_faulty_participant_is_named() {
    let config = participants_config(vec![minimal_consumer("x"), minimal_consumer("x")], vec![]);
    let fault = resolve_participants(&config, vec![], vec![], &IndexMap::new()).unwrap_err();
    match fault {
        MessagingFault::Consumer(fault) => {
            assert_eq!(fault.kind, WasmFaultKind::DuplicateSlug);
            assert_eq!(fault.consumer, 1);
        }
        other => panic!("unexpected {other:?}"),
    }
    let config = participants_config(vec![], vec![minimal_surface("x"), minimal_surface("x")]);
    let fault = resolve_participants(&config, vec![], vec![], &IndexMap::new()).unwrap_err();
    match fault {
        MessagingFault::Surface(fault) => assert_eq!(fault.kind, SurfaceFaultKind::DuplicateSlug),
        other => panic!("unexpected {other:?}"),
    }
}

#[test]
fn a_consumer_cannot_read_an_ephemeral_channel() {
    let config = participants_config(vec![reading_consumer("x", "ephemeral:e", &[])], vec![]);
    let fault =
        resolve_participants(&config, vec![], vec![ephemeral("e")], &IndexMap::new()).unwrap_err();
    match fault {
        MessagingFault::Consumer(fault) => assert_eq!(fault.kind, WasmFaultKind::UnknownChannel),
        other => panic!("unexpected {other:?}"),
    }
}

fn tool(name: &str) -> ToolGrant {
    ToolGrant {
        tool: name.to_string(),
        acl: vec![ToolClause { arguments: vec![("repo".to_string(), "brenn".to_string())] }],
        rate_limit: Some(ToolRateLimit { calls: 3, per_secs: 60 }),
    }
}

#[test]
fn build_messaging_wires_async_tool_bus_for_granted_consumer() {
    let mut caller = minimal_consumer("probe");
    caller.tool_grants = vec![tool("apull")];
    let config = participants_config(vec![caller, minimal_consumer("other")], vec![]);
    let mut draft = draft_of(config, vec![]);
    let inbox = |slug: &str, tools: Vec<String>| {
        let address = format!("brenn:tool-results/{slug}");
        ToolInbox {
            tools,
            entry: entry(&address, ChannelScheme::Brenn),
            input: WasmInputPort {
                port: TOOL_RESULT_INPUT_PORT.to_string(),
                sub: subscription(&address),
                amplification_mt: 1000,
            },
        }
    };
    let inboxes = vec![inbox("probe", vec!["apull".to_string()]), inbox("other", vec![])];
    let requests = vec![entry("brenn:tools/apull", ChannelScheme::Brenn)];
    wire_tool_channels(&mut draft, requests, inboxes);
    let addresses: Vec<&str> = draft.entries.iter().map(|e| e.address.as_str()).collect();
    assert_eq!(addresses, vec!["brenn:tools/apull", "brenn:tool-results/probe"]);
    let policy = &draft.wasm_consumers[0].policy;
    assert!(
        policy.allows_channel_access("brenn:tool-results/probe"),
        "derived transport grant must authorize delivery of the consumer's own inbox"
    );
    assert!(
        policy.allows_brenn_publish("tools/apull"),
        "derived grant must give publish visibility of the request channel"
    );
    assert!(!policy.allows_channel_access("brenn:tool-results/other"));
    assert_eq!(draft.wasm_consumers[0].inputs.len(), 1);
    assert_eq!(draft.wasm_consumers[0].inputs[0].port, TOOL_RESULT_INPUT_PORT);
    assert_eq!(draft.wasm_subscriptions[0].1, vec![subscription("brenn:tool-results/probe")]);
    assert!(draft.wasm_consumers[1].inputs.is_empty());
    assert!(!draft.wasm_consumers[1].policy.allows_brenn_publish("tools/apull"));
}

#[test]
fn only_consumers_with_a_tool_grant_are_callers() {
    let mut caller = minimal_consumer("probe");
    caller.tool_grants = vec![tool("apull"), tool("search")];
    let draft =
        draft_of(participants_config(vec![caller, minimal_consumer("mute")], vec![]), vec![]);
    let table = || {
        vec![CallerGrants {
            caller: "wasm:probe".to_string(),
            tools: vec![tool("apull"), tool("search")],
        }]
    };
    assert_eq!(tool_caller_grants(&draft.wasm_consumers), table());
    let mut executor = spec("tool-executor", AppPolicy::new());
    let help = || spec("surface-help", AppPolicy::new());
    assert_eq!(tool_executor_grants(&[help()], &draft.wasm_consumers), None);
    assert_eq!(
        tool_executor_grants(&[spec("tool-executor", AppPolicy::new())], &draft.wasm_consumers),
        None,
        "an executor that subscribes to nothing is not reached"
    );
    executor.subscriptions = vec!["brenn:tools/apull".to_string()];
    assert_eq!(tool_executor_grants(&[help(), executor], &draft.wasm_consumers), Some(table()));
}

// --- delivery ---

#[test]
fn build_messaging_panics_on_static_app_sub_without_covering_policy() {
    let dir = MessagingDirectory::with_entries(vec![subscribed(
        entry("brenn:boot-acl-app", ChannelScheme::Brenn),
        vec![app("deadsub")],
    )]);
    let apps = one_app("deadsub", minimal_app(None, vec![]));
    let draft = draft_of(participants_config(vec![], vec![]), vec![]);
    assert_eq!(deliverable(&dir, &apps, &draft), dead(DeadReason::NotAuthorized));
}

#[test]
fn build_messaging_accepts_static_app_sub_with_covering_policy() {
    let dir = MessagingDirectory::with_entries(vec![subscribed(
        entry("brenn:boot-acl-app-ok", ChannelScheme::Brenn),
        vec![app("livesub")],
    )]);
    let mut config = minimal_app(None, vec![]);
    config.policy = covering("boot-acl-app-ok");
    let apps = one_app("livesub", config);
    let draft = draft_of(participants_config(vec![], vec![]), vec![]);
    assert_eq!(deliverable(&dir, &apps, &draft), Ok(()));
}

fn wasm_delivery(
    consumer: WasmConsumerConfigRaw,
    channel: ChannelEntry,
    more: Vec<ChannelEntry>,
    clients: IndexMap<String, MqttClient>,
) -> Result<(), Vec<Undeliverable>> {
    let slug = consumer.slug.clone();
    let mut channels = vec![channel];
    channels.extend(more);
    let config = participants_config(vec![consumer], vec![]);
    let mut draft = resolve_participants(&config, channels, vec![], &clients).unwrap();
    assert_eq!(draft.wasm_subscriptions.len(), 1);
    let mut entries: Vec<ChannelEntry> = draft.entries.drain(..).collect();
    let first = entries.remove(0);
    entries.insert(0, subscribed(first, vec![wasm(&slug)]));
    deliverable(&MessagingDirectory::with_entries(entries), &no_apps(), &draft)
}

#[test]
fn build_messaging_panics_on_static_wasm_sub_without_covering_policy() {
    let outcome = wasm_delivery(
        reading_consumer("deadwasm", "brenn:boot-acl-wasm", &[]),
        entry("brenn:boot-acl-wasm", ChannelScheme::Brenn),
        vec![],
        IndexMap::new(),
    );
    assert_eq!(outcome, dead(DeadReason::NotAuthorized));
}

#[test]
fn build_messaging_panics_on_static_wasm_sub_channel_outside_subscribe_acl() {
    let outcome = wasm_delivery(
        reading_consumer("scoped-wasm", "brenn:secret-channel", &["allowed-channel"]),
        entry("brenn:secret-channel", ChannelScheme::Brenn),
        vec![],
        IndexMap::new(),
    );
    assert_eq!(outcome, dead(DeadReason::NotAuthorized));
}

#[test]
fn build_messaging_accepts_static_wasm_sub_with_covering_subscribe_acl() {
    let outcome = wasm_delivery(
        reading_consumer("covered-wasm", "brenn:covered-channel", &["covered-channel"]),
        entry("brenn:covered-channel", ChannelScheme::Brenn),
        vec![],
        IndexMap::new(),
    );
    assert_eq!(outcome, Ok(()));
}

#[test]
fn build_messaging_accepts_wasm_webhook_sub_prod_block_shape() {
    let consumer = WasmConsumerConfigRaw {
        grants: vec![WasmGrant::Ports],
        publish_acl: vec![ChannelMatcher::Exact("wasm-demo-out".to_string())],
        webhook_acl: vec![WebhookMatcher { endpoint: "push-alice".to_string() }],
        subscriptions: vec![WasmConsumerSubscriptionRaw {
            push_depth: Some(Depth::Bounded(50)),
            retain_depth: Some(Depth::Bounded(10)),
            noise: Some(NoiseLevel::Alarm),
            ..input("webhook:push-alice")
        }],
        outputs: vec![WasmConsumerOutputRaw {
            port: "out".to_string(),
            channel: "brenn:wasm-demo-out".to_string(),
            urgency: None,
            publish_per_activation_mt: None,
            publish_capacity_mt: None,
        }],
        activation_burst: Some(60),
        activation_min_period_ms: Some(1000),
        ..minimal_consumer("consume-demo-alice")
    };
    let outcome = wasm_delivery(
        consumer,
        entry("webhook:push-alice", ChannelScheme::Webhook),
        vec![entry("brenn:wasm-demo-out", ChannelScheme::Brenn)],
        IndexMap::new(),
    );
    assert_eq!(outcome, Ok(()));
}

#[test]
fn build_messaging_panics_on_wasm_webhook_sub_without_covering_acl() {
    let outcome = wasm_delivery(
        reading_consumer("consume-demo-alice", "webhook:push-alice", &[]),
        entry("webhook:push-alice", ChannelScheme::Webhook),
        vec![],
        IndexMap::new(),
    );
    assert_eq!(outcome, dead(DeadReason::NotAuthorized));
}

#[test]
fn build_messaging_accepts_wasm_mqtt_sub_with_covering_acl() {
    let mut consumer = reading_consumer("consume-mqtt", "mqtt:home:sensors/temp", &[]);
    consumer.mqtt_subscribe_acl = vec![MqttSubMatcher {
        client: "home".to_string(),
        topic_filter: "sensors/temp".to_string(),
    }];
    consumer.mqtt_covered = vec!["mqtt:home:sensors/temp".to_string()];
    let outcome = wasm_delivery(
        consumer,
        entry("mqtt:home:sensors/temp", ChannelScheme::Mqtt),
        vec![],
        IndexMap::from([("home".to_string(), MqttClient { urgency: Urgency::Normal })]),
    );
    assert_eq!(outcome, Ok(()));
}

#[test]
fn build_messaging_panics_on_wasm_mqtt_sub_without_covering_acl() {
    let outcome = wasm_delivery(
        reading_consumer("consume-mqtt", "mqtt:home:sensors/temp", &[]),
        entry("mqtt:home:sensors/temp", ChannelScheme::Mqtt),
        vec![],
        IndexMap::from([("home".to_string(), MqttClient { urgency: Urgency::Normal })]),
    );
    assert_eq!(outcome, dead(DeadReason::NotAuthorized));
}

#[test]
fn a_subscriber_nobody_knows_has_no_policy() {
    let dir = MessagingDirectory::with_entries(vec![
        subscribed(entry("brenn:a", ChannelScheme::Brenn), vec![]),
        subscribed(
            entry("brenn:b", ChannelScheme::Brenn),
            vec![app("ghost"), wasm("ghost"), surface("ghost", None), system("ghost")],
        ),
    ]);
    let draft = draft_of(participants_config(vec![], vec![]), vec![]);
    let listed = deliverable(&dir, &no_apps(), &draft).unwrap_err();
    assert_eq!(listed.len(), 4);
    for (k, item) in listed.iter().enumerate() {
        assert_eq!(
            *item,
            Undeliverable { channel: 1, subscriber: k, reason: DeadReason::NoPolicy }
        );
    }
}

fn spec(component: &str, policy: AppPolicy) -> SystemParticipantSpec {
    SystemParticipantSpec { component: component.to_string(), policy, subscriptions: vec![] }
}

fn surface_delivery(subscribe_acl: Vec<ChannelMatcher>) -> Result<(), Vec<Undeliverable>> {
    let dir = MessagingDirectory::with_entries(vec![subscribed(
        entry("brenn:surface-boot", ChannelScheme::Brenn),
        vec![surface("deskbar", None)],
    )]);
    let raw = SurfaceConfigRaw {
        grants: vec![SurfaceGrant::Subscribe],
        subscribe_acl,
        ..minimal_surface("deskbar")
    };
    let policy = build_surface_policy(&raw);
    let mut draft = draft_of(participants_config(vec![], vec![raw]), vec![]);
    draft.surfaces[0].policy = policy;
    deliverable(&dir, &no_apps(), &draft)
}

#[test]
fn validate_static_subscriptions_surface_covered_passes() {
    let outcome = surface_delivery(vec![ChannelMatcher::Exact("surface-boot".to_string())]);
    assert_eq!(outcome, Ok(()));
}

#[test]
fn validate_static_subscriptions_surface_uncovered_panics() {
    assert_eq!(surface_delivery(vec![]), dead(DeadReason::NotAuthorized));
}

fn system_delivery(covered: &str) -> Result<(), Vec<Undeliverable>> {
    let dir = MessagingDirectory::with_entries(vec![subscribed(
        entry("brenn:system-boot", ChannelScheme::Brenn),
        vec![system("relay")],
    )]);
    let mut relay = spec("relay", covering(covered));
    relay.subscriptions = vec!["brenn:system-boot".to_string()];
    let apps = no_apps();
    let systems = [relay];
    let participants = Participants {
        apps: &apps,
        wasm_consumers: &[],
        surfaces: &[],
        system_participants: &systems,
    };
    assert!(participants.subscriber_policy(&system("surface-help")).is_none());
    validate_static_subscriptions_deliverable(&dir, &participants)
}

#[test]
fn validate_static_subscriptions_system_covered_passes() {
    assert_eq!(system_delivery("system-boot"), Ok(()));
}

#[test]
fn validate_static_subscriptions_system_uncovered_panics() {
    assert_eq!(system_delivery("elsewhere"), dead(DeadReason::NotAuthorized));
}

#[test]
fn the_tool_executor_takes_part_only_where_there_are_async_tools() {
    let names = |tools: usize| -> Vec<String> {
        collect_system_participants(
            tools,
            spec("tool-executor", AppPolicy::new()),
            spec("surface-help", AppPolicy::new()),
        )
        .into_iter()
        .map(|s| s.component)
        .collect()
    };
    assert_eq!(names(0), vec!["surface-help".to_string()]);
    assert_eq!(names(2), vec!["tool-executor".to_string(), "surface-help".to_string()]);
}

// --- wiring ---

const SLUG: &str = "my-consumer";

fn wired_directory() -> MessagingDirectory {
    MessagingDirectory::with_entries(vec![subscribed(
        entry("brenn:consumer/reqs", ChannelScheme::Brenn),
        vec![wasm(SLUG)],
    )])
}

fn registered() -> Vec<SubscriberRegistration> {
    vec![SubscriberRegistration {
        kind: wasm(SLUG),
        policy: AppPolicy::new(),
        wake: WakeEconomics::Eager,
    }]
}

fn parked() -> Vec<DeliveryBinding> {
    vec![DeliveryBinding { kind: wasm(SLUG), route: DeliveryRoute::ParkedNotify }]
}

#[test]
fn fully_wired_subscriber_passes() {
    let outcome =
        assert_every_subscriber_wired(&wired_directory(), &no_apps(), &registered(), &parked());
    assert_eq!(outcome, Ok(()));
}

#[test]
fn missing_binding_panics() {
    let outcome =
        assert_every_subscriber_wired(&wired_directory(), &no_apps(), &registered(), &[]);
    assert_eq!(
        outcome,
        Err(Unwired { channel: 0, subscriber: 0, missing: MissingWire::Binding })
    );
}

#[test]
fn missing_registration_panics() {
    let outcome = assert_every_subscriber_wired(&wired_directory(), &no_apps(), &[], &parked());
    assert_eq!(
        outcome,
        Err(Unwired { channel: 0, subscriber: 0, missing: MissingWire::Registration })
    );
}

#[test]
fn what_boot_wires_passes_its_own_check() {
    let config = participants_config(
        vec![reading_consumer("reader", "brenn:a", &["a"])],
        vec![minimal_surface("deskbar")],
    );
    let draft = draft_of(config, vec![entry("brenn:a", ChannelScheme::Brenn)]);
    let apps = one_app("chat", minimal_app(None, vec![]));
    let mut executor = spec("tool-executor", AppPolicy::new());
    executor.subscriptions = vec!["brenn:a".to_string()];
    let systems = [executor, spec("surface-help", AppPolicy::new())];
    let participants = Participants {
        apps: &apps,
        wasm_consumers: &draft.wasm_consumers,
        surfaces: &draft.surfaces,
        system_participants: &systems,
    };
    let registrations = subscriber_registrations(&participants);
    let bindings = delivery_bindings(&participants);
    let dir = MessagingDirectory::with_entries(vec![subscribed(
        entry("brenn:a", ChannelScheme::Brenn),
        vec![
            app("chat"),
            wasm("reader"),
            surface("deskbar", None),
            surface("deskbar", Some("protobar")),
            surface("deskbar", Some("chrome")),
            system("tool-executor"),
        ],
    )]);
    assert_eq!(assert_every_subscriber_wired(&dir, &apps, &registrations, &bindings), Ok(()));
    let route_of = |kind: SubscriberEntryKind| {
        bindings.iter().find(|b| b.kind == kind).map(|b| b.route)
    };
    assert_eq!(route_of(app("chat")), Some(DeliveryRoute::ConversationBridge));
    assert_eq!(route_of(wasm("reader")), Some(DeliveryRoute::ParkedNotify));
    assert_eq!(route_of(surface("deskbar", None)), Some(DeliveryRoute::SurfaceSessions));
    assert_eq!(
        route_of(surface("deskbar", Some("protobar"))),
        Some(DeliveryRoute::SurfaceSessions)
    );
    assert_eq!(route_of(system("tool-executor")), Some(DeliveryRoute::ParkedNotify));
    assert_eq!(route_of(system("surface-help")), None, "it only publishes");
    assert_eq!(route_of(wasm("other")), None);
    assert_eq!(registrations.len(), 6);
    assert!(registrations.iter().all(|r| r.wake == WakeEconomics::Eager));
}

// --- dynamic subscriptions ---

fn row(address: &str, qos: Option<u8>) -> DynamicSubscription {
    DynamicSubscription { channel_uuid: uuid_of(address), app_slug: "graf".to_string(), qos }
}

#[test]
fn build_messaging_reconstructs_runtime_created_mqtt_channel() {
    let address = "mqtt:homeassistant:home/runtime/+/state";
    let static_channel = ingress("homeassistant", "home/static/state");
    let mut dir = MessagingDirectory::with_entries(vec![entry(
        "mqtt:homeassistant:home/static/state",
        ChannelScheme::Mqtt,
    )]);
    let rows = vec![row(address, Some(1))];
    assert_eq!(referenced_channels(&rows), vec![uuid_of(address)]);
    restore_channels(&mut dir, vec![entry(address, ChannelScheme::Mqtt)]);
    let channel = dir.by_uuid(uuid_of(address)).unwrap();
    assert_eq!(channel.address, address);
    assert_eq!(channel.transport_type, ChannelScheme::Mqtt);
    let made = dynamic_mqtt_ingress(&rows, &[static_channel], &dir).unwrap();
    assert_eq!(
        made,
        vec![DynamicMqttIngress {
            channel_address: address.to_string(),
            channel_uuid: uuid_of(address),
            client_slug: "homeassistant".to_string(),
            topic: "home/runtime/+/state".to_string(),
            qos: 1,
        }]
    );
}

#[test]
fn build_messaging_does_not_reconstruct_orphan_channel() {
    let orphan = "mqtt:homeassistant:home/orphan/+/state";
    let live = "mqtt:homeassistant:home/runtime/+/state";
    let stored = [entry(orphan, ChannelScheme::Mqtt), entry(live, ChannelScheme::Mqtt)];
    let rows = vec![row(live, Some(1))];
    let wanted = referenced_channels(&rows);
    assert_eq!(wanted, vec![uuid_of(live)]);
    assert!(!wanted.contains(&uuid_of(orphan)), "no row is on the orphan");
    let static_channel = "mqtt:homeassistant:home/static/state";
    let mut dir =
        MessagingDirectory::with_entries(vec![entry(static_channel, ChannelScheme::Mqtt)]);
    let loaded = stored.into_iter().filter(|c| wanted.contains(&c.uuid)).collect();
    restore_channels(&mut dir, loaded);
    assert!(dir.by_uuid(uuid_of(live)).is_some());
    assert!(
        dir.by_uuid(uuid_of(orphan)).is_none(),
        "orphan channel (no surviving durable row) must not be reconstructed into the directory"
    );
    let made =
        dynamic_mqtt_ingress(&rows, &[ingress("homeassistant", "home/static/state")], &dir)
            .unwrap();
    assert_eq!(made.len(), 1);
    assert!(made.iter().all(|d| d.channel_uuid != uuid_of(orphan)));
}

#[test]
fn each_referenced_channel_is_loaded_once() {
    let rows = vec![row("mqtt:a:x", Some(0)), row("mqtt:a:y", Some(0)), row("mqtt:a:x", Some(1))];
    assert_eq!(referenced_channels(&rows), vec![uuid_of("mqtt:a:x"), uuid_of("mqtt:a:y")]);
}

#[test]
fn what_is_configured_is_neither_replaced_nor_activated_again() {
    let mut stored = entry("mqtt:a:x", ChannelScheme::Mqtt);
    stored.description = Some("stored".to_string());
    let mut dir = MessagingDirectory::with_entries(vec![entry("mqtt:a:x", ChannelScheme::Mqtt)]);
    restore_channels(&mut dir, vec![stored]);
    assert_eq!(dir.entries.len(), 1);
    assert_eq!(dir.entries[0].description, None);
    let rows = vec![row("mqtt:a:x", Some(1))];
    let dir = MessagingDirectory::with_entries(vec![entry("mqtt:a:x", ChannelScheme::Mqtt)]);
    assert!(dynamic_mqtt_ingress(&rows, &[ingress("a", "x")], &dir).unwrap().is_empty());
    assert_eq!(dynamic_mqtt_ingress(&rows, &[], &dir).unwrap().len(), 1);
}

#[test]
fn a_stored_row_that_makes_no_sense_is_named() {
    let dir = MessagingDirectory::with_entries(vec![
        entry("mqtt:a:x", ChannelScheme::Mqtt),
        entry("mqtt:broken", ChannelScheme::Mqtt),
    ]);
    let rows = vec![row("mqtt:a:x", Some(1)), row("mqtt:broken", Some(1))];
    assert_eq!(
        dynamic_mqtt_ingress(&rows, &[], &dir),
        Err(StoredRowFault { row: 1, fault: StoredFault::Address })
    );
    let rows = vec![row("mqtt:a:x", None)];
    assert_eq!(
        dynamic_mqtt_ingress(&rows, &[], &dir),
        Err(StoredRowFault { row: 0, fault: StoredFault::MissingQos })
    );
}
