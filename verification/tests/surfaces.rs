//! Resolving surfaces: what each knob resolves to, and what each mistake is answered with.

use brenn_server::address::{reserved_local_channel, ChannelScheme};
use brenn_server::directory::{ChannelEntry, MessagingDirectory, ResolvedChannel};
use brenn_server::model::{
    Depth, NoiseLevel, Sink, SinkBudget, Urgency, WakeMin, DEFAULT_PUBLISH_MT,
    MAX_PUBLISHES_PER_ACTIVATION,
};
use brenn_server::policy::ChannelMatcher;
use brenn_server::rings::ResolvedLocalChannel;
use brenn_server::surface_grants::{
    assert_output_bindings_covered, inject_surface_config_subscribe_grants,
    inject_surface_error_grant, inject_surface_geometry_status_grants, UncoveredOutput,
};
use brenn_server::surface_model::{
    Abi, AttachSendBudget, AutoGrant, AutoPort, AutoWiring, MessagingGlobalConfig,
    ResolvedComponent, ResolvedSurface, SendRate, SurfaceComponentRaw, SurfaceConfigRaw,
    SurfaceFault, SurfaceFaultKind, SurfaceGrant, SurfaceIoPortRaw, SurfaceLimits,
    SurfaceOutputRaw, SurfaceSubscriptionRaw,
};
use brenn_server::policy::AppCapability;
use brenn_server::surface_rules::{
    assert_backstop_covers_a_maximal_flush, assert_instance_can_activate,
    assert_page_queue_deliverable, DEFAULT_PARKED_BATCH_DEPTH,
};
use brenn_server::surfaces::resolve_surfaces;

const SENDER_BURST: u32 = 240;
const SENDER_REFILL: u32 = 60;
const MAX_BINDINGS: usize = 64;

fn stock_globals() -> MessagingGlobalConfig {
    MessagingGlobalConfig {
        default_push_depth: Depth::Unbounded,
        default_retain_depth: Depth::Unbounded,
        default_standing_retain_depth: Depth::Unbounded,
        default_noise: NoiseLevel::Silent,
        default_sink: Sink::Drop,
        default_wake_min: WakeMin::Normal,
        default_send_budget: 100,
        default_send_rate: SendRate {
            burst: SENDER_BURST,
            refill: SENDER_REFILL,
            refill_interval_secs: 1,
        },
    }
}

fn test_globals() -> MessagingGlobalConfig {
    MessagingGlobalConfig { default_push_depth: Depth::Bounded(8), ..stock_globals() }
}

fn default_send() -> AttachSendBudget {
    AttachSendBudget { burst: MAX_PUBLISHES_PER_ACTIVATION, refill_secs: 60 }
}

fn limits() -> SurfaceLimits {
    SurfaceLimits {
        max_subscription_bindings: MAX_BINDINGS,
        max_components: 32,
        default_publish_burst: 60,
        default_publish_per_sec: 4,
        default_send: default_send(),
        skins: vec!["bench".to_string(), "foundry".to_string()],
    }
}

fn no_wiring() -> AutoWiring {
    AutoWiring { ports: vec![], grants: vec![] }
}

fn uuid_of(address: &str) -> u128 {
    address.bytes().fold(1u128, |acc, b| acc.wrapping_mul(257).wrapping_add(b as u128))
}

fn entry_with(
    address: &str,
    transport_type: ChannelScheme,
    push_depth: Depth,
    retain_depth: Depth,
    noise: NoiseLevel,
) -> ChannelEntry {
    ChannelEntry {
        uuid: uuid_of(address),
        address: address.to_string(),
        description: None,
        resolved_channel: ResolvedChannel {
            push_depth,
            retain_depth,
            standing_retain_depth: retain_depth,
            noise,
            sink: Sink::Drop,
            wake_min: WakeMin::Normal,
        },
        subscribers: vec![],
        transport_type,
        mount: None,
    }
}

fn brenn_entry(address: &str) -> ChannelEntry {
    entry_with(
        address,
        ChannelScheme::Brenn,
        Depth::Unbounded,
        Depth::Unbounded,
        NoiseLevel::Silent,
    )
}

fn ephem_with(name: &str, push_depth: Depth, retain_depth: u64, noise: NoiseLevel) -> ChannelEntry {
    entry_with(
        &format!("ephemeral:{name}"),
        ChannelScheme::Ephemeral,
        push_depth,
        Depth::Bounded(retain_depth),
        noise,
    )
}

fn ephem(name: &str) -> ChannelEntry {
    ephem_with(name, Depth::Bounded(8), 1, NoiseLevel::Silent)
}

fn dir_of(entries: Vec<ChannelEntry>) -> MessagingDirectory {
    MessagingDirectory::with_entries(entries)
}

fn surface_dir() -> MessagingDirectory {
    dir_of(vec![brenn_entry("brenn:alerts"), ephem("protobar-demo")])
}

fn alerts_dir() -> MessagingDirectory {
    dir_of(vec![brenn_entry("brenn:alerts")])
}

fn bounded_alerts_dir() -> MessagingDirectory {
    dir_of(vec![entry_with(
        "brenn:alerts",
        ChannelScheme::Brenn,
        Depth::Bounded(16),
        Depth::Bounded(8),
        NoiseLevel::Silent,
    )])
}

fn sub_raw(channel: &str, instance: &str, port: &str) -> SurfaceSubscriptionRaw {
    SurfaceSubscriptionRaw {
        channel: Some(channel.to_string()),
        instance: instance.to_string(),
        port: port.to_string(),
        push_depth: None,
        retain_depth: None,
        noise: None,
        wake_min: None,
    }
}

fn out_raw(instance: &str, port: &str, channel: &str) -> SurfaceOutputRaw {
    SurfaceOutputRaw {
        instance: instance.to_string(),
        port: port.to_string(),
        channel: Some(channel.to_string()),
        urgency: None,
        publish_per_activation_mt: None,
        publish_capacity_mt: None,
    }
}

fn component(kind: &str, instance: Option<&str>, chrome: bool) -> SurfaceComponentRaw {
    SurfaceComponentRaw {
        kind: kind.to_string(),
        instance: instance.map(|i| i.to_string()),
        abi: "dom".to_string(),
        send_burst: None,
        send_refill_secs: None,
        parked_batch_depth: None,
        config: None,
        chrome,
    }
}

fn exact(name: &str) -> ChannelMatcher {
    ChannelMatcher::Exact(name.to_string())
}

fn minimal_surface_raw() -> SurfaceConfigRaw {
    SurfaceConfigRaw {
        slug: "deskbar".to_string(),
        grants: vec![],
        subscribe_acl: vec![],
        publish_acl: vec![],
        ephemeral_subscribe_acl: vec![],
        ephemeral_publish_acl: vec![],
        components: vec![component("protobar", None, false), component("chrome", None, true)],
        subscriptions: vec![],
        outputs: vec![],
        io_ports: vec![],
        skin: None,
        allowed_users: vec![],
        publish_burst: None,
        publish_per_sec: None,
    }
}

fn valid_surface_raw() -> SurfaceConfigRaw {
    SurfaceConfigRaw {
        grants: vec![SurfaceGrant::EphemeralSubscribe, SurfaceGrant::Publish],
        publish_acl: vec![exact("alerts")],
        ephemeral_subscribe_acl: vec![exact("protobar-demo")],
        components: vec![
            component("protobar", None, false),
            component("sidecar", None, false),
            component("chrome", None, true),
        ],
        subscriptions: vec![sub_raw("ephemeral:protobar-demo", "protobar", "messages")],
        outputs: vec![out_raw("protobar", "out", "brenn:alerts")],
        ..minimal_surface_raw()
    }
}

fn durable_surface_raw() -> SurfaceConfigRaw {
    SurfaceConfigRaw {
        grants: vec![SurfaceGrant::Subscribe],
        subscribe_acl: vec![exact("alerts")],
        subscriptions: vec![SurfaceSubscriptionRaw {
            push_depth: Some(Depth::Bounded(8)),
            retain_depth: Some(Depth::Bounded(4)),
            ..sub_raw("brenn:alerts", "protobar", "messages")
        }],
        ..minimal_surface_raw()
    }
}

fn local_surface_raw() -> SurfaceConfigRaw {
    SurfaceConfigRaw {
        subscriptions: vec![sub_raw("local:page-bus", "protobar", "in")],
        outputs: vec![
            out_raw("protobar", "out", "local:page-bus"),
            out_raw("protobar", "theme-out", "local:brenn/theme"),
        ],
        ..minimal_surface_raw()
    }
}

fn try_resolve(
    raws: Vec<SurfaceConfigRaw>,
    dir: MessagingDirectory,
    globals: MessagingGlobalConfig,
) -> Result<Vec<ResolvedSurface>, SurfaceFault> {
    resolve_surfaces(&raws, &dir, &globals, &no_wiring(), &limits())
}

fn resolve_in(raw: SurfaceConfigRaw, dir: MessagingDirectory) -> ResolvedSurface {
    let mut list = try_resolve(vec![raw], dir, test_globals()).unwrap();
    assert_eq!(list.len(), 1);
    list.remove(0)
}

fn resolve(raw: SurfaceConfigRaw) -> ResolvedSurface {
    resolve_in(raw, surface_dir())
}

fn resolve_local(raw: SurfaceConfigRaw) -> ResolvedSurface {
    resolve_in(raw, dir_of(vec![]))
}

fn refusal_in(raw: SurfaceConfigRaw, dir: MessagingDirectory) -> SurfaceFaultKind {
    try_resolve(vec![raw], dir, test_globals()).unwrap_err().kind
}

fn refusal(raw: SurfaceConfigRaw) -> SurfaceFaultKind {
    refusal_in(raw, surface_dir())
}

fn local_refusal(raw: SurfaceConfigRaw) -> SurfaceFaultKind {
    refusal_in(raw, dir_of(vec![]))
}

#[test]
fn a_configured_output_urgency_resolves_onto_the_output() {
    let mut raw = valid_surface_raw();
    raw.outputs[0].urgency = Some(Urgency::High);
    assert_eq!(resolve(raw).outputs[0].default_urgency, Urgency::High);
}

#[test]
fn the_chrome_flag_resolves_onto_its_component() {
    let s = resolve(valid_surface_raw());
    assert!(s.components[2].chrome, "chrome flag lost in resolution");
    assert!(
        !s.components[0].chrome && !s.components[1].chrome,
        "sibling wrongly marked chrome"
    );
}

#[test]
fn an_unset_output_urgency_falls_back_to_normal() {
    let raw = valid_surface_raw();
    assert_eq!(raw.outputs[0].urgency, None, "fixture leaves it unset");
    assert_eq!(resolve(raw).outputs[0].default_urgency, Urgency::Normal);
}

#[test]
fn every_urgency_rung_resolves_onto_the_output() {
    for urgency in [Urgency::VeryLow, Urgency::Low, Urgency::Normal, Urgency::High] {
        let mut raw = valid_surface_raw();
        raw.outputs[0].urgency = Some(urgency);
        assert_eq!(resolve(raw).outputs[0].default_urgency, urgency);
    }
}

#[test]
fn surface_resolves_happy_path() {
    let s = resolve(valid_surface_raw());
    assert_eq!(s.slug, "deskbar");
    assert_eq!(s.skin, "bench");
    let plain = |name: &str, chrome: bool| ResolvedComponent {
        instance: name.to_string(),
        kind: name.to_string(),
        abi: Abi::Dom,
        send_budget: default_send(),
        parked_batch_depth: 8,
        config: vec![],
        chrome,
    };
    assert_eq!(
        s.components,
        vec![plain("protobar", false), plain("sidecar", false), plain("chrome", true)]
    );
    assert_eq!(s.subscriptions.len(), 1);
    assert_eq!(s.subscriptions[0].channel_address, "ephemeral:protobar-demo");
    assert_eq!(s.subscriptions[0].instance, "protobar");
    assert_eq!(s.subscriptions[0].port, "messages");
    assert_eq!(s.outputs.len(), 1);
    assert_eq!(s.outputs[0].channel_address, "brenn:alerts");
    assert_eq!(s.outputs[0].instance, "protobar");
    assert_eq!(s.outputs[0].port, "out");
    assert!(s.policy.allows_channel_access("ephemeral:protobar-demo"));
    assert!(s.policy.allows_brenn_publish("alerts"));
    assert!(s.allowed_users.is_empty());
    assert!(s.user_has_access("anyone"));
    assert_eq!(s.publish_burst, limits().default_publish_burst);
    assert_eq!(s.publish_per_sec, limits().default_publish_per_sec);
}

#[test]
fn inject_surface_error_grant_adds_covering_publish_acl() {
    let mut resolved = vec![resolve(valid_surface_raw())];
    assert!(!resolved[0].policy.allows_brenn_publish("surface-errors"));
    inject_surface_error_grant(&mut resolved, "surface-errors");
    let s = &resolved[0];
    assert!(s.policy.allows_brenn_publish("surface-errors"));
    assert!(s.policy.allows_brenn_publish("alerts"));
}

#[test]
fn inject_surface_geometry_status_grants_adds_covering_publish_acls() {
    let mut resolved = vec![resolve(valid_surface_raw())];
    let slug = resolved[0].slug.clone();
    let geometry = format!("surface.surface.{slug}.geometry");
    let status = format!("surface.surface.{slug}.status");
    assert!(!resolved[0].policy.allows_brenn_publish(&geometry));
    inject_surface_geometry_status_grants(&mut resolved, "surface");
    let s = &resolved[0];
    assert!(s.policy.allows_brenn_publish(&geometry));
    assert!(s.policy.allows_brenn_publish(&status));
    assert!(!s.policy.allows_brenn_publish("surface.surface.other.geometry"));
    assert!(s.policy.allows_brenn_publish("alerts"));
}

#[test]
fn config_subscribe_grants_open_the_own_bindings_channel_only() {
    let mut resolved = vec![resolve(minimal_surface_raw_with_slug("a")), resolve(minimal_surface_raw_with_slug("b"))];
    inject_surface_config_subscribe_grants(&mut resolved, "wall");
    assert!(resolved[0].policy.allows_channel_access("ephemeral:wall.surface.a.bindings"));
    assert!(!resolved[0].policy.allows_channel_access("ephemeral:wall.surface.b.bindings"));
    assert!(resolved[1].policy.allows_channel_access("ephemeral:wall.surface.b.bindings"));
    assert!(!resolved[1].policy.allows_channel_access("brenn:wall.surface.b.bindings"));
}

fn minimal_surface_raw_with_slug(slug: &str) -> SurfaceConfigRaw {
    SurfaceConfigRaw { slug: slug.to_string(), ..minimal_surface_raw() }
}

#[test]
fn surface_access_and_budgets_carry_through() {
    let mut raw = valid_surface_raw();
    raw.allowed_users = vec!["alice".to_string()];
    raw.publish_burst = Some(120);
    raw.publish_per_sec = Some(5);
    let s = resolve(raw);
    assert_eq!(s.allowed_users, vec!["alice".to_string()]);
    assert!(s.user_has_access("alice"));
    assert!(!s.user_has_access("intruder"));
    assert_eq!(s.publish_burst, 120);
    assert_eq!(s.publish_per_sec, 5);
}

#[test]
fn surface_durable_subscription_inherits_channel_defaults() {
    let mut raw = durable_surface_raw();
    raw.subscriptions[0].push_depth = None;
    raw.subscriptions[0].retain_depth = None;
    let s = resolve_in(raw, bounded_alerts_dir());
    assert_eq!(s.subscriptions.len(), 1, "SurfaceBinding carries the binding");
    let durable = s.durable_subscriptions();
    assert_eq!(durable.len(), 1);
    let ds = &durable[0].subscription;
    assert_eq!(ds.channel_address, "brenn:alerts");
    assert_eq!(ds.push_depth, Depth::Bounded(16));
    assert_eq!(ds.retain_depth, Depth::Bounded(8));
    assert_eq!(ds.noise, NoiseLevel::Silent);
    assert_eq!(ds.wake_min, WakeMin::Normal);
}

#[test]
fn ephemeral_bindings_never_enter_the_durable_subscriptions() {
    let s = resolve(valid_surface_raw());
    assert_eq!(s.wire_subscriptions.len(), 1);
    assert_eq!(s.wire_subscriptions[0].subscription.channel_address, "ephemeral:protobar-demo");
    assert!(s.durable_subscriptions().is_empty());
}

#[test]
fn surface_durable_push_depth_unbounded_panics() {
    let mut raw = durable_surface_raw();
    raw.subscriptions[0].push_depth = None;
    raw.subscriptions[0].retain_depth = Some(Depth::Bounded(4));
    assert_eq!(refusal_in(raw, alerts_dir()), SurfaceFaultKind::UnboundedQueue);
}

#[test]
fn surface_durable_retain_depth_unbounded_panics() {
    let mut raw = durable_surface_raw();
    raw.subscriptions[0].push_depth = Some(Depth::Bounded(8));
    raw.subscriptions[0].retain_depth = None;
    assert_eq!(refusal_in(raw, alerts_dir()), SurfaceFaultKind::UnboundedContext);
}

#[test]
fn surface_durable_subscription_explicit_knobs_carry() {
    let mut raw = durable_surface_raw();
    raw.subscriptions[0].push_depth = Some(Depth::Bounded(4));
    raw.subscriptions[0].retain_depth = Some(Depth::Bounded(2));
    raw.subscriptions[0].noise = Some(NoiseLevel::Alarm);
    raw.grants.push(SurfaceGrant::Alert);
    let s = resolve_in(raw, alerts_dir());
    let durable = s.durable_subscriptions();
    let ds = &durable[0].subscription;
    assert_eq!(ds.push_depth, Depth::Bounded(4));
    assert_eq!(ds.retain_depth, Depth::Bounded(2));
    assert_eq!(ds.noise, NoiseLevel::Alarm);
    assert_eq!(s.subscriptions[0].noise, NoiseLevel::Alarm);
}

#[test]
fn surface_durable_subscription_explicit_wake_min_panics() {
    let mut raw = durable_surface_raw();
    raw.subscriptions[0].push_depth = Some(Depth::Bounded(4));
    raw.subscriptions[0].retain_depth = Some(Depth::Bounded(2));
    raw.subscriptions[0].wake_min = Some(WakeMin::Never);
    assert_eq!(refusal_in(raw, alerts_dir()), SurfaceFaultKind::WakeMinSet);
}

#[test]
fn surface_ephemeral_binding_honours_push_depth() {
    let mut raw = valid_surface_raw();
    raw.subscriptions[0].push_depth = Some(Depth::Bounded(3));
    assert_eq!(resolve(raw).subscriptions[0].push_depth, 3);
}

#[test]
fn surface_ephemeral_binding_inherits_the_channel_push_depth() {
    assert_eq!(resolve(valid_surface_raw()).subscriptions[0].push_depth, 8);
}

#[test]
fn surface_ephemeral_binding_inherits_a_distinct_channel_push_depth() {
    let dir = dir_of(vec![
        brenn_entry("brenn:alerts"),
        ephem_with("protobar-demo", Depth::Bounded(5), 1, NoiseLevel::Silent),
    ]);
    assert_eq!(resolve_in(valid_surface_raw(), dir).subscriptions[0].push_depth, 5);
}

#[test]
fn surface_ephemeral_binding_with_an_unbounded_resolved_push_depth_panics() {
    let dir = dir_of(vec![
        brenn_entry("brenn:alerts"),
        ephem_with("protobar-demo", Depth::Unbounded, 1, NoiseLevel::Silent),
    ]);
    let fault = try_resolve(vec![valid_surface_raw()], dir, stock_globals()).unwrap_err();
    assert_eq!(fault.kind, SurfaceFaultKind::UnboundedQueue);
}

#[test]
fn surface_ephemeral_binding_push_depth_zero_resolves() {
    let mut raw = valid_surface_raw();
    raw.subscriptions.push(SurfaceSubscriptionRaw {
        push_depth: Some(Depth::Bounded(0)),
        retain_depth: Some(Depth::Bounded(4)),
        ..sub_raw("ephemeral:protobar-demo", "protobar", "context")
    });
    let s = resolve(raw);
    let ctx = s.subscriptions.iter().find(|b| b.port == "context").unwrap();
    assert_eq!(ctx.push_depth, 0);
    assert_eq!(ctx.retain_depth, 4);
}

#[test]
fn surface_ephemeral_binding_retain_depth_resolves() {
    let mut raw = valid_surface_raw();
    raw.subscriptions[0].retain_depth = Some(Depth::Bounded(3));
    assert_eq!(resolve(raw).subscriptions[0].retain_depth, 3);
}

#[test]
fn surface_ephemeral_binding_retain_depth_inherits_the_channel_rung() {
    let dir = dir_of(vec![
        brenn_entry("brenn:alerts"),
        ephem_with("protobar-demo", Depth::Bounded(8), 6, NoiseLevel::Silent),
    ]);
    let raw = valid_surface_raw();
    assert!(raw.subscriptions[0].retain_depth.is_none());
    assert_eq!(resolve_in(raw, dir).subscriptions[0].retain_depth, 6);
}

#[test]
fn surface_ephemeral_binding_unbounded_retain_depth_panics() {
    let mut raw = valid_surface_raw();
    raw.subscriptions[0].retain_depth = Some(Depth::Unbounded);
    assert_eq!(refusal(raw), SurfaceFaultKind::UnboundedContext);
}

#[test]
fn surface_noise_on_ephemeral_binding_resolves_not_panics() {
    let mut raw = valid_surface_raw();
    raw.subscriptions[0].noise = Some(NoiseLevel::Metered);
    assert_eq!(resolve(raw).subscriptions[0].noise, NoiseLevel::Metered);
}

#[test]
fn surface_ephemeral_binding_inherits_the_channel_noise() {
    let dir = dir_of(vec![
        brenn_entry("brenn:alerts"),
        ephem_with("protobar-demo", Depth::Bounded(8), 1, NoiseLevel::Alarm),
    ]);
    let mut raw = valid_surface_raw();
    raw.grants.push(SurfaceGrant::Alert);
    assert_eq!(resolve_in(raw, dir).subscriptions[0].noise, NoiseLevel::Alarm);
}

#[test]
fn surface_wake_min_on_ephemeral_binding_panics() {
    let mut raw = valid_surface_raw();
    raw.subscriptions[0].wake_min = Some(WakeMin::Normal);
    assert_eq!(refusal(raw), SurfaceFaultKind::WakeMinSet);
}

#[test]
fn surface_local_binding_retain_depth_resolves() {
    let mut raw = local_surface_raw();
    raw.subscriptions[0].retain_depth = Some(Depth::Bounded(4));
    let s = resolve_local(raw);
    assert_eq!(s.subscriptions[0].retain_depth, 4);
    assert_eq!(s.local_channels[0].ring_depth, 4);
}

#[test]
fn surface_local_binding_retain_depth_defaults_to_the_rings_floor() {
    let raw = local_surface_raw();
    assert!(raw.subscriptions[0].retain_depth.is_none());
    let s = resolve_local(raw);
    assert_eq!(s.subscriptions[0].retain_depth, 1);
    assert_eq!(s.local_channels[0].ring_depth, 1);
}

#[test]
fn surface_local_binding_explicit_noise_resolves() {
    let mut raw = local_surface_raw();
    raw.subscriptions[0].noise = Some(NoiseLevel::Alarm);
    raw.grants.push(SurfaceGrant::Alert);
    assert_eq!(resolve_local(raw).subscriptions[0].noise, NoiseLevel::Alarm);
}

#[test]
fn surface_loud_noise_without_alert_grant_panics() {
    let mut raw = local_surface_raw();
    raw.subscriptions[0].noise = Some(NoiseLevel::Alarm);
    assert_eq!(local_refusal(raw), SurfaceFaultKind::AlertGrantMissing);
}

#[test]
fn surface_fatal_noise_without_alert_grant_panics() {
    let mut raw = local_surface_raw();
    raw.subscriptions[0].noise = Some(NoiseLevel::Fatal);
    assert_eq!(local_refusal(raw), SurfaceFaultKind::AlertGrantMissing);
}

#[test]
fn surface_metered_noise_needs_no_alert_grant() {
    let mut raw = local_surface_raw();
    raw.subscriptions[0].noise = Some(NoiseLevel::Metered);
    assert_eq!(resolve_local(raw).subscriptions[0].noise, NoiseLevel::Metered);
}

#[test]
fn surface_local_binding_noise_defaults_to_global() {
    let raw = local_surface_raw();
    assert!(raw.subscriptions[0].noise.is_none());
    assert_eq!(resolve_local(raw).subscriptions[0].noise, NoiseLevel::Silent);
}

#[test]
fn surface_reserved_plane_binding_reads_the_contract_fixed_depth() {
    let mut raw = local_surface_raw();
    raw.subscriptions[0] = sub_raw("local:brenn/theme", "protobar", "theme-in");
    let fixed = reserved_local_channel("local:brenn/theme").unwrap().ring_depth;
    assert_eq!(resolve_local(raw).subscriptions[0].retain_depth, fixed);
}

#[test]
fn surface_output_budget_resolves_to_millitokens() {
    let mut raw = valid_surface_raw();
    raw.outputs[0].publish_per_activation_mt = Some(2500);
    raw.outputs[0].publish_capacity_mt = Some(500);
    let s = resolve(raw);
    assert_eq!(s.outputs[0].budget.fill_mt, 2500);
    assert_eq!(s.outputs[0].budget.capacity_mt, 500);
}

#[test]
fn surface_output_budget_defaults_match_the_backend_knobs() {
    let raw = valid_surface_raw();
    assert!(raw.outputs[0].publish_per_activation_mt.is_none());
    assert_eq!(
        resolve(raw).outputs[0].budget,
        SinkBudget { fill_mt: DEFAULT_PUBLISH_MT, capacity_mt: DEFAULT_PUBLISH_MT }
    );
    assert_eq!(DEFAULT_PUBLISH_MT, 1000);
}

#[test]
fn surface_output_zero_fill_is_input_driven_not_rejected() {
    let mut raw = valid_surface_raw();
    raw.outputs[0].publish_per_activation_mt = Some(0);
    assert_eq!(resolve(raw).outputs[0].budget.fill_mt, 0);
}

#[test]
fn surface_parked_batch_depth_defaults() {
    let raw = valid_surface_raw();
    assert!(raw.components[0].parked_batch_depth.is_none());
    assert_eq!(resolve(raw).components[0].parked_batch_depth, DEFAULT_PARKED_BATCH_DEPTH);
}

#[test]
fn surface_parked_batch_depth_override_resolves() {
    let mut raw = valid_surface_raw();
    raw.components[0].parked_batch_depth = Some(Depth::Bounded(3));
    let s = resolve(raw);
    assert_eq!(s.components[0].parked_batch_depth, 3);
    assert_eq!(s.components[1].parked_batch_depth, 8);
}

#[test]
fn surface_parked_batch_depth_zero_panics() {
    let mut raw = valid_surface_raw();
    raw.components[0].parked_batch_depth = Some(Depth::Bounded(0));
    assert_eq!(refusal(raw), SurfaceFaultKind::ZeroParkedBatches);
}

#[test]
fn surface_parked_batch_depth_unbounded_panics() {
    let mut raw = valid_surface_raw();
    raw.components[0].parked_batch_depth = Some(Depth::Unbounded);
    assert_eq!(refusal(raw), SurfaceFaultKind::UnboundedParkedBatches);
}

#[test]
fn surface_durable_binding_carries_its_subscriptions_push_depth() {
    let mut raw = durable_surface_raw();
    raw.subscriptions[0].push_depth = Some(Depth::Bounded(5));
    let s = resolve_in(raw, alerts_dir());
    assert_eq!(s.subscriptions[0].push_depth, 5);
    assert_eq!(s.durable_subscriptions()[0].subscription.push_depth, Depth::Bounded(5));
}

#[test]
fn surface_one_instance_two_ports_share_a_subscription_folded_by_max() {
    let mut raw = durable_surface_raw();
    raw.subscriptions[0].push_depth = Some(Depth::Bounded(6));
    raw.subscriptions[0].retain_depth = Some(Depth::Bounded(2));
    let mut alt = sub_raw("brenn:alerts", "protobar", "alt");
    alt.push_depth = Some(Depth::Bounded(9));
    alt.retain_depth = Some(Depth::Bounded(5));
    raw.subscriptions.push(alt);
    let s = resolve_in(raw, bounded_alerts_dir());
    assert_eq!(s.subscriptions[0].push_depth, 6);
    assert_eq!(s.subscriptions[1].push_depth, 9);
    let durable = s.durable_subscriptions();
    assert_eq!(durable.len(), 1);
    assert_eq!(durable[0].instance, "protobar");
    assert_eq!(durable[0].subscription.push_depth, Depth::Bounded(9));
    assert_eq!(durable[0].subscription.retain_depth, Depth::Bounded(5));
}

#[test]
fn surface_shared_subscription_max_fold_is_order_independent() {
    let fold = |first: (u64, u64), second: (u64, u64)| {
        let mut raw = durable_surface_raw();
        raw.subscriptions[0].push_depth = Some(Depth::Bounded(first.0));
        raw.subscriptions[0].retain_depth = Some(Depth::Bounded(first.1));
        let mut alt = sub_raw("brenn:alerts", "protobar", "alt");
        alt.push_depth = Some(Depth::Bounded(second.0));
        alt.retain_depth = Some(Depth::Bounded(second.1));
        raw.subscriptions.push(alt);
        let durable = resolve_in(raw, bounded_alerts_dir()).durable_subscriptions();
        (durable[0].subscription.push_depth, durable[0].subscription.retain_depth)
    };
    let expected = (Depth::Bounded(9), Depth::Bounded(5));
    assert_eq!(fold((6, 5), (9, 2)), expected);
    assert_eq!(fold((9, 2), (6, 5)), expected);
}

#[test]
fn surface_shared_subscription_conflicting_noise_panics() {
    let mut raw = durable_surface_raw();
    raw.grants.push(SurfaceGrant::Alert);
    raw.subscriptions[0].push_depth = Some(Depth::Bounded(6));
    raw.subscriptions[0].noise = Some(NoiseLevel::Alarm);
    let mut alt = sub_raw("brenn:alerts", "protobar", "alt");
    alt.push_depth = Some(Depth::Bounded(9));
    alt.noise = Some(NoiseLevel::Silent);
    raw.subscriptions.push(alt);
    let fault = try_resolve(vec![raw], bounded_alerts_dir(), test_globals()).unwrap_err();
    assert_eq!(
        fault,
        SurfaceFault { surface: 0, item: 1, kind: SurfaceFaultKind::ConflictingNoise }
    );
}

#[test]
fn surface_shared_subscription_agreeing_noise_carries() {
    let mut raw = durable_surface_raw();
    raw.grants.push(SurfaceGrant::Alert);
    raw.subscriptions[0].push_depth = Some(Depth::Bounded(6));
    raw.subscriptions[0].noise = Some(NoiseLevel::Alarm);
    let mut alt = sub_raw("brenn:alerts", "protobar", "alt");
    alt.push_depth = Some(Depth::Bounded(9));
    alt.noise = Some(NoiseLevel::Alarm);
    raw.subscriptions.push(alt);
    let durable = resolve_in(raw, bounded_alerts_dir()).durable_subscriptions();
    assert_eq!(durable.len(), 1);
    assert_eq!(durable[0].subscription.noise, NoiseLevel::Alarm);
}

#[test]
fn surface_sibling_instances_on_one_channel_are_two_subscriptions() {
    let mut raw = durable_surface_raw();
    raw.subscriptions[0].push_depth = Some(Depth::Bounded(6));
    raw.components.push(component("agenda", Some("agenda-bob"), false));
    let mut bob = sub_raw("brenn:alerts", "agenda-bob", "in");
    bob.push_depth = Some(Depth::Bounded(9));
    raw.subscriptions.push(bob);
    let durable = resolve_in(raw, bounded_alerts_dir()).durable_subscriptions();
    assert_eq!(durable.len(), 2, "each instance owns its own subscription");
    let by_instance: Vec<(&str, Depth)> = durable
        .iter()
        .map(|d| (d.instance.as_str(), d.subscription.push_depth))
        .collect();
    assert_eq!(
        by_instance,
        vec![("protobar", Depth::Bounded(6)), ("agenda-bob", Depth::Bounded(9))]
    );
}

#[test]
fn surface_durable_push_depth_zero_resolves() {
    let mut raw = durable_surface_raw();
    raw.subscriptions.push(SurfaceSubscriptionRaw {
        push_depth: Some(Depth::Bounded(0)),
        retain_depth: Some(Depth::Bounded(4)),
        ..sub_raw("brenn:alerts", "protobar", "context")
    });
    let s = resolve_in(raw, alerts_dir());
    let ctx = s.subscriptions.iter().find(|b| b.port == "context").unwrap();
    assert_eq!(ctx.push_depth, 0);
    assert_eq!(ctx.retain_depth, 4);
}

#[test]
fn surface_skin_carries_through() {
    let mut raw = valid_surface_raw();
    raw.skin = Some("foundry".to_string());
    assert_eq!(resolve(raw).skin, "foundry");
}

#[test]
fn surface_unknown_skin_panics() {
    let mut raw = valid_surface_raw();
    raw.skin = Some("nonesuch".to_string());
    assert_eq!(refusal(raw), SurfaceFaultKind::UnknownSkin);
}

#[test]
fn surface_subscription_count_over_startup_attach_bound_panics() {
    let mut raw = valid_surface_raw();
    raw.subscriptions = (0..=MAX_BINDINGS)
        .map(|i| sub_raw("ephemeral:protobar-demo", "protobar", &format!("p{i}")))
        .collect();
    assert_eq!(refusal(raw), SurfaceFaultKind::TooManySubscriptions);
}

#[test]
fn surface_empty_allowed_user_panics() {
    let mut raw = valid_surface_raw();
    raw.allowed_users = vec!["".to_string()];
    assert_eq!(refusal(raw), SurfaceFaultKind::EmptyUser);
}

#[test]
fn surface_duplicate_allowed_user_panics() {
    let mut raw = valid_surface_raw();
    raw.allowed_users = vec!["alice".to_string(), "alice".to_string()];
    assert_eq!(refusal(raw), SurfaceFaultKind::DuplicateUser);
}

#[test]
fn surface_zero_publish_burst_panics() {
    let mut raw = valid_surface_raw();
    raw.publish_burst = Some(0);
    assert_eq!(refusal(raw), SurfaceFaultKind::ZeroPublishBurst);
}

#[test]
fn surface_zero_publish_per_sec_panics() {
    let mut raw = valid_surface_raw();
    raw.publish_per_sec = Some(0);
    assert_eq!(refusal(raw), SurfaceFaultKind::ZeroPublishPerSec);
}

#[test]
fn surface_at_ceiling_publish_budgets_resolve() {
    let mut raw = valid_surface_raw();
    raw.publish_burst = Some(SENDER_BURST);
    raw.publish_per_sec = Some(SENDER_REFILL);
    let s = resolve(raw);
    assert_eq!(s.publish_burst, SENDER_BURST);
    assert_eq!(s.publish_per_sec, SENDER_REFILL);
}

#[test]
fn surface_over_ceiling_publish_burst_panics() {
    let mut raw = valid_surface_raw();
    raw.publish_burst = Some(SENDER_BURST + 1);
    assert_eq!(refusal(raw), SurfaceFaultKind::PublishBurstCeiling);
}

#[test]
fn surface_over_ceiling_publish_per_sec_panics() {
    let mut raw = valid_surface_raw();
    raw.publish_per_sec = Some(SENDER_REFILL + 1);
    assert_eq!(refusal(raw), SurfaceFaultKind::PublishPerSecCeiling);
}

#[test]
fn surface_bad_slug_charset_panics() {
    let mut raw = valid_surface_raw();
    raw.slug = "desk:bar".to_string();
    assert_eq!(refusal(raw), SurfaceFaultKind::SlugCharset);
}

#[test]
fn misshapen_surfaces_are_refused() {
    let mut raw = valid_surface_raw();
    for i in 0..limits().max_components {
        raw.components.push(component("agenda", Some(&format!("a{i}")), false));
    }
    assert_eq!(refusal(raw), SurfaceFaultKind::TooManyComponents);

    let mut globals = test_globals();
    globals.default_send_rate.refill_interval_secs = 2;
    let fault = try_resolve(vec![valid_surface_raw()], surface_dir(), globals).unwrap_err();
    assert_eq!(fault.kind, SurfaceFaultKind::SendRateInterval);

    let mut raw = valid_surface_raw();
    raw.slug = String::new();
    assert_eq!(refusal(raw), SurfaceFaultKind::EmptySlug);

    let mut raw = valid_surface_raw();
    raw.outputs[0].port = String::new();
    assert_eq!(refusal(raw), SurfaceFaultKind::EmptyPort);

    let mut raw = valid_surface_raw();
    raw.components[1].instance = Some("Side car".to_string());
    assert_eq!(refusal(raw), SurfaceFaultKind::InstanceShape);
}

#[test]
fn a_channel_that_cannot_feed_a_page_is_refused() {
    let mut entry = ephem("protobar-demo");
    entry.transport_type = ChannelScheme::Brenn;
    let dir = dir_of(vec![brenn_entry("brenn:alerts"), entry]);
    assert_eq!(refusal_in(valid_surface_raw(), dir), SurfaceFaultKind::WrongTransport);

    let dir = dir_of(vec![
        brenn_entry("brenn:alerts"),
        ephem_with("protobar-demo", Depth::Bounded(8), 0, NoiseLevel::Silent),
    ]);
    assert_eq!(
        refusal_in(valid_surface_raw(), dir),
        SurfaceFaultKind::ChannelRetainsNothing
    );
}

#[test]
fn surface_duplicate_slug_panics() {
    let fault = try_resolve(
        vec![valid_surface_raw(), valid_surface_raw()],
        surface_dir(),
        test_globals(),
    )
    .unwrap_err();
    assert_eq!(
        fault,
        SurfaceFault { surface: 1, item: 0, kind: SurfaceFaultKind::DuplicateSlug }
    );
}

#[test]
fn surface_duplicate_component_instance_panics() {
    let mut raw = valid_surface_raw();
    raw.components.push(component("protobar", None, false));
    let fault = try_resolve(vec![raw], surface_dir(), test_globals()).unwrap_err();
    assert_eq!(
        fault,
        SurfaceFault { surface: 0, item: 3, kind: SurfaceFaultKind::DuplicateInstance }
    );
}

#[test]
fn surface_exactly_one_chrome_resolves() {
    let s = resolve(valid_surface_raw());
    let chrome: Vec<&str> =
        s.components.iter().filter(|c| c.chrome).map(|c| c.instance.as_str()).collect();
    assert_eq!(chrome, vec!["chrome"], "exactly one chrome component");
}

#[test]
fn surface_zero_chrome_panics() {
    let mut raw = valid_surface_raw();
    for comp in &mut raw.components {
        comp.chrome = false;
    }
    assert_eq!(refusal(raw), SurfaceFaultKind::ChromeCount);
}

#[test]
fn surface_two_chrome_panics() {
    let mut raw = valid_surface_raw();
    raw.components[0].chrome = true;
    assert_eq!(refusal(raw), SurfaceFaultKind::ChromeCount);
}

#[test]
fn surface_two_instances_of_one_kind_ok() {
    let mut raw = valid_surface_raw();
    raw.components.push(component("protobar", Some("p2"), false));
    let s = resolve(raw);
    let kinds: Vec<&str> = s.components.iter().map(|c| c.kind.as_str()).collect();
    assert_eq!(kinds, vec!["protobar", "sidecar", "chrome", "protobar"]);
    let instances: Vec<&str> = s.components.iter().map(|c| c.instance.as_str()).collect();
    assert_eq!(instances, vec!["protobar", "sidecar", "chrome", "p2"]);
}

#[test]
fn surface_component_send_budget_defaults_when_undeclared() {
    for comp in &resolve(valid_surface_raw()).components {
        assert_eq!(comp.send_budget, default_send());
    }
}

#[test]
fn surface_component_send_budget_knobs_override_independently() {
    let mut raw = valid_surface_raw();
    raw.components[0].send_burst = Some(300);
    raw.components[1].send_refill_secs = Some(90);
    let s = resolve(raw);
    assert_eq!(
        s.components[0].send_budget,
        AttachSendBudget { burst: 300, refill_secs: default_send().refill_secs }
    );
    assert_eq!(
        s.components[1].send_budget,
        AttachSendBudget { burst: default_send().burst, refill_secs: 90 }
    );
}

#[test]
fn surface_sibling_instances_carry_their_own_send_budgets() {
    let mut raw = valid_surface_raw();
    raw.components.push(SurfaceComponentRaw {
        send_burst: Some(512),
        ..component("protobar", Some("p2"), false)
    });
    let s = resolve(raw);
    let budgets: Vec<(&str, u32)> =
        s.components.iter().map(|c| (c.instance.as_str(), c.send_budget.burst)).collect();
    let stock = default_send().burst;
    assert_eq!(
        budgets,
        vec![("protobar", stock), ("sidecar", stock), ("chrome", stock), ("p2", 512)]
    );
}

#[test]
fn surface_principal_send_budgets_cover_every_principal() {
    let mut raw = valid_surface_raw();
    raw.components[0].send_burst = Some(400);
    let s = resolve(raw);
    let budgeted = s.principal_send_budgets(default_send());
    let principals = s.principals();
    let named: Vec<Option<String>> = budgeted.iter().map(|(p, _)| p.clone()).collect();
    assert_eq!(named, principals);
    assert_eq!(principals.len(), 4);
    assert_eq!(principals[0], None);
    assert_eq!(budgeted[0].1, default_send(), "kernel grain");
    assert_eq!(budgeted[1].1.burst, 400, "the declared instance's override");
}

#[test]
fn surface_component_zero_send_burst_panics() {
    let mut raw = valid_surface_raw();
    raw.components[0].send_burst = Some(0);
    assert_eq!(refusal(raw), SurfaceFaultKind::ZeroSendBurst);
}

#[test]
fn surface_component_send_burst_below_the_activation_cap_panics() {
    let mut raw = valid_surface_raw();
    raw.components[0].send_burst = Some(MAX_PUBLISHES_PER_ACTIVATION - 1);
    assert_eq!(refusal(raw), SurfaceFaultKind::SendBurstBelowFlush);
    assert!(assert_backstop_covers_a_maximal_flush(255).is_err());
    assert!(assert_backstop_covers_a_maximal_flush(256).is_ok());
}

#[test]
fn surface_component_default_send_burst_covers_a_maximal_flush() {
    let s = resolve(valid_surface_raw());
    assert!(s.components[0].send_budget.burst >= MAX_PUBLISHES_PER_ACTIVATION);
}

#[test]
fn surface_component_zero_send_refill_panics() {
    let mut raw = valid_surface_raw();
    raw.components[0].send_refill_secs = Some(0);
    assert_eq!(refusal(raw), SurfaceFaultKind::ZeroSendRefill);
}

#[test]
fn surface_unknown_component_panics() {
    let mut raw = valid_surface_raw();
    raw.subscriptions[0].instance = "ghost".to_string();
    assert_eq!(refusal(raw), SurfaceFaultKind::UndeclaredInstance);
}

#[test]
fn surface_bad_port_charset_panics() {
    let mut raw = valid_surface_raw();
    raw.subscriptions[0].port = "bad:port".to_string();
    assert_eq!(refusal(raw), SurfaceFaultKind::PortCharset);
}

#[test]
fn surface_wrong_scheme_channel_panics() {
    let mut raw = valid_surface_raw();
    raw.subscriptions[0].channel = Some("mqtt:client:topic".to_string());
    assert_eq!(refusal(raw), SurfaceFaultKind::SchemeRefused);
}

#[test]
fn surface_unknown_ephemeral_channel_panics() {
    assert_eq!(refusal_in(valid_surface_raw(), alerts_dir()), SurfaceFaultKind::UnknownChannel);
}

#[test]
fn surface_unknown_brenn_channel_panics() {
    let dir = dir_of(vec![brenn_entry("brenn:other"), ephem("protobar-demo")]);
    assert_eq!(refusal_in(valid_surface_raw(), dir), SurfaceFaultKind::UnknownChannel);
}

#[test]
fn surface_duplicate_subscription_port_panics() {
    let mut raw = valid_surface_raw();
    raw.subscriptions.push(sub_raw("ephemeral:protobar-demo", "protobar", "messages"));
    assert_eq!(refusal(raw), SurfaceFaultKind::DuplicateBinding);
}

#[test]
fn surface_subscription_not_covered_panics() {
    let mut raw = valid_surface_raw();
    raw.grants = vec![SurfaceGrant::Publish];
    assert_eq!(refusal(raw), SurfaceFaultKind::NotAuthorized);
}

#[test]
fn surface_output_not_covered_panics() {
    let mut raw = valid_surface_raw();
    raw.grants = vec![SurfaceGrant::EphemeralSubscribe];
    let resolved = vec![resolve(raw)];
    assert_eq!(
        assert_output_bindings_covered(&resolved),
        Err(UncoveredOutput { surface: 0, output: 0 })
    );
}

#[test]
fn surface_output_to_error_channel_covered_by_injected_grant() {
    let dir = dir_of(vec![
        brenn_entry("brenn:alerts"),
        brenn_entry("brenn:surface-errors"),
        ephem("protobar-demo"),
    ]);
    let mut raw = valid_surface_raw();
    raw.grants = vec![SurfaceGrant::EphemeralSubscribe, SurfaceGrant::Publish];
    raw.outputs.push(out_raw("protobar", "errors", "brenn:surface-errors"));
    let mut resolved = vec![resolve_in(raw, dir)];
    assert_eq!(
        assert_output_bindings_covered(&resolved),
        Err(UncoveredOutput { surface: 0, output: 1 })
    );
    inject_surface_error_grant(&mut resolved, "surface-errors");
    assert_eq!(assert_output_bindings_covered(&resolved), Ok(()));
}

#[test]
fn surface_zero_components_panics() {
    let mut raw = valid_surface_raw();
    raw.components = vec![];
    raw.subscriptions = vec![];
    raw.outputs = vec![];
    assert_eq!(refusal(raw), SurfaceFaultKind::NoComponents);
}

#[test]
fn surface_duplicate_output_port_panics() {
    let mut raw = valid_surface_raw();
    raw.outputs.push(out_raw("protobar", "out", "brenn:alerts"));
    assert_eq!(refusal(raw), SurfaceFaultKind::DuplicateBinding);
}

#[test]
fn surface_empty_component_kind_panics() {
    let mut raw = valid_surface_raw();
    raw.components[0].kind = String::new();
    assert_eq!(refusal(raw), SurfaceFaultKind::EmptyKind);
}

#[test]
fn surface_bad_component_kind_charset_panics() {
    let mut raw = valid_surface_raw();
    raw.components[0].kind = "bad:kind".to_string();
    assert_eq!(refusal(raw), SurfaceFaultKind::KindShape);
}

#[test]
fn surface_uppercase_component_kind_panics() {
    let mut raw = valid_surface_raw();
    raw.components[0].kind = "Protobar".to_string();
    assert_eq!(refusal(raw), SurfaceFaultKind::KindShape);
}

#[test]
fn surface_underscore_component_kind_panics() {
    let mut raw = valid_surface_raw();
    raw.components[0].kind = "echo_stub".to_string();
    assert_eq!(refusal(raw), SurfaceFaultKind::KindShape);
}

#[test]
fn surface_leading_hyphen_component_kind_panics() {
    let mut raw = valid_surface_raw();
    raw.components[0].kind = "-protobar".to_string();
    assert_eq!(refusal(raw), SurfaceFaultKind::KindShape);
}

#[test]
fn surface_unreferenced_ephemeral_channel_allowed() {
    let dir = dir_of(vec![
        brenn_entry("brenn:alerts"),
        ephem("protobar-demo"),
        ephem("unused"),
    ]);
    assert_eq!(resolve_in(valid_surface_raw(), dir).subscriptions.len(), 1);
}

#[test]
fn local_bindings_resolve_without_a_directory_entry_or_acl() {
    let s = resolve_local(local_surface_raw());
    assert_eq!(s.subscriptions.len(), 1);
    assert_eq!(s.subscriptions[0].channel_address, "local:page-bus");
    assert_eq!(s.outputs.len(), 2);
    assert_eq!(
        s.local_channels,
        vec![
            ResolvedLocalChannel { address: "local:page-bus".to_string(), ring_depth: 1 },
            ResolvedLocalChannel { address: "local:brenn/theme".to_string(), ring_depth: 1 },
        ]
    );
    assert!(!s.policy.allows_channel_access("local:page-bus"));
}

#[test]
fn local_ring_depth_is_the_max_over_bindings() {
    let mut raw = local_surface_raw();
    raw.subscriptions = [("in", 3), ("in2", 9), ("in3", 5)]
        .iter()
        .map(|(port, depth)| SurfaceSubscriptionRaw {
            retain_depth: Some(Depth::Bounded(*depth)),
            ..sub_raw("local:page-bus", "protobar", port)
        })
        .collect();
    assert_eq!(resolve_local(raw).local_channels[0].ring_depth, 9);
}

#[test]
fn local_ring_depth_floors_at_one() {
    let mut raw = local_surface_raw();
    raw.subscriptions = vec![SurfaceSubscriptionRaw {
        retain_depth: Some(Depth::Bounded(0)),
        ..sub_raw("local:page-bus", "protobar", "in")
    }];
    assert_eq!(resolve_local(raw).local_channels[0].ring_depth, 1);
}

#[test]
fn local_output_only_channel_is_declared_to_the_router() {
    let mut raw = local_surface_raw();
    raw.subscriptions = vec![];
    let s = resolve_local(raw);
    let addrs: Vec<&str> = s.local_channels.iter().map(|c| c.address.as_str()).collect();
    assert_eq!(addrs, vec!["local:page-bus", "local:brenn/theme"]);
}

#[test]
fn local_unbounded_retain_depth_panics() {
    let mut raw = local_surface_raw();
    raw.subscriptions[0].retain_depth = Some(Depth::Unbounded);
    assert_eq!(local_refusal(raw), SurfaceFaultKind::UnboundedRing);
}

#[test]
fn local_binding_honours_push_depth() {
    let mut raw = local_surface_raw();
    raw.subscriptions[0].push_depth = Some(Depth::Bounded(2));
    let s = resolve_local(raw);
    assert_eq!(s.subscriptions[0].push_depth, 2);
    assert_eq!(s.local_channels[0].ring_depth, 1);
}

#[test]
fn local_binding_inherits_the_global_push_depth() {
    assert_eq!(resolve_local(local_surface_raw()).subscriptions[0].push_depth, 8);
}

#[test]
fn local_wake_min_panics() {
    let mut raw = local_surface_raw();
    raw.subscriptions[0].wake_min = Some(WakeMin::High);
    assert_eq!(local_refusal(raw), SurfaceFaultKind::WakeMinSet);
}

#[test]
fn local_retain_depth_on_a_reserved_channel_panics() {
    let mut raw = local_surface_raw();
    raw.subscriptions = vec![SurfaceSubscriptionRaw {
        retain_depth: Some(Depth::Bounded(4)),
        ..sub_raw("local:brenn/theme", "protobar", "theme-in")
    }];
    assert_eq!(local_refusal(raw), SurfaceFaultKind::PlaneRetainFixed);
}

#[test]
fn reserved_local_channels_carry_their_contract_fixed_ring_depths() {
    let mut raw = local_surface_raw();
    raw.grants = vec![SurfaceGrant::Takeover];
    raw.outputs = vec![];
    raw.subscriptions = vec![
        sub_raw("local:brenn/theme", "protobar", "p1"),
        sub_raw("local:brenn/takeover", "protobar", "p2"),
        sub_raw("local:brenn/link-state", "protobar", "p3"),
        sub_raw("local:brenn/surface-state", "protobar", "p4"),
        sub_raw("local:brenn/toast", "protobar", "p5"),
    ];
    let s = resolve_local(raw);
    let depths: Vec<(&str, u64)> =
        s.local_channels.iter().map(|c| (c.address.as_str(), c.ring_depth)).collect();
    assert_eq!(
        depths,
        vec![
            ("local:brenn/theme", 1),
            ("local:brenn/takeover", 1),
            ("local:brenn/link-state", 1),
            ("local:brenn/surface-state", 1),
            ("local:brenn/toast", 0),
        ]
    );
}

#[test]
fn local_takeover_binding_without_the_grant_panics() {
    let mut raw = local_surface_raw();
    raw.subscriptions = vec![sub_raw("local:brenn/takeover", "protobar", "t")];
    assert_eq!(local_refusal(raw), SurfaceFaultKind::TakeoverGrantMissing);
}

#[test]
fn local_takeover_binding_with_the_grant_resolves() {
    let mut raw = local_surface_raw();
    raw.grants = vec![SurfaceGrant::Takeover];
    raw.subscriptions = vec![sub_raw("local:brenn/takeover", "protobar", "t")];
    raw.outputs = vec![];
    assert_eq!(resolve_local(raw).local_channels[0].address, "local:brenn/takeover");
}

#[test]
fn local_output_to_a_kernel_only_plane_panics() {
    let mut raw = local_surface_raw();
    raw.subscriptions = vec![];
    raw.outputs = vec![out_raw("protobar", "out", "local:brenn/link-state")];
    assert_eq!(local_refusal(raw), SurfaceFaultKind::KernelPlane);
}

#[test]
fn local_subscription_to_a_kernel_only_plane_resolves() {
    let mut raw = local_surface_raw();
    raw.subscriptions = vec![sub_raw("local:brenn/link-state", "protobar", "ls")];
    raw.outputs = vec![];
    assert_eq!(resolve_local(raw).local_channels[0].address, "local:brenn/link-state");
}

#[test]
fn local_undefined_reserved_channel_panics() {
    let mut raw = local_surface_raw();
    raw.subscriptions = vec![sub_raw("local:brenn/nonesuch", "protobar", "in")];
    assert_eq!(local_refusal(raw), SurfaceFaultKind::UndefinedPlane);
}

#[test]
fn local_operator_channel_with_a_slash_panics() {
    let mut raw = local_surface_raw();
    raw.subscriptions = vec![sub_raw("local:mine/own", "protobar", "in")];
    assert_eq!(local_refusal(raw), SurfaceFaultKind::LocalCharset);
}

#[test]
fn local_empty_channel_name_panics() {
    let mut raw = local_surface_raw();
    raw.subscriptions = vec![sub_raw("local:", "protobar", "in")];
    assert_eq!(local_refusal(raw), SurfaceFaultKind::EmptyLocalName);
}

fn surface_with_abi(abi: &str) -> SurfaceConfigRaw {
    let mut raw = minimal_surface_raw();
    raw.components[0].abi = abi.to_string();
    raw
}

#[test]
fn component_abi_dom_resolves() {
    assert_eq!(resolve_local(surface_with_abi("dom")).components[0].abi, Abi::Dom);
}

#[test]
fn component_abi_processor_resolves() {
    assert_eq!(resolve_local(surface_with_abi("processor")).components[0].abi, Abi::Processor);
}

#[test]
fn component_abi_dom_ts_panics() {
    assert_eq!(local_refusal(surface_with_abi("dom-ts")), SurfaceFaultKind::UnsupportedAbi);
}

#[test]
fn component_abi_html_panics() {
    assert_eq!(local_refusal(surface_with_abi("html")), SurfaceFaultKind::UnsupportedAbi);
}

#[test]
fn component_abi_unknown_panics() {
    assert_eq!(local_refusal(surface_with_abi("wasm")), SurfaceFaultKind::UnknownAbi);
}

#[test]
fn component_abi_is_case_sensitive() {
    assert_eq!(local_refusal(surface_with_abi("DOM")), SurfaceFaultKind::UnknownAbi);
}

fn resolve_with_component_config(
    config: Option<std::collections::BTreeMap<String, String>>,
    abi: &str,
) -> Result<Vec<ResolvedSurface>, SurfaceFault> {
    let mut raw = valid_surface_raw();
    raw.components[0].abi = abi.to_string();
    raw.components[0].config = config.map(|map| map.into_iter().collect());
    try_resolve(vec![raw], surface_dir(), test_globals())
}

#[test]
fn processor_component_config_resolves() {
    let map = std::collections::BTreeMap::from([
        ("horizon-days".to_string(), "30".to_string()),
        ("mode".to_string(), "digest".to_string()),
    ]);
    let resolved = resolve_with_component_config(Some(map.clone()), "processor").unwrap();
    let config: std::collections::BTreeMap<String, String> =
        resolved[0].components[0].config.iter().cloned().collect();
    assert_eq!(config, map);
}

#[test]
fn absent_component_config_resolves_empty() {
    let resolved = resolve_with_component_config(None, "processor").unwrap();
    assert!(resolved[0].components[0].config.is_empty());
}

#[test]
fn component_config_on_a_dom_component_panics() {
    let map = std::collections::BTreeMap::from([("k".to_string(), "v".to_string())]);
    let fault = resolve_with_component_config(Some(map), "dom").unwrap_err();
    assert_eq!(fault.kind, SurfaceFaultKind::ConfigWithoutReader);
}

#[test]
fn component_config_brenn_prefixed_key_panics() {
    let map = std::collections::BTreeMap::from([("brenn.instance".to_string(), "x".to_string())]);
    let fault = resolve_with_component_config(Some(map), "processor").unwrap_err();
    assert_eq!(fault.kind, SurfaceFaultKind::ReservedConfigKey);
}

#[test]
fn a_binding_at_depth_zero_with_context_is_legal() {
    assert_eq!(assert_page_queue_deliverable(0, 4, None), Ok(()));
}

#[test]
fn noise_on_a_binding_at_depth_zero_panics() {
    assert_eq!(
        assert_page_queue_deliverable(0, 4, Some(NoiseLevel::Metered)),
        Err(SurfaceFaultKind::NoiseWithoutQueue)
    );
}

#[test]
fn a_binding_with_no_push_and_no_context_panics() {
    assert_eq!(assert_page_queue_deliverable(0, 0, None), Err(SurfaceFaultKind::DeadPort));
}

#[test]
fn a_triggering_binding_may_declare_noise_and_no_context() {
    assert_eq!(assert_page_queue_deliverable(8, 0, Some(NoiseLevel::Metered)), Ok(()));
}

#[test]
fn an_instance_whose_every_binding_is_context_only_panics() {
    let dead = assert_instance_can_activate("deskbar", "protobar", &[0, 0]).unwrap_err();
    assert_eq!(dead.slug, "deskbar");
    assert_eq!(dead.instance, "protobar");
    assert_eq!(dead.bindings, 2);
}

#[test]
fn an_instance_with_one_triggering_binding_can_activate() {
    assert!(assert_instance_can_activate("deskbar", "protobar", &[0, 1, 0]).is_ok());
}

#[test]
fn an_instance_with_no_input_bindings_is_not_judged() {
    assert!(assert_instance_can_activate("deskbar", "protobar", &[]).is_ok());
}

#[test]
fn a_surface_whose_instance_cannot_activate_is_refused() {
    let mut raw = durable_surface_raw();
    raw.subscriptions[0].push_depth = Some(Depth::Bounded(0));
    assert_eq!(refusal_in(raw, alerts_dir()), SurfaceFaultKind::CannotActivate);
}

fn io_surface_raw() -> SurfaceConfigRaw {
    SurfaceConfigRaw {
        io_ports: vec![SurfaceIoPortRaw {
            instance: "protobar".to_string(),
            port: "loop".to_string(),
            channel: None,
            push_depth: Some(Depth::Bounded(2)),
            retain_depth: Some(Depth::Bounded(5)),
            noise: None,
            urgency: Some(Urgency::Low),
            publish_per_activation_mt: Some(1500),
            publish_capacity_mt: None,
        }],
        ..minimal_surface_raw()
    }
}

fn wired_to(address: &str) -> AutoWiring {
    AutoWiring {
        ports: vec![AutoPort {
            slug: "deskbar".to_string(),
            instance: "protobar".to_string(),
            port: "loop".to_string(),
            address: address.to_string(),
        }],
        grants: vec![],
    }
}

fn auto_grant(slug: &str, capability: AppCapability, name: &str) -> AutoGrant {
    AutoGrant { slug: slug.to_string(), capability, name: name.to_string() }
}

#[test]
fn an_io_port_binds_both_directions_of_its_page_local_channel() {
    let resolved = resolve_surfaces(
        &[io_surface_raw()],
        &dir_of(vec![]),
        &test_globals(),
        &wired_to("local:auto.loop"),
        &limits(),
    )
    .unwrap();
    let s = &resolved[0];
    assert_eq!(s.subscriptions.len(), 1);
    assert_eq!(s.subscriptions[0].channel_address, "local:auto.loop");
    assert_eq!(s.subscriptions[0].port, "loop");
    assert_eq!(s.subscriptions[0].push_depth, 2);
    assert_eq!(s.subscriptions[0].retain_depth, 5);
    assert_eq!(s.outputs.len(), 1);
    assert_eq!(s.outputs[0].channel_address, "local:auto.loop");
    assert_eq!(s.outputs[0].port, "loop");
    assert_eq!(s.outputs[0].default_urgency, Urgency::Low);
    assert_eq!(s.outputs[0].budget, SinkBudget { fill_mt: 1500, capacity_mt: 1000 });
    assert_eq!(
        s.local_channels,
        vec![ResolvedLocalChannel { address: "local:auto.loop".to_string(), ring_depth: 5 }]
    );
    assert!(s.policy.acls.ephemeral_subscribe.is_empty());
    assert!(s.policy.acls.ephemeral_publish.is_empty());
}

#[test]
fn a_page_local_io_port_without_a_retain_depth_gets_a_ring_of_one() {
    let mut raw = io_surface_raw();
    raw.io_ports[0].retain_depth = None;
    let wiring = wired_to("local:auto.loop");
    let resolved =
        resolve_surfaces(&[raw], &dir_of(vec![]), &stock_globals(), &wiring, &limits()).unwrap();
    assert_eq!(resolved[0].local_channels.len(), 1);
    assert_eq!(resolved[0].local_channels[0].ring_depth, 1);
}

#[test]
fn a_page_local_io_port_without_a_push_depth_is_refused_under_an_unbounded_default() {
    let mut raw = io_surface_raw();
    raw.io_ports[0].push_depth = None;
    let wiring = wired_to("local:auto.loop");
    let fault = resolve_surfaces(&[raw], &dir_of(vec![]), &stock_globals(), &wiring, &limits())
        .unwrap_err();
    assert_eq!(fault.kind, SurfaceFaultKind::UnboundedQueue);
}

#[test]
fn a_named_page_local_channel_shares_its_ring_with_an_operator_binding() {
    let mut raw = io_surface_raw();
    raw.subscriptions = vec![SurfaceSubscriptionRaw {
        retain_depth: Some(Depth::Bounded(9)),
        ..sub_raw("local:bar.loop", "chrome", "snoop")
    }];
    let wiring = wired_to("local:bar.loop");
    let resolved =
        resolve_surfaces(&[raw], &dir_of(vec![]), &test_globals(), &wiring, &limits()).unwrap();
    let s = &resolved[0];
    for sub in &s.subscriptions {
        assert_eq!(sub.channel_address, "local:bar.loop");
    }
    assert_eq!(s.outputs[0].channel_address, "local:bar.loop");
    assert_eq!(
        s.local_channels,
        vec![ResolvedLocalChannel { address: "local:bar.loop".to_string(), ring_depth: 9 }]
    );
}

#[test]
fn a_wired_port_takes_its_rights_from_the_wiring() {
    let wiring = AutoWiring {
        grants: vec![
            auto_grant("deskbar", AppCapability::EphemeralSubscribe, "protobar-demo"),
            auto_grant("deskbar", AppCapability::EphemeralPublish, "protobar-demo"),
            auto_grant("other", AppCapability::MessagingPublish, "alerts"),
        ],
        ..wired_to("ephemeral:protobar-demo")
    };
    let resolved =
        resolve_surfaces(&[io_surface_raw()], &surface_dir(), &test_globals(), &wiring, &limits())
            .unwrap();
    assert_eq!(resolved[0].subscriptions[0].channel_address, "ephemeral:protobar-demo");
    assert!(resolved[0].policy.allows_channel_access("ephemeral:protobar-demo"));
    assert!(!resolved[0].policy.allows_brenn_publish("alerts"));
    assert_eq!(assert_output_bindings_covered(&resolved), Ok(()));
}

#[test]
fn a_port_without_a_channel_or_with_two_is_refused() {
    assert_eq!(local_refusal(io_surface_raw()), SurfaceFaultKind::UnboundPort);
    let mut raw = local_surface_raw();
    raw.subscriptions[0].port = "loop".to_string();
    let wiring = wired_to("local:auto.loop");
    let fault = resolve_surfaces(&[raw], &dir_of(vec![]), &test_globals(), &wiring, &limits())
        .unwrap_err();
    assert_eq!(fault.kind, SurfaceFaultKind::PortClaimedTwice);
}
