//! The small rules everything else is built from.

use brenn_server::address::{
    is_reserved_local_namespace, is_unreserved, is_valid_kind, reserved_local_channel,
    split_mqtt_address, ChannelScheme, MqttAddress, ReservedLocalChannel,
};
use brenn_server::directory::{
    ChannelEntry, MessagingDirectory, ResolvedChannel, SubscriberEntry, SubscriberEntryKind,
};
use brenn_server::gc::{
    sweep_channel, ChannelSweep, CleanupLoop, PushRetirement, BUS_GC_STAGGER_SECS,
    HOURLY_INTERVAL_SECS,
};
use brenn_server::model::{resolve_sink_budget, Depth, NoiseLevel, Sink, SinkBudget, WakeMin};
use brenn_server::policy::{AppCapability, AppPolicy, ChannelMatcher};
use brenn_server::surface_model::{AttachSendBudget, SurfaceFaultKind, SurfaceGrant};
use brenn_server::surface_rules::{
    accumulate_local_ring_depth, bound_channel, resolve_context_ring_depth,
    resolve_page_queue_depth, resolve_parked_batch_depth, resolve_send_budget,
};
use indexmap::IndexMap;

#[test]
fn a_depth_widens_to_the_larger_and_the_loud_levels_alert() {
    assert_eq!(Depth::Bounded(3).widened_by(Depth::Bounded(5)), Depth::Bounded(5));
    assert_eq!(Depth::Bounded(5).widened_by(Depth::Bounded(3)), Depth::Bounded(5));
    assert_eq!(Depth::Bounded(5).widened_by(Depth::Unbounded), Depth::Unbounded);
    assert_eq!(Depth::Unbounded.widened_by(Depth::Bounded(5)), Depth::Unbounded);
    assert!(!Depth::Bounded(0).is_push_enabled());
    assert!(Depth::Bounded(1).is_push_enabled());
    assert!(Depth::Unbounded.is_push_enabled());
    let loud: Vec<bool> =
        [NoiseLevel::Silent, NoiseLevel::Metered, NoiseLevel::Alarm, NoiseLevel::Fatal]
            .iter()
            .map(|n| n.alerts())
            .collect();
    assert_eq!(loud, vec![false, false, true, true]);
}

#[test]
fn an_unset_budget_knob_is_one_publish() {
    assert_eq!(
        resolve_sink_budget(None, Some(250)),
        SinkBudget { fill_mt: 1000, capacity_mt: 250 }
    );
    assert_eq!(
        resolve_sink_budget(Some(0), None),
        SinkBudget { fill_mt: 0, capacity_mt: 1000 }
    );
}

#[test]
fn an_address_splits_into_scheme_and_name() {
    assert_eq!(
        ChannelScheme::split("brenn:alerts"),
        Some((ChannelScheme::Brenn, "alerts".to_string()))
    );
    assert_eq!(
        ChannelScheme::split("ephemeral:a:b"),
        Some((ChannelScheme::Ephemeral, "a:b".to_string()))
    );
    assert_eq!(
        ChannelScheme::split("local:brenn/theme"),
        Some((ChannelScheme::Local, "brenn/theme".to_string()))
    );
    assert_eq!(
        ChannelScheme::split("webhook:"),
        Some((ChannelScheme::Webhook, String::new()))
    );
    assert_eq!(ChannelScheme::split("brenn"), None);
    assert_eq!(ChannelScheme::split("http:x"), None);
}

#[test]
fn an_mqtt_address_has_a_client_and_a_topic() {
    assert_eq!(
        split_mqtt_address("mqtt:home:a/b:c"),
        Some(MqttAddress { client: "home".to_string(), topic: "a/b:c".to_string() })
    );
    assert_eq!(split_mqtt_address("mqtt:home"), None);
    assert_eq!(split_mqtt_address("brenn:home:a"), None);
}

#[test]
fn names_keep_to_their_alphabet() {
    assert!(is_unreserved("a-Z_0.9~"));
    assert!(!is_unreserved("a:b"));
    assert!(!is_unreserved("a/b"));
    assert!(is_valid_kind("protobar-2"));
    assert!(is_valid_kind("2bar"));
    assert!(!is_valid_kind(""));
    assert!(!is_valid_kind("a--b"));
    assert!(!is_valid_kind("-bar"));
    assert!(!is_valid_kind("Bar"));
    assert!(!is_valid_kind("a_b"));
}

#[test]
fn the_reserved_planes_are_fixed() {
    assert_eq!(
        reserved_local_channel("local:brenn/takeover"),
        Some(ReservedLocalChannel {
            ring_depth: 1,
            requires_takeover_grant: true,
            kernel_publish_only: false,
        })
    );
    assert_eq!(reserved_local_channel("local:brenn/toast").unwrap().ring_depth, 0);
    assert!(reserved_local_channel("local:brenn/link-state").unwrap().kernel_publish_only);
    assert_eq!(reserved_local_channel("local:page-bus"), None);
    assert!(is_reserved_local_namespace("local:brenn/nonesuch"));
    assert!(!is_reserved_local_namespace("local:page-bus"));
}

#[test]
fn a_right_takes_both_the_grant_and_the_list() {
    let mut policy = AppPolicy::new();
    assert!(!policy.allows_channel_access("brenn:a"));
    policy.acls.brenn_subscribe = vec![ChannelMatcher::Prefix("a".to_string())];
    assert!(!policy.allows_channel_access("brenn:ab"));
    policy.grants.insert(AppCapability::MessagingSubscribe);
    assert!(policy.allows_channel_access("brenn:ab"));
    assert!(!policy.allows_channel_access("brenn:ba"));
    assert!(!policy.allows_channel_access("ephemeral:ab"));
    policy.grant(AppCapability::EphemeralPublish, "x");
    assert!(policy.allows_ephemeral_publish("x"));
    assert!(!policy.allows_brenn_publish("x"));
    assert_eq!(SurfaceGrant::Takeover.capability(), AppCapability::SurfaceTakeover);
}

#[test]
fn page_memory_is_bounded() {
    assert_eq!(resolve_page_queue_depth(Some(Depth::Bounded(3)), None), Ok(3));
    assert_eq!(resolve_page_queue_depth(None, Some(Depth::Bounded(4))), Ok(4));
    assert_eq!(
        resolve_page_queue_depth(None, None),
        Err(SurfaceFaultKind::UnstatedQueue)
    );
    assert_eq!(
        resolve_page_queue_depth(Some(Depth::Unbounded), Some(Depth::Bounded(4))),
        Err(SurfaceFaultKind::UnboundedQueue)
    );
    assert_eq!(resolve_context_ring_depth(None, Depth::Bounded(2)), Ok(2));
    assert_eq!(resolve_context_ring_depth(Some(Depth::Bounded(7)), Depth::Unbounded), Ok(7));
    assert_eq!(
        resolve_context_ring_depth(None, Depth::Unbounded),
        Err(SurfaceFaultKind::UnboundedContext)
    );
    let mut rings = IndexMap::from([("local:brenn/theme".to_string(), 5), ("local:bus".to_string(), 5)]);
    let mut ask = |channel: &str, depth: Option<Depth>| {
        let outcome = accumulate_local_ring_depth(&mut rings, channel, depth);
        (outcome, rings.get(channel).copied())
    };
    assert_eq!(ask("local:brenn/theme", None), (Ok(()), Some(1)), "a plane's depth is fixed");
    assert_eq!(
        ask("local:brenn/theme", Some(Depth::Bounded(9))),
        (Err(SurfaceFaultKind::PlaneRetainFixed), Some(1))
    );
    assert_eq!(ask("local:bus", Some(Depth::Bounded(3))), (Ok(()), Some(5)));
    assert_eq!(ask("local:bus", Some(Depth::Bounded(7))), (Ok(()), Some(7)));
    assert_eq!(
        ask("local:bus", Some(Depth::Unbounded)),
        (Err(SurfaceFaultKind::UnboundedRing), Some(7))
    );
    assert_eq!(ask("local:new", Some(Depth::Bounded(0))), (Ok(()), Some(1)));
    assert_eq!(resolve_parked_batch_depth(None), Ok(8));
    assert_eq!(resolve_parked_batch_depth(Some(Depth::Bounded(2))), Ok(2));
    assert_eq!(
        resolve_parked_batch_depth(Some(Depth::Bounded(0))),
        Err(SurfaceFaultKind::ZeroParkedBatches)
    );
    assert_eq!(
        resolve_parked_batch_depth(Some(Depth::Unbounded)),
        Err(SurfaceFaultKind::UnboundedParkedBatches)
    );
}

#[test]
fn a_send_budget_must_cover_a_flush() {
    let stock = AttachSendBudget { burst: 256, refill_secs: 60 };
    assert_eq!(resolve_send_budget(None, None, stock), Ok(stock));
    assert_eq!(
        resolve_send_budget(Some(300), Some(9), stock),
        Ok(AttachSendBudget { burst: 300, refill_secs: 9 })
    );
    assert_eq!(
        resolve_send_budget(Some(0), None, stock),
        Err(SurfaceFaultKind::ZeroSendBurst)
    );
    assert_eq!(
        resolve_send_budget(Some(255), None, stock),
        Err(SurfaceFaultKind::SendBurstBelowFlush)
    );
    assert_eq!(
        resolve_send_budget(None, Some(0), stock),
        Err(SurfaceFaultKind::ZeroSendRefill)
    );
}

#[test]
fn a_port_has_exactly_one_channel() {
    let own = "brenn:a".to_string();
    let assigned = "brenn:b".to_string();
    assert_eq!(bound_channel(&Some(own.clone()), None), Ok(own.clone()));
    assert_eq!(bound_channel(&None, Some(&assigned)), Ok(assigned.clone()));
    assert_eq!(
        bound_channel(&Some(own), Some(&assigned)),
        Err(SurfaceFaultKind::PortClaimedTwice)
    );
    assert_eq!(bound_channel(&None, None), Err(SurfaceFaultKind::UnboundPort));
}

fn subscriber(kind: SubscriberEntryKind, push_depth: Depth) -> SubscriberEntry {
    SubscriberEntry {
        kind,
        push_depth,
        retain_depth: Depth::Bounded(1),
        noise: NoiseLevel::Silent,
        wake_min: None,
    }
}

fn channel(uuid: u128, address: &str, subscribers: Vec<SubscriberEntry>) -> ChannelEntry {
    ChannelEntry {
        uuid,
        address: address.to_string(),
        description: None,
        resolved_channel: ResolvedChannel {
            push_depth: Depth::Unbounded,
            retain_depth: Depth::Bounded(1),
            standing_retain_depth: Depth::Bounded(1),
            noise: NoiseLevel::Silent,
            sink: Sink::Drop,
            wake_min: WakeMin::Normal,
        },
        subscribers,
        transport_type: ChannelScheme::Brenn,
        mount: None,
    }
}

#[test]
fn the_directory_finds_channels_by_address_and_by_uuid() {
    let mut dir = MessagingDirectory::with_entries(vec![channel(1, "brenn:a", vec![])]);
    dir.add_channel(channel(2, "brenn:b", vec![]));
    assert_eq!(dir.resolve("brenn:b").unwrap().uuid, 2);
    assert_eq!(dir.by_uuid(1).unwrap().address, "brenn:a");
    assert!(dir.resolve("brenn:c").is_none());
    assert!(dir.by_uuid(3).is_none());
}

#[test]
fn subscribers_are_told_apart_by_class_and_name() {
    let whole = SubscriberEntryKind::Surface { slug: "s".to_string(), instance: None };
    let part = SubscriberEntryKind::Surface {
        slug: "s".to_string(),
        instance: Some("i".to_string()),
    };
    assert!(whole.same(&whole));
    assert!(!whole.same(&part));
    assert!(!SubscriberEntryKind::App("s".to_string())
        .same(&SubscriberEntryKind::Wasm("s".to_string())));
}

#[test]
fn a_pinned_channel_is_left_alone_and_open_windows_are_trimmed() {
    let entry = channel(
        1,
        "brenn:a",
        vec![
            subscriber(SubscriberEntryKind::App("chat".to_string()), Depth::Bounded(4)),
            subscriber(SubscriberEntryKind::App("pull".to_string()), Depth::Bounded(0)),
            subscriber(SubscriberEntryKind::App("all".to_string()), Depth::Unbounded),
        ],
    );
    assert_eq!(sweep_channel(&entry, None), None);
    let sweep = sweep_channel(&entry, Some(9)).unwrap();
    assert_eq!(
        sweep,
        ChannelSweep {
            frontier: 9,
            retirements: vec![PushRetirement {
                subscriber: SubscriberEntryKind::App("chat".to_string()).slug(),
                keep: 4,
            }],
        }
    );
}

#[test]
fn the_cleanup_loops_start_apart() {
    assert_eq!(HOURLY_INTERVAL_SECS, 3600);
    assert_eq!(CleanupLoop::Sessions.stagger_secs(), 0);
    assert_eq!(CleanupLoop::Ingress.stagger_secs(), 1800);
    assert_eq!(CleanupLoop::Bus.stagger_secs(), 2700);
    assert_eq!(BUS_GC_STAGGER_SECS, 2700);
}
