//! MQTT: which clients get a session, what comes back after a restart, and how a publish is answered.

use brenn_server::apps::AppConfig;
use brenn_server::clients::MqttClient;
use brenn_server::egress::{
    admit_publish, answer_publish, build_topic_address, EgressAnswer, EgressResult, EgressStep,
    MqttPublishOutcome,
};
use brenn_server::model::Urgency;
use brenn_server::mqtt::{
    ingress_routes, plan_sessions, reactivate_dynamic_ingress, referenced_clients,
    DynamicMqttIngress, IngressRoute, ResolvedMqttIngressChannel, UnresolvedClient,
};
use brenn_server::policy::{AppPolicy, MqttClientMatcher, MqttSubMatcher};
use indexmap::IndexMap;

fn uuid_of(address: &str) -> u128 {
    address.bytes().fold(1u128, |acc, b| acc.wrapping_mul(257).wrapping_add(b as u128))
}

fn test_ingress_channel(client: &str, topic: &str) -> ResolvedMqttIngressChannel {
    let address = format!("mqtt:{client}:{topic}");
    ResolvedMqttIngressChannel {
        channel_uuid: uuid_of(&address),
        channel_address: address,
        client_slug: client.to_string(),
        topic: topic.to_string(),
        urgency: Urgency::Normal,
        qos: 1,
    }
}

fn policy_with_publish(client: &str) -> AppPolicy {
    let mut p = AppPolicy::new();
    p.acls.mqtt_publish.push(MqttClientMatcher { client: client.to_string() });
    p
}

fn policy_with_subscribe(client: &str) -> AppPolicy {
    let mut p = AppPolicy::new();
    p.acls.mqtt_subscribe.push(MqttSubMatcher {
        client: client.to_string(),
        topic_filter: "sensors/#".to_string(),
    });
    p
}

fn clients(list: &[(&str, Urgency)]) -> IndexMap<String, MqttClient> {
    list.iter()
        .map(|(slug, urgency)| (slug.to_string(), MqttClient { urgency: *urgency }))
        .collect()
}

fn app_with(policy: AppPolicy) -> AppConfig {
    AppConfig {
        policy,
        messaging: None,
        webhook_subscriptions: vec![],
        mqtt_subscriptions: vec![],
        messaging_enabled: false,
    }
}

#[test]
fn referenced_ingress_only_client() {
    let ch = vec![test_ingress_channel("ing", "sensors/#")];
    let refs = referenced_clients(&ch, &[], &[]);
    assert!(refs.contains("ing"));
    assert_eq!(refs.len(), 1);
}

#[test]
fn referenced_egress_only_client_via_publish_matcher() {
    let pol = policy_with_publish("egress");
    let refs = referenced_clients(&[], &[&pol], &[]);
    assert!(refs.contains("egress"));
}

#[test]
fn referenced_subscribe_matcher_only_client() {
    let pol = policy_with_subscribe("subonly");
    let refs = referenced_clients(&[], &[&pol], &[]);
    assert!(refs.contains("subonly"));
}

#[test]
fn referenced_wasm_publish_matcher_client() {
    let pol = policy_with_publish("wasmcl");
    let refs = referenced_clients(&[], &[], &[&pol]);
    assert!(refs.contains("wasmcl"));
}

#[test]
fn referenced_none_when_unreferenced() {
    let refs = referenced_clients(&[], &[], &[]);
    assert!(refs.is_empty());
}

#[test]
fn a_client_mentioned_twice_is_listed_once_and_first() {
    let ch = vec![test_ingress_channel("b", "x"), test_ingress_channel("a", "y")];
    let apps = policy_with_publish("b");
    let wasm = policy_with_publish("c");
    let refs = referenced_clients(&ch, &[&apps], &[&wasm]);
    let names: Vec<&str> = refs.iter().map(|n| n.as_str()).collect();
    assert_eq!(names, vec!["b", "a", "c"]);
}

#[test]
fn activates_with_ingress_only_no_connectors() {
    let sessions = plan_sessions(
        true,
        &IndexMap::new(),
        &[],
        &[test_ingress_channel("cl", "sensors/#")],
        &clients(&[("cl", Urgency::Normal)]),
    );
    assert_eq!(sessions, Ok(vec!["cl".to_string()]));
}

#[test]
fn inactive_when_client_but_nothing_references_it() {
    let sessions = plan_sessions(true, &IndexMap::new(), &[], &[], &clients(&[]));
    assert_eq!(sessions, Ok(vec![]));
}

#[test]
fn inactive_when_ingress_but_no_clients() {
    let sessions = plan_sessions(
        false,
        &IndexMap::new(),
        &[],
        &[test_ingress_channel("cl", "sensors/#")],
        &clients(&[]),
    );
    assert_eq!(sessions, Ok(vec![]));
}

#[test]
fn a_mentioned_client_that_was_not_resolved_is_named() {
    let apps = IndexMap::from([("pa".to_string(), app_with(policy_with_publish("lost")))]);
    let sessions = plan_sessions(true, &apps, &[], &[], &clients(&[("cl", Urgency::Normal)]));
    assert_eq!(sessions, Err(UnresolvedClient { client: "lost".to_string() }));
}

#[test]
fn each_ingress_channel_has_its_route() {
    let routes = ingress_routes(&[test_ingress_channel("ha", "home/+/state")]);
    assert_eq!(
        routes,
        vec![IngressRoute {
            client_slug: "ha".to_string(),
            topic_filter: "home/+/state".to_string(),
            channel_address: "mqtt:ha:home/+/state".to_string(),
            channel_uuid: uuid_of("mqtt:ha:home/+/state"),
            urgency: Urgency::Normal,
        }]
    );
}

fn survivor(client: &str, topic: &str) -> DynamicMqttIngress {
    let address = format!("mqtt:{client}:{topic}");
    DynamicMqttIngress {
        channel_uuid: uuid_of(&address),
        channel_address: address,
        client_slug: client.to_string(),
        topic: topic.to_string(),
        qos: 2,
    }
}

#[test]
fn a_survivor_comes_back_with_its_clients_urgency() {
    let mut channels = vec![test_ingress_channel("ha", "a")];
    let surviving = [survivor("ha", "b"), survivor("gone", "c"), survivor("ha", "d")];
    let dropped = reactivate_dynamic_ingress(
        &mut channels,
        &surviving,
        &clients(&[("ha", Urgency::High)]),
    );
    assert_eq!(dropped, vec![1]);
    let topics: Vec<&str> = channels.iter().map(|c| c.topic.as_str()).collect();
    assert_eq!(topics, vec!["a", "b", "d"]);
    assert_eq!(channels[0].urgency, Urgency::Normal);
    assert_eq!(channels[1].urgency, Urgency::High);
    assert_eq!(channels[1].qos, 2);
    assert_eq!(channels[1].channel_address, "mqtt:ha:b");
}

#[test]
fn invalid_address_maps_to_invalid_payload() {
    assert_eq!(build_topic_address("home", "cmd/#"), "mqtt:home:cmd/#");
    let step = admit_publish(Err("wildcard".to_string()), false);
    assert_eq!(
        step,
        EgressStep::Answer(MqttPublishOutcome::InvalidPayload("wildcard".to_string()))
    );
}

#[test]
fn no_service_maps_to_no_connector() {
    assert_eq!(
        admit_publish(Ok(()), false),
        EgressStep::Answer(MqttPublishOutcome::NoConnector)
    );
    assert_eq!(admit_publish(Ok(()), true), EgressStep::Publish);
}

#[test]
fn client_not_in_policy_maps_to_not_permitted() {
    let answer = answer_publish("office", EgressResult::AclDenied);
    assert_eq!(answer.outcome, MqttPublishOutcome::NotPermitted);
    assert_eq!(answer.denied_address.as_deref(), Some("mqtt:office"));
}

#[test]
fn resolved_disconnected_session_maps_to_broker() {
    let answer = answer_publish(
        "home",
        EgressResult::Broker {
            coarse_kind: "not connected".to_string(),
            detail: "connector home of slug: refused".to_string(),
        },
    );
    assert_eq!(answer.outcome, MqttPublishOutcome::Broker("not connected".to_string()));
    assert_eq!(answer.denied_address, None);
    assert_eq!(answer.logged_detail.as_deref(), Some("connector home of slug: refused"));
}

#[test]
fn a_rejection_is_passed_on_and_a_success_is_plain() {
    let rejected = answer_publish(
        "home",
        EgressResult::BrokerRejected { reason: "quota exceeded".to_string() },
    );
    assert_eq!(
        rejected.outcome,
        MqttPublishOutcome::BrokerRejected("quota exceeded".to_string())
    );
    assert_eq!(rejected.denied_address, None);
    assert_eq!(
        answer_publish("home", EgressResult::Published),
        EgressAnswer {
            outcome: MqttPublishOutcome::Published,
            denied_address: None,
            logged_detail: None,
        }
    );
}
