//! What a component is told when it publishes through MQTT.

use vstd::prelude::*;
use vstd::string::*;

use crate::address;
use crate::address::ChannelScheme;

verus! {

/// What a component is told.
#[derive(Debug, PartialEq, Eq)]
pub enum MqttPublishOutcome {
    Published,
    InvalidPayload(String),
    NoConnector,
    NotPermitted,
    Broker(String),
    BrokerRejected(String),
}

/// What enforcing the policy and publishing came to. A component has no send budget, so none can
/// run out.
#[derive(Debug, PartialEq, Eq)]
pub enum EgressResult {
    Published,
    AclDenied,
    /// The broker could not be reached or failed. A component may know the coarse kind only.
    Broker { coarse_kind: String, detail: String },
    BrokerRejected { reason: String },
}

/// The full address of a topic.
pub open spec fn topic_address(client: Seq<char>, topic: Seq<char>) -> Seq<char> {
    ChannelScheme::Mqtt.prefix_text() + client + seq![':'] + topic
}

/// The full address of a topic, to be checked before anything is sent.
pub fn build_topic_address(client: &str, topic: &str) -> (address: String)
    ensures
        address@ == topic_address(client@, topic@),
{
    proof {
        reveal_strlit(":");
    }
    let mut address: String = ChannelScheme::Mqtt.prefix().to_owned();
    address.append(client);
    address.append(":");
    address.append(topic);
    assert(address@ =~= topic_address(client@, topic@));
    address
}

/// What to do with a publish request before the broker is asked: answer at once, or publish.
#[derive(Debug, PartialEq, Eq)]
pub enum EgressStep {
    Answer(MqttPublishOutcome),
    Publish,
}

/// Decide on a publish request. A bad address is reported first, whatever the server runs; a
/// server without MQTT then fails closed.
pub fn admit_publish(parsed: Result<(), String>, service_running: bool) -> (step: EgressStep)
    ensures
        match parsed {
            Err(reason) => step == EgressStep::Answer(MqttPublishOutcome::InvalidPayload(reason)),
            Ok(_) => if service_running {
                step == EgressStep::Publish
            } else {
                step == EgressStep::Answer(MqttPublishOutcome::NoConnector)
            },
        },
{
    match parsed {
        Err(reason) => EgressStep::Answer(MqttPublishOutcome::InvalidPayload(reason)),
        Ok(_) => if service_running {
            EgressStep::Publish
        } else {
            EgressStep::Answer(MqttPublishOutcome::NoConnector)
        },
    }
}

/// An answer and what goes with it: the address to name where an operator's policy blocked the
/// publish, and the text that only the server's own log may show.
#[derive(Debug, PartialEq, Eq)]
pub struct EgressAnswer {
    pub outcome: MqttPublishOutcome,
    pub denied_address: Option<String>,
    pub logged_detail: Option<String>,
}

/// The outcome for a result.
pub open spec fn outcome_of(result: EgressResult) -> MqttPublishOutcome {
    match result {
        EgressResult::Published => MqttPublishOutcome::Published,
        EgressResult::AclDenied => MqttPublishOutcome::NotPermitted,
        EgressResult::Broker { coarse_kind, detail } => MqttPublishOutcome::Broker(coarse_kind),
        EgressResult::BrokerRejected { reason } => MqttPublishOutcome::BrokerRejected(reason),
    }
}

/// Answer a publish request. Only a denial by policy is signalled, and it names the client; only
/// a broker failure is logged in full, and the component sees its coarse kind alone.
pub fn answer_publish(client: &str, result: EgressResult) -> (answer: EgressAnswer)
    ensures
        answer.outcome == outcome_of(result),
        result is AclDenied <==> answer.denied_address is Some,
        answer.denied_address matches Some(address) ==> address@
            == ChannelScheme::Mqtt.prefix_text() + client@,
        answer.logged_detail == (match result {
            EgressResult::Broker { coarse_kind, detail } => Some(detail),
            _ => None,
        }),
{
    match result {
        EgressResult::Published => EgressAnswer {
            outcome: MqttPublishOutcome::Published,
            denied_address: None,
            logged_detail: None,
        },
        EgressResult::AclDenied => {
            let mut address: String = ChannelScheme::Mqtt.prefix().to_owned();
            address.append(client);
            EgressAnswer {
                outcome: MqttPublishOutcome::NotPermitted,
                denied_address: Some(address),
                logged_detail: None,
            }
        },
        EgressResult::Broker { coarse_kind, detail } => EgressAnswer {
            outcome: MqttPublishOutcome::Broker(coarse_kind),
            denied_address: None,
            logged_detail: Some(detail),
        },
        EgressResult::BrokerRejected { reason } => EgressAnswer {
            outcome: MqttPublishOutcome::BrokerRejected(reason),
            denied_address: None,
            logged_detail: None,
        },
    }
}

/// What a component is told of a broker failure does not depend on the detail of it.
pub proof fn broker_detail_never_reaches_the_component(
    coarse_kind: String,
    detail: String,
    other: String,
)
    ensures
        outcome_of(EgressResult::Broker { coarse_kind, detail }) == outcome_of(
            EgressResult::Broker { coarse_kind, detail: other },
        ),
{
}

/// A topic's full address is the client and the topic behind the MQTT prefix, with a colon
/// between them, and names just these two where the client's name has no colon.
pub proof fn a_topic_address_names_client_and_topic(client: Seq<char>, topic: Seq<char>)
    ensures
        topic_address(client, topic) == "mqtt:"@ + client + ":"@ + topic,
        client.len() > 0 && topic.len() > 0 && !client.contains(':') ==> address::mqtt_parts(
            topic_address(client, topic),
            client,
            topic,
        ),
{
    reveal_strlit(":");
    assert(":"@ =~= seq![':']);
}

/// A component is told of each result by its own outcome: a denial only that it is not permitted,
/// a broker failure only its coarse kind, a rejection the broker's own reason.
pub proof fn each_result_has_its_own_outcome(kind: String, detail: String, reason: String)
    ensures
        outcome_of(EgressResult::Published) == MqttPublishOutcome::Published,
        outcome_of(EgressResult::AclDenied) == MqttPublishOutcome::NotPermitted,
        outcome_of(EgressResult::Broker { coarse_kind: kind, detail })
            == MqttPublishOutcome::Broker(kind),
        outcome_of(EgressResult::BrokerRejected { reason }) == MqttPublishOutcome::BrokerRejected(
            reason,
        ),
{
}

} // verus!
