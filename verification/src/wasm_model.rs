//! WASM consumers as the operator writes them and as boot resolves them.

use vstd::prelude::*;
use vstd::string::*;

use crate::model::{Depth, NoiseLevel, SinkBudget, Urgency, WakeMin};
use crate::policy::{
    AppPolicy, ChannelMatcher, MqttClientMatcher, MqttSubMatcher, ToolGrant, WebhookMatcher,
};
use crate::surface_model::ResolvedSubscription;
use crate::text::same_text;

verus! {

/// A host interface the operator can link into a consumer.
#[derive(Clone, Copy, Debug, PartialEq, Eq, PartialOrd, Ord, Structural)]
pub enum WasmGrant {
    Ports,
    Store,
    Log,
    Alert,
    Config,
    Mqtt,
}

/// An input port as the operator declares it; the amplification is in thousandths of a publish.
#[derive(Debug, PartialEq, Eq)]
pub struct WasmConsumerSubscriptionRaw {
    pub channel: String,
    pub port: String,
    pub push_depth: Option<Depth>,
    pub retain_depth: Option<Depth>,
    pub noise: Option<NoiseLevel>,
    pub wake_min: Option<WakeMin>,
    pub amplification_mt: Option<u64>,
}

/// An output port as the operator declares it; the budget knobs are in thousandths of a publish.
#[derive(Debug, PartialEq, Eq)]
pub struct WasmConsumerOutputRaw {
    pub port: String,
    pub channel: String,
    pub urgency: Option<Urgency>,
    pub publish_per_activation_mt: Option<u64>,
    pub publish_capacity_mt: Option<u64>,
}

/// The operator's budget for publishing through one MQTT client, in thousandths of a publish.
#[derive(Debug, PartialEq, Eq)]
pub struct WasmConsumerMqttOutputRaw {
    pub client: String,
    pub publish_per_activation_mt: Option<u64>,
    pub publish_capacity_mt: Option<u64>,
}

/// A store path and what the file system says of it.
#[derive(Debug, PartialEq, Eq)]
pub struct StorePath {
    /// The path as the operator wrote it.
    pub path: String,
    /// Whether the directory it lies in exists.
    pub parent_exists: bool,
    /// The path made absolute, where that could be done.
    pub absolute: Option<String>,
}

/// A consumer as the operator declares it.
#[derive(Debug)]
pub struct WasmConsumerConfigRaw {
    pub slug: String,
    pub component_path: String,
    pub grants: Vec<WasmGrant>,
    pub subscribe_acl: Vec<ChannelMatcher>,
    pub publish_acl: Vec<ChannelMatcher>,
    pub mqtt_publish_acl: Vec<MqttClientMatcher>,
    pub mqtt_subscribe_acl: Vec<MqttSubMatcher>,
    /// The `mqtt:` addresses that `mqtt_subscribe_acl` covers, as the topic matcher decided them.
    pub mqtt_covered: Vec<String>,
    pub webhook_acl: Vec<WebhookMatcher>,
    pub store_path: Option<StorePath>,
    /// The operator's size limit of the store, as a number of pages.
    pub store_page_limit: Option<u64>,
    pub subscriptions: Vec<WasmConsumerSubscriptionRaw>,
    pub outputs: Vec<WasmConsumerOutputRaw>,
    /// The component's static map, in key order.
    pub config: Option<Vec<(String, String)>>,
    pub activation_burst: Option<u32>,
    pub activation_min_period_ms: Option<u64>,
    pub mqtt_outputs: Vec<WasmConsumerMqttOutputRaw>,
    /// The tools the consumer may call.
    pub tool_grants: Vec<ToolGrant>,
}

/// How often a consumer may be activated.
#[derive(Clone, Copy, Debug, PartialEq, Eq, Structural)]
pub struct ActivationPacing {
    pub burst: u32,
    pub min_period_ms: u64,
}

/// An input port as boot resolves it.
#[derive(Debug, PartialEq, Eq)]
pub struct WasmInputPort {
    pub port: String,
    pub sub: ResolvedSubscription,
    pub amplification_mt: u64,
}

/// An output port as boot resolves it.
#[derive(Debug, PartialEq, Eq)]
pub struct WasmOutputPort {
    pub port: String,
    pub channel_uuid: u128,
    pub channel_address: String,
    pub default_urgency: Urgency,
    pub budget: SinkBudget,
}

/// The budget for publishing through one MQTT client.
#[derive(Debug, PartialEq, Eq)]
pub struct MqttSink {
    pub client: String,
    pub budget: SinkBudget,
}

/// A consumer as boot resolves it.
#[derive(Debug)]
pub struct ResolvedWasmConsumer {
    pub slug: String,
    pub component_path: String,
    pub grants: Vec<WasmGrant>,
    pub store_path: Option<String>,
    pub max_page_count: u64,
    pub inputs: Vec<WasmInputPort>,
    pub outputs: Vec<WasmOutputPort>,
    pub config: Vec<(String, String)>,
    pub policy: AppPolicy,
    pub activation_pacing: ActivationPacing,
    /// One sink for each client that may be published through.
    pub mqtt_sinks: Vec<MqttSink>,
}

/// What the sinks say: the client and the budget of each.
pub open spec fn sink_list(sinks: Seq<MqttSink>) -> Seq<(Seq<char>, SinkBudget)> {
    Seq::new(sinks.len(), |i: int| (sinks[i].client@, sinks[i].budget))
}

/// Where a list of sinks has `client`, or the list's length where it has not.
pub open spec fn sink_position(list: Seq<(Seq<char>, SinkBudget)>, client: Seq<char>) -> int
    decreases list.len(),
{
    if list.len() == 0 {
        0
    } else if list[0].0 == client {
        0
    } else {
        1 + sink_position(list.drop_first(), client)
    }
}

/// The budget a list of sinks has for `client`.
pub open spec fn sink_budget(list: Seq<(Seq<char>, SinkBudget)>, client: Seq<char>) -> Option<
    SinkBudget,
> {
    let i = sink_position(list, client);
    if i < list.len() {
        Some(list[i].1)
    } else {
        None
    }
}

pub(crate) fn find_sink(sinks: &Vec<MqttSink>, client: &str) -> (at: usize)
    ensures
        at == sink_position(sink_list(sinks@), client@),
        at <= sinks@.len(),
{
    let n: usize = sinks.len();
    let mut i: usize = 0;
    let ghost list = sink_list(sinks@);
    assert(list.skip(0) =~= list);
    while i < n
        invariant
            i <= n,
            n == sinks@.len(),
            list == sink_list(sinks@),
            sink_position(list, client@) == i + sink_position(list.skip(i as int), client@),
        decreases n - i,
    {
        if same_text(sinks[i].client.as_str(), client) {
            return i;
        }
        assert(list.skip(i as int).drop_first() =~= list.skip(i as int + 1));
        i = i + 1;
    }
    n
}

impl ResolvedWasmConsumer {
    /// The budget for publishing through `client`.
    pub fn mqtt_sink(&self, client: &str) -> (budget: Option<SinkBudget>)
        ensures
            budget == sink_budget(sink_list(self.mqtt_sinks@), client@),
    {
        let at: usize = find_sink(&self.mqtt_sinks, client);
        if at < self.mqtt_sinks.len() {
            Some(self.mqtt_sinks[at].budget)
        } else {
            None
        }
    }
}

/// Why a consumer is refused.
#[derive(Clone, Copy, Debug, PartialEq, Eq, Structural)]
pub enum WasmFaultKind {
    DuplicateSlug,
    SlugCharset,
    DuplicateGrant,
    ConfigNotGranted,
    StorePathNotGranted,
    StoreLimitNotGranted,
    StorePathMissing,
    StoreParentMissing,
    StorePathUnresolved,
    ZeroActivationBurst,
    ZeroActivationPeriod,
    OutputsWithoutInputs,
    EmptyPort,
    PortCharset,
    ReservedPort,
    DuplicatePort,
    UnknownChannel,
    DuplicateChannel,
    NoiseWithoutQueue,
    DeadPort,
    WakeMinSet,
    AmplificationWithoutQueue,
    CannotActivate,
    UnknownOutputChannel,
    OutputNotBrenn,
    OutputsNotGranted,
    OutputsWithoutAcl,
    PublishAclNotGranted,
    UndeclaredPublishClient,
    UndeclaredSubscribeClient,
    MqttAclNotGranted,
    DeadSink,
    UncoveredMqttOutput,
    DuplicateMqttOutput,
    DeadMqttSink,
}

/// Why consumers are refused: the place of the consumer, the place of the grant, port or matcher
/// within it, and what is wrong there.
#[derive(Clone, Copy, Debug, PartialEq, Eq, Structural)]
pub struct WasmFault {
    pub consumer: usize,
    pub item: usize,
    pub kind: WasmFaultKind,
}

/// A client that a list has is found at its first place there, with that place's budget.
pub proof fn a_listed_client_has_a_place(list: Seq<(Seq<char>, SinkBudget)>, i: int)
    requires
        0 <= i < list.len(),
    ensures
        0 <= sink_position(list, list[i].0) <= i,
        (forall|d: int| 0 <= d < i ==> (#[trigger] list[d]).0 != list[i].0) ==> sink_budget(
            list,
            list[i].0,
        ) == Some(list[i].1),
    decreases i,
{
    if i > 0 && list[0].0 != list[i].0 {
        let rest = list.drop_first();
        a_listed_client_has_a_place(rest, i - 1);
        assert(rest[i - 1] == list[i]);
        if forall|d: int| 0 <= d < i ==> (#[trigger] list[d]).0 != list[i].0 {
            assert forall|d: int| 0 <= d < i - 1 implies (#[trigger] rest[d]).0 != rest[i - 1].0 by {
                assert(rest[d] == list[d + 1]);
            }
        }
    }
}

/// A client that a list has not has no budget there.
pub proof fn an_unlisted_client_has_no_budget(
    list: Seq<(Seq<char>, SinkBudget)>,
    client: Seq<char>,
)
    requires
        forall|d: int| 0 <= d < list.len() ==> (#[trigger] list[d]).0 != client,
    ensures
        sink_budget(list, client) is None,
        sink_position(list, client) == list.len(),
    decreases list.len(),
{
    if list.len() > 0 {
        let rest = list.drop_first();
        assert forall|d: int| 0 <= d < rest.len() implies (#[trigger] rest[d]).0 != client by {
            assert(rest[d] == list[d + 1]);
        }
        an_unlisted_client_has_no_budget(rest, client);
        assert(list[0].0 != client);
    }
}

/// What a list of sinks says is each sink's own client and budget, in order.
pub proof fn sinks_say_client_and_budget(sinks: Seq<MqttSink>, i: int)
    requires
        0 <= i < sinks.len(),
    ensures
        sink_list(sinks).len() == sinks.len(),
        sink_list(sinks)[i].0 == sinks[i].client@,
        sink_list(sinks)[i].1 == sinks[i].budget,
{
}

} // verus!
