//! Resolving the operator's WASM consumers against the channel directory.

use indexmap::IndexMap;
use vstd::prelude::*;
use vstd::string::*;

use crate::address;
use crate::address::{is_unreserved, ChannelScheme, BRENN_ADDRESS_PREFIX};
use crate::clients;
use crate::clients::{find_client, MqttClient};
use crate::directory;
use crate::directory::{ChannelEntry, MessagingDirectory};
use crate::model;
use crate::model::{resolve_sink_budget, Depth, SinkBudget, Urgency, DEFAULT_PUBLISH_MT};
use crate::policy;
use crate::policy::{
    copy_tool_grants, AclSet, AppCapability, AppPolicy, GrantSet, MqttClientMatcher, PolicyView,
    ToolGrant,
};
use crate::surface_model::ResolvedSubscription;
use crate::surface_rules;
use crate::text::{copy_entries, has_prefix, same_text};
use crate::wasm_model;
use crate::wasm_model::{
    find_sink, ActivationPacing, MqttSink, ResolvedWasmConsumer, WasmConsumerConfigRaw,
    WasmConsumerMqttOutputRaw, WasmConsumerOutputRaw, WasmConsumerSubscriptionRaw, WasmFault,
    WasmFaultKind, WasmGrant, WasmInputPort, WasmOutputPort,
};

verus! {

/// How many activations a consumer may take in one go where the operator states no number.
pub const DEFAULT_ACTIVATION_BURST: u32 = 60;

/// How long a consumer waits between activations, in milliseconds, where the operator states no
/// period.
pub const DEFAULT_ACTIVATION_MIN_PERIOD_MS: u64 = 1000;

/// The port that asynchronous tool results arrive on.
pub const TOOL_RESULT_INPUT_PORT: &'static str = "tool-results";

/// Whether a slug can stand in a participant's name, where `:` and `@` part the name from what
/// surrounds it.
pub open spec fn slug_fits(slug: Seq<char>) -> bool {
    forall|k: int| 0 <= k < slug.len() ==> #[trigger] slug[k] != ':' && slug[k] != '@'
}

/// Whether the consumer is granted the interface.
pub open spec fn granted(raw: WasmConsumerConfigRaw, grant: WasmGrant) -> bool {
    raw.grants@.contains(grant)
}

/// Whether an earlier grant is the same as grant `j`.
pub open spec fn grant_fault(raw: WasmConsumerConfigRaw, j: int) -> Option<WasmFaultKind> {
    model::unless(
        !exists|k: int| 0 <= k < j && #[trigger] raw.grants@[k] == raw.grants@[j],
        WasmFaultKind::DuplicateGrant,
    )
}

/// The check of one grant.
pub open spec fn grant_faults(raw: WasmConsumerConfigRaw) -> spec_fn(int) -> Option<WasmFaultKind> {
    |j: int| grant_fault(raw, j)
}

/// What is wrong with the consumer's map, store and pacing.
pub open spec fn base_fault(raw: WasmConsumerConfigRaw) -> Option<WasmFaultKind> {
    if raw.config is Some && !granted(raw, WasmGrant::Config) {
        Some(WasmFaultKind::ConfigNotGranted)
    } else if raw.store_path is Some && !granted(raw, WasmGrant::Store) {
        Some(WasmFaultKind::StorePathNotGranted)
    } else if raw.store_page_limit is Some && !granted(raw, WasmGrant::Store) {
        Some(WasmFaultKind::StoreLimitNotGranted)
    } else if granted(raw, WasmGrant::Store) && raw.store_path is None {
        Some(WasmFaultKind::StorePathMissing)
    } else if raw.store_path is Some && !raw.store_path->0.parent_exists {
        Some(WasmFaultKind::StoreParentMissing)
    } else if raw.store_path is Some && raw.store_path->0.absolute is None {
        Some(WasmFaultKind::StorePathUnresolved)
    } else if raw.activation_burst == Some(0u32) {
        Some(WasmFaultKind::ZeroActivationBurst)
    } else if raw.activation_min_period_ms == Some(0u64) {
        Some(WasmFaultKind::ZeroActivationPeriod)
    } else {
        model::unless(
            raw.subscriptions@.len() > 0 || raw.outputs@.len() == 0,
            WasmFaultKind::OutputsWithoutInputs,
        )
    }
}

/// Whether one of the first `inputs` input ports or the first `outputs` output ports has `name`.
pub open spec fn name_taken(
    raw: WasmConsumerConfigRaw,
    name: Seq<char>,
    inputs: int,
    outputs: int,
) -> bool {
    ||| exists|k: int| 0 <= k < inputs && (#[trigger] raw.subscriptions@[k]).port@ == name
    ||| exists|k: int| 0 <= k < outputs && (#[trigger] raw.outputs@[k]).port@ == name
}

/// What is wrong with the name of a port that follows so many inputs and outputs.
pub open spec fn name_fault(
    raw: WasmConsumerConfigRaw,
    name: Seq<char>,
    inputs: int,
    outputs: int,
) -> Option<WasmFaultKind> {
    if name.len() == 0 {
        Some(WasmFaultKind::EmptyPort)
    } else if !address::all_unreserved(name) {
        Some(WasmFaultKind::PortCharset)
    } else if name == TOOL_RESULT_INPUT_PORT@ {
        Some(WasmFaultKind::ReservedPort)
    } else {
        model::unless(!name_taken(raw, name, inputs, outputs), WasmFaultKind::DuplicatePort)
    }
}

/// An input port on the channel `entry`: every knob is its own or the channel's.
pub open spec fn input_on(sub: WasmConsumerSubscriptionRaw, entry: ChannelEntry) -> WasmInputPort {
    WasmInputPort {
        port: sub.port,
        sub: ResolvedSubscription {
            channel_uuid: entry.uuid,
            channel_address: entry.address,
            push_depth: model::or_rung(sub.push_depth, entry.resolved_channel.push_depth),
            retain_depth: model::or_rung(sub.retain_depth, entry.resolved_channel.retain_depth),
            noise: model::or_rung(sub.noise, entry.resolved_channel.noise),
            wake_min: entry.resolved_channel.wake_min,
        },
        amplification_mt: model::or_rung(sub.amplification_mt, DEFAULT_PUBLISH_MT),
    }
}

/// Input port `j` as boot resolves it.
pub open spec fn input_port(
    raw: WasmConsumerConfigRaw,
    entries: Seq<ChannelEntry>,
    j: int,
) -> WasmInputPort {
    input_on(
        raw.subscriptions@[j],
        directory::channel_at(entries, raw.subscriptions@[j].channel@)->0,
    )
}

/// The first `n` input ports as boot resolves them.
pub open spec fn input_ports(raw: WasmConsumerConfigRaw, entries: Seq<ChannelEntry>, n: nat) -> Seq<
    WasmInputPort,
> {
    Seq::new(n, |j: int| input_port(raw, entries, j))
}

/// What is wrong with input port `j`.
pub open spec fn input_fault(raw: WasmConsumerConfigRaw, entries: Seq<ChannelEntry>, j: int) -> Option<
    WasmFaultKind,
> {
    let sub = raw.subscriptions@[j];
    let port = input_port(raw, entries, j);
    let unqueued = port.sub.push_depth == Depth::Bounded(0);
    match name_fault(raw, sub.port@, j, 0) {
        Some(fault) => Some(fault),
        None => if directory::channel_at(entries, sub.channel@) is None {
            Some(WasmFaultKind::UnknownChannel)
        } else if exists|k: int|
            0 <= k < j && (#[trigger] raw.subscriptions@[k]).channel@ == sub.channel@ {
            Some(WasmFaultKind::DuplicateChannel)
        } else if sub.noise is Some && unqueued {
            Some(WasmFaultKind::NoiseWithoutQueue)
        } else if unqueued && port.sub.retain_depth == Depth::Bounded(0) {
            Some(WasmFaultKind::DeadPort)
        } else if sub.wake_min is Some {
            Some(WasmFaultKind::WakeMinSet)
        } else {
            model::unless(
                !(sub.amplification_mt is Some && unqueued),
                WasmFaultKind::AmplificationWithoutQueue,
            )
        },
    }
}

/// The check of one input port.
pub open spec fn input_faults(raw: WasmConsumerConfigRaw, entries: Seq<ChannelEntry>) -> spec_fn(
    int,
) -> Option<WasmFaultKind> {
    |j: int| input_fault(raw, entries, j)
}

/// Whether there are inputs and none of them can activate the consumer.
pub open spec fn all_unqueued(inputs: Seq<WasmInputPort>) -> bool {
    &&& inputs.len() > 0
    &&& forall|j: int|
        0 <= j < inputs.len() ==> (#[trigger] inputs[j]).sub.push_depth == Depth::Bounded(0)
}

/// An output port on the channel `entry`.
pub open spec fn output_on(out: WasmConsumerOutputRaw, entry: ChannelEntry) -> WasmOutputPort {
    WasmOutputPort {
        port: out.port,
        channel_uuid: entry.uuid,
        channel_address: entry.address,
        default_urgency: model::or_rung(out.urgency, Urgency::Normal),
        budget: model::budget_of(out.publish_per_activation_mt, out.publish_capacity_mt),
    }
}

/// Output port `j` as boot resolves it.
pub open spec fn output_port(
    raw: WasmConsumerConfigRaw,
    entries: Seq<ChannelEntry>,
    j: int,
) -> WasmOutputPort {
    output_on(
        raw.outputs@[j],
        directory::channel_at(entries, raw.outputs@[j].channel@)->0,
    )
}

/// The first `n` output ports as boot resolves them.
pub open spec fn output_ports(raw: WasmConsumerConfigRaw, entries: Seq<ChannelEntry>, n: nat) -> Seq<
    WasmOutputPort,
> {
    Seq::new(n, |j: int| output_port(raw, entries, j))
}

/// What is wrong with output port `j`.
pub open spec fn output_fault(
    raw: WasmConsumerConfigRaw,
    entries: Seq<ChannelEntry>,
    j: int,
) -> Option<WasmFaultKind> {
    match name_fault(raw, raw.outputs@[j].port@, raw.subscriptions@.len() as int, j) {
        Some(fault) => Some(fault),
        None => match directory::channel_at(entries, raw.outputs@[j].channel@) {
            None => Some(WasmFaultKind::UnknownOutputChannel),
            Some(entry) => model::unless(
                ChannelScheme::Brenn.names(entry.address@),
                WasmFaultKind::OutputNotBrenn,
            ),
        },
    }
}

/// The check of one output port.
pub open spec fn output_faults(raw: WasmConsumerConfigRaw, entries: Seq<ChannelEntry>) -> spec_fn(
    int,
) -> Option<WasmFaultKind> {
    |j: int| output_fault(raw, entries, j)
}

/// What is wrong between the outputs, the publish list and the ports grant.
pub open spec fn ports_fault(raw: WasmConsumerConfigRaw) -> Option<WasmFaultKind> {
    if raw.outputs@.len() > 0 && !granted(raw, WasmGrant::Ports) {
        Some(WasmFaultKind::OutputsNotGranted)
    } else if raw.outputs@.len() > 0 && raw.publish_acl@.len() == 0 {
        Some(WasmFaultKind::OutputsWithoutAcl)
    } else {
        model::unless(
            raw.publish_acl@.len() == 0 || granted(raw, WasmGrant::Ports),
            WasmFaultKind::PublishAclNotGranted,
        )
    }
}

/// Whether publish matcher `j` names a client nobody declares.
pub open spec fn publish_client_faults(
    raw: WasmConsumerConfigRaw,
    clients: Map<Seq<char>, MqttClient>,
) -> spec_fn(int) -> Option<WasmFaultKind> {
    |j: int|
        model::unless(
            clients.contains_key(raw.mqtt_publish_acl@[j].client@),
            WasmFaultKind::UndeclaredPublishClient,
        )
}

/// Whether subscribe matcher `j` names a client nobody declares.
pub open spec fn subscribe_client_faults(
    raw: WasmConsumerConfigRaw,
    clients: Map<Seq<char>, MqttClient>,
) -> spec_fn(int) -> Option<WasmFaultKind> {
    |j: int|
        model::unless(
            clients.contains_key(raw.mqtt_subscribe_acl@[j].client@),
            WasmFaultKind::UndeclaredSubscribeClient,
        )
}

/// Whether no input can ever grant a publish: each has no amplification or no queue.
pub open spec fn nothing_amplifies(inputs: Seq<WasmInputPort>) -> bool {
    forall|j: int|
        0 <= j < inputs.len() ==> (#[trigger] inputs[j]).amplification_mt == 0
            || inputs[j].sub.push_depth == Depth::Bounded(0)
}

/// Whether an output port can never publish.
pub open spec fn dead_output_faults(
    raw: WasmConsumerConfigRaw,
    entries: Seq<ChannelEntry>,
) -> spec_fn(int) -> Option<WasmFaultKind> {
    |j: int|
        model::unless(
            !(output_port(raw, entries, j).budget.fill_mt == 0 && nothing_amplifies(
                input_ports(raw, entries, raw.subscriptions@.len()),
            )),
            WasmFaultKind::DeadSink,
        )
}

/// The sinks of the first `n` publish matchers: one for each client, at the default budget, in
/// the order in which the clients first come up.
pub open spec fn default_sinks(acl: Seq<MqttClientMatcher>, n: nat) -> Seq<(Seq<char>, SinkBudget)>
    decreases n,
{
    if n == 0 {
        Seq::empty()
    } else {
        let before = default_sinks(acl, (n - 1) as nat);
        if wasm_model::sink_position(before, acl[n - 1].client@) < before.len() {
            before
        } else {
            before.push((acl[n - 1].client@, model::budget_of(None, None)))
        }
    }
}

/// The sinks after the first `n` of the operator's budgets.
pub open spec fn budgeted_sinks(raw: WasmConsumerConfigRaw, n: nat) -> Seq<(Seq<char>, SinkBudget)>
    decreases n,
{
    if n == 0 {
        default_sinks(raw.mqtt_publish_acl@, raw.mqtt_publish_acl@.len())
    } else {
        let before = budgeted_sinks(raw, (n - 1) as nat);
        let out = raw.mqtt_outputs@[n - 1];
        let i = wasm_model::sink_position(before, out.client@);
        if i < before.len() {
            before.update(
                i,
                (
                    out.client@,
                    model::budget_of(out.publish_per_activation_mt, out.publish_capacity_mt),
                ),
            )
        } else {
            before
        }
    }
}

/// What is wrong with the operator's budget `j`: its client is not in the publish list, or has a
/// budget already.
pub open spec fn mqtt_output_fault(raw: WasmConsumerConfigRaw, j: int) -> Option<WasmFaultKind> {
    let client = raw.mqtt_outputs@[j].client@;
    if !policy::publish_clients(raw.mqtt_publish_acl@).contains(client) {
        Some(WasmFaultKind::UncoveredMqttOutput)
    } else {
        model::unless(
            !exists|k: int| 0 <= k < j && (#[trigger] raw.mqtt_outputs@[k]).client@ == client,
            WasmFaultKind::DuplicateMqttOutput,
        )
    }
}

/// The check of one of the operator's budgets.
pub open spec fn mqtt_output_faults(raw: WasmConsumerConfigRaw) -> spec_fn(int) -> Option<
    WasmFaultKind,
> {
    |j: int| mqtt_output_fault(raw, j)
}

/// Whether a client's sink can never publish.
pub open spec fn dead_mqtt_faults(
    raw: WasmConsumerConfigRaw,
    entries: Seq<ChannelEntry>,
) -> spec_fn(int) -> Option<WasmFaultKind> {
    |j: int|
        model::unless(
            !(budgeted_sinks(raw, raw.mqtt_outputs@.len())[j].1.fill_mt == 0 && nothing_amplifies(
                input_ports(raw, entries, raw.subscriptions@.len()),
            )),
            WasmFaultKind::DeadMqttSink,
        )
}

/// A fault of the consumer as a whole, placed at its first item.
pub open spec fn at_front(fault: Option<WasmFaultKind>) -> Option<(nat, WasmFaultKind)> {
    match fault {
        Some(kind) => Some((0nat, kind)),
        None => None,
    }
}

/// The first thing that is wrong with a consumer's ports.
pub open spec fn port_faults(raw: WasmConsumerConfigRaw, entries: Seq<ChannelEntry>) -> Option<
    (nat, WasmFaultKind),
> {
    model::first_of(
        model::first_fault(input_faults(raw, entries), raw.subscriptions@.len()),
        model::first_of(
            at_front(
                model::unless(
                    !all_unqueued(input_ports(raw, entries, raw.subscriptions@.len())),
                    WasmFaultKind::CannotActivate,
                ),
            ),
            model::first_fault(output_faults(raw, entries), raw.outputs@.len()),
        ),
    )
}

/// The first thing that is wrong with what a consumer may publish.
pub open spec fn publish_faults(
    raw: WasmConsumerConfigRaw,
    entries: Seq<ChannelEntry>,
    clients: Map<Seq<char>, MqttClient>,
) -> Option<(nat, WasmFaultKind)> {
    model::first_of(
        at_front(ports_fault(raw)),
        model::first_of(
            model::first_fault(publish_client_faults(raw, clients), raw.mqtt_publish_acl@.len()),
            model::first_of(
                model::first_fault(
                    subscribe_client_faults(raw, clients),
                    raw.mqtt_subscribe_acl@.len(),
                ),
                model::first_of(
                    at_front(
                        model::unless(
                            raw.mqtt_publish_acl@.len() == 0 || granted(raw, WasmGrant::Mqtt),
                            WasmFaultKind::MqttAclNotGranted,
                        ),
                    ),
                    model::first_of(
                        model::first_fault(dead_output_faults(raw, entries), raw.outputs@.len()),
                        model::first_of(
                            model::first_fault(mqtt_output_faults(raw), raw.mqtt_outputs@.len()),
                            model::first_fault(
                                dead_mqtt_faults(raw, entries),
                                budgeted_sinks(raw, raw.mqtt_outputs@.len()).len(),
                            ),
                        ),
                    ),
                ),
            ),
        ),
    )
}

/// The first thing that is wrong with a consumer: its slug, its grants, its map, store and pacing,
/// its ports, what it may publish, in this order.
pub open spec fn consumer_fault(
    raw: WasmConsumerConfigRaw,
    entries: Seq<ChannelEntry>,
    clients: Map<Seq<char>, MqttClient>,
) -> Option<(nat, WasmFaultKind)> {
    model::first_of(
        at_front(model::unless(slug_fits(raw.slug@), WasmFaultKind::SlugCharset)),
        model::first_of(
            model::first_fault(grant_faults(raw), raw.grants@.len()),
            model::first_of(
                at_front(base_fault(raw)),
                model::first_of(port_faults(raw, entries), publish_faults(raw, entries, clients)),
            ),
        ),
    )
}

/// The bus capabilities of a consumer: publishing comes with the linked interface, receiving
/// with a list that has an entry.
pub open spec fn consumer_capabilities(raw: WasmConsumerConfigRaw) -> Set<AppCapability> {
    Set::new(
        |c: AppCapability|
            match c {
                AppCapability::MessagingPublish => granted(raw, WasmGrant::Ports),
                AppCapability::MqttPublish => granted(raw, WasmGrant::Mqtt),
                AppCapability::MessagingSubscribe => raw.subscribe_acl@.len() > 0,
                AppCapability::MqttSubscribe => raw.mqtt_subscribe_acl@.len() > 0,
                AppCapability::Webhook => raw.webhook_acl@.len() > 0,
                _ => false,
            },
    )
}

/// The policy of a consumer.
pub open spec fn consumer_policy(raw: WasmConsumerConfigRaw) -> PolicyView {
    PolicyView {
        grants: consumer_capabilities(raw),
        brenn_subscribe: policy::matchers(raw.subscribe_acl@),
        brenn_publish: policy::matchers(raw.publish_acl@),
        mqtt_publish: policy::publish_clients(raw.mqtt_publish_acl@),
        mqtt_subscribe: policy::subscribe_filters(raw.mqtt_subscribe_acl@),
        mqtt_covered: policy::texts(raw.mqtt_covered@),
        webhook: policy::endpoints(raw.webhook_acl@),
        tool_grants: policy::tool_views(raw.tool_grants@),
        ..PolicyView::nothing()
    }
}

/// How often a consumer may be activated.
pub open spec fn pacing_of(raw: WasmConsumerConfigRaw) -> ActivationPacing {
    ActivationPacing {
        burst: model::or_rung(raw.activation_burst, DEFAULT_ACTIVATION_BURST),
        min_period_ms: model::or_rung(
            raw.activation_min_period_ms,
            DEFAULT_ACTIVATION_MIN_PERIOD_MS,
        ),
    }
}

/// Whether `resolved` is what a consumer comes to.
pub open spec fn consumer_resolved(
    raw: WasmConsumerConfigRaw,
    entries: Seq<ChannelEntry>,
    global_page_limit: u64,
    resolved: ResolvedWasmConsumer,
) -> bool {
    &&& resolved.slug == raw.slug
    &&& resolved.component_path == raw.component_path
    &&& resolved.grants@ == raw.grants@
    &&& resolved.store_path == (match raw.store_path {
        Some(store) => store.absolute,
        None => None,
    })
    &&& resolved.max_page_count == model::or_rung(raw.store_page_limit, global_page_limit)
    &&& resolved.inputs@ == input_ports(raw, entries, raw.subscriptions@.len())
    &&& resolved.outputs@ == output_ports(raw, entries, raw.outputs@.len())
    &&& resolved.config@ == surface_rules::config_entries(raw.config)
    &&& resolved.policy@ == consumer_policy(raw)
    &&& resolved.activation_pacing == pacing_of(raw)
    &&& wasm_model::sink_list(resolved.mqtt_sinks@) == budgeted_sinks(raw, raw.mqtt_outputs@.len())
}

/// Whether an earlier consumer has the slug of consumer `i`.
pub open spec fn slug_fault(raws: Seq<WasmConsumerConfigRaw>, i: int) -> Option<WasmFaultKind> {
    model::unless(
        !exists|k: int| 0 <= k < i && (#[trigger] raws[k]).slug@ == raws[i].slug@,
        WasmFaultKind::DuplicateSlug,
    )
}

/// The check of one slug.
pub open spec fn slug_faults(raws: Seq<WasmConsumerConfigRaw>) -> spec_fn(int) -> Option<
    WasmFaultKind,
> {
    |i: int| slug_fault(raws, i)
}

/// The check of one consumer.
pub open spec fn consumer_faults(
    raws: Seq<WasmConsumerConfigRaw>,
    entries: Seq<ChannelEntry>,
    clients: Map<Seq<char>, MqttClient>,
) -> spec_fn(int) -> Option<(nat, WasmFaultKind)> {
    |i: int| consumer_fault(raws[i], entries, clients)
}

/// Whether nothing is wrong with any of the consumers.
pub open spec fn all_consumers_resolve(
    raws: Seq<WasmConsumerConfigRaw>,
    entries: Seq<ChannelEntry>,
    declared: Map<Seq<char>, MqttClient>,
) -> bool {
    &&& model::first_fault(slug_faults(raws), raws.len()) is None
    &&& model::first_fault(consumer_faults(raws, entries, declared), raws.len()) is None
}

/// What resolving the consumers comes to: a slug used twice, else the first fault of the first
/// consumer that has one, else every consumer resolved in declaration order.
pub open spec fn consumers_outcome(
    raws: Seq<WasmConsumerConfigRaw>,
    entries: Seq<ChannelEntry>,
    global_page_limit: u64,
    declared: Map<Seq<char>, MqttClient>,
    resolved: Result<Vec<ResolvedWasmConsumer>, WasmFault>,
) -> bool {
    match model::first_fault(slug_faults(raws), raws.len()) {
        Some(fault) => resolved matches Err(e) && reports(e, fault.0, 0, fault.1),
        None => match model::first_fault(consumer_faults(raws, entries, declared), raws.len()) {
            Some(fault) => resolved matches Err(e) && reports(e, fault.0, fault.1.0, fault.1.1),
            None => {
                &&& resolved matches Ok(list)
                &&& list@.len() == raws.len()
                &&& forall|i: int|
                    0 <= i < list@.len() ==> consumer_resolved(
                        raws[i],
                        entries,
                        global_page_limit,
                        #[trigger] list@[i],
                    )
            },
        },
    }
}

/// Whether `fault` reports that `kind` is wrong at an item of a consumer.
pub open spec fn reports(fault: WasmFault, consumer: nat, item: nat, kind: WasmFaultKind) -> bool {
    fault.consumer == consumer && fault.item == item && fault.kind == kind
}

fn is_fit_slug(slug: &str) -> (fits: bool)
    ensures
        fits == slug_fits(slug@),
{
    let n: usize = slug.unicode_len();
    let mut i: usize = 0;
    while i < n
        invariant
            i <= n,
            n == slug@.len(),
            forall|k: int| 0 <= k < i ==> #[trigger] slug@[k] != ':' && slug@[k] != '@',
        decreases n - i,
    {
        let c: char = slug.get_char(i);
        if c == ':' || c == '@' {
            assert(slug@[i as int] == c);
            return false;
        }
        i = i + 1;
    }
    true
}

fn has_grant(raw: &WasmConsumerConfigRaw, grant: WasmGrant) -> (has: bool)
    ensures
        has == granted(*raw, grant),
{
    let n: usize = raw.grants.len();
    let mut i: usize = 0;
    while i < n
        invariant
            i <= n,
            n == raw.grants@.len(),
            forall|k: int| 0 <= k < i ==> #[trigger] raw.grants@[k] != grant,
        decreases n - i,
    {
        if raw.grants[i] == grant {
            assert(raw.grants@[i as int] == grant);
            return true;
        }
        i = i + 1;
    }
    false
}

fn check_grants(raw: &WasmConsumerConfigRaw) -> (outcome: Result<(), (usize, WasmFaultKind)>)
    ensures
        match model::first_fault(grant_faults(*raw), raw.grants@.len()) {
            Some(fault) => outcome matches Err(e) && e.0 == fault.0 && e.1 == fault.1,
            None => outcome is Ok,
        },
{
    let n: usize = raw.grants.len();
    let mut j: usize = 0;
    while j < n
        invariant
            j <= n,
            n == raw.grants@.len(),
            model::first_fault(grant_faults(*raw), j as nat) is None,
        decreases n - j,
    {
        let mut k: usize = 0;
        while k < j
            invariant
                k <= j < n,
                n == raw.grants@.len(),
                model::first_fault(grant_faults(*raw), j as nat) is None,
                forall|m: int| 0 <= m < k ==> #[trigger] raw.grants@[m] != raw.grants@[j as int],
            decreases j - k,
        {
            if raw.grants[k] == raw.grants[j] {
                assert(raw.grants@[k as int] == raw.grants@[j as int]);
                assert(grant_fault(*raw, j as int) is Some);
                proof {
                    model::fault_stands(grant_faults(*raw), (j + 1) as nat, n as nat);
                }
                return Err((j, WasmFaultKind::DuplicateGrant));
            }
            k = k + 1;
        }
        assert(grant_fault(*raw, j as int) is None);
        j = j + 1;
    }
    Ok(())
}

fn check_base(raw: &WasmConsumerConfigRaw) -> (fault: Option<WasmFaultKind>)
    ensures
        fault == base_fault(*raw),
{
    if raw.config.is_some() && !has_grant(raw, WasmGrant::Config) {
        return Some(WasmFaultKind::ConfigNotGranted);
    }
    if raw.store_path.is_some() && !has_grant(raw, WasmGrant::Store) {
        return Some(WasmFaultKind::StorePathNotGranted);
    }
    if raw.store_page_limit.is_some() && !has_grant(raw, WasmGrant::Store) {
        return Some(WasmFaultKind::StoreLimitNotGranted);
    }
    match &raw.store_path {
        None => {
            if has_grant(raw, WasmGrant::Store) {
                return Some(WasmFaultKind::StorePathMissing);
            }
        },
        Some(store) => {
            if !store.parent_exists {
                return Some(WasmFaultKind::StoreParentMissing);
            }
            if store.absolute.is_none() {
                return Some(WasmFaultKind::StorePathUnresolved);
            }
        },
    }
    if let Some(burst) = raw.activation_burst {
        if burst == 0 {
            return Some(WasmFaultKind::ZeroActivationBurst);
        }
    }
    if let Some(ms) = raw.activation_min_period_ms {
        if ms == 0 {
            return Some(WasmFaultKind::ZeroActivationPeriod);
        }
    }
    if raw.subscriptions.len() == 0 && raw.outputs.len() > 0 {
        return Some(WasmFaultKind::OutputsWithoutInputs);
    }
    None
}

fn validate_port_name(raw: &WasmConsumerConfigRaw, name: &str, inputs: usize, outputs: usize) -> (fault:
    Option<WasmFaultKind>)
    requires
        inputs <= raw.subscriptions@.len(),
        outputs <= raw.outputs@.len(),
    ensures
        fault == name_fault(*raw, name@, inputs as int, outputs as int),
{
    if name.unicode_len() == 0 {
        return Some(WasmFaultKind::EmptyPort);
    }
    if !is_unreserved(name) {
        return Some(WasmFaultKind::PortCharset);
    }
    if same_text(name, TOOL_RESULT_INPUT_PORT) {
        return Some(WasmFaultKind::ReservedPort);
    }
    let mut k: usize = 0;
    while k < inputs
        invariant
            k <= inputs <= raw.subscriptions@.len(),
            outputs <= raw.outputs@.len(),
            name@.len() > 0,
            address::all_unreserved(name@),
            name@ != TOOL_RESULT_INPUT_PORT@,
            forall|m: int| 0 <= m < k ==> (#[trigger] raw.subscriptions@[m]).port@ != name@,
        decreases inputs - k,
    {
        if same_text(raw.subscriptions[k].port.as_str(), name) {
            assert(raw.subscriptions@[k as int].port@ == name@);
            return Some(WasmFaultKind::DuplicatePort);
        }
        k = k + 1;
    }
    let mut k: usize = 0;
    while k < outputs
        invariant
            k <= outputs <= raw.outputs@.len(),
            name@.len() > 0,
            address::all_unreserved(name@),
            name@ != TOOL_RESULT_INPUT_PORT@,
            forall|m: int| 0 <= m < inputs ==> (#[trigger] raw.subscriptions@[m]).port@ != name@,
            forall|m: int| 0 <= m < k ==> (#[trigger] raw.outputs@[m]).port@ != name@,
        decreases outputs - k,
    {
        if same_text(raw.outputs[k].port.as_str(), name) {
            assert(raw.outputs@[k as int].port@ == name@);
            return Some(WasmFaultKind::DuplicatePort);
        }
        k = k + 1;
    }
    None
}

fn resolve_input(raw: &WasmConsumerConfigRaw, directory: &MessagingDirectory, j: usize) -> (port:
    Result<WasmInputPort, WasmFaultKind>)
    requires
        j < raw.subscriptions@.len(),
    ensures
        match input_fault(*raw, directory.entries@, j as int) {
            Some(fault) => port == Err::<WasmInputPort, WasmFaultKind>(fault),
            None => port == Ok::<WasmInputPort, WasmFaultKind>(
                input_port(*raw, directory.entries@, j as int),
            ),
        },
{
    let sub: &WasmConsumerSubscriptionRaw = &raw.subscriptions[j];
    if let Some(fault) = validate_port_name(raw, sub.port.as_str(), j, 0) {
        return Err(fault);
    }
    let entry: &ChannelEntry = match directory.resolve(sub.channel.as_str()) {
        Some(entry) => entry,
        None => {
            return Err(WasmFaultKind::UnknownChannel);
        },
    };
    let mut k: usize = 0;
    while k < j
        invariant
            k <= j < raw.subscriptions@.len(),
            name_fault(*raw, sub.port@, j as int, 0) is None,
            *sub == raw.subscriptions@[j as int],
            directory::channel_at(directory.entries@, sub.channel@) == Some(*entry),
            forall|m: int|
                0 <= m < k ==> (#[trigger] raw.subscriptions@[m]).channel@ != sub.channel@,
        decreases j - k,
    {
        if raw.subscriptions[k].channel == sub.channel {
            assert(raw.subscriptions@[k as int].channel@ == sub.channel@);
            return Err(WasmFaultKind::DuplicateChannel);
        }
        k = k + 1;
    }
    let push_depth: Depth = match sub.push_depth {
        Some(depth) => depth,
        None => entry.resolved_channel.push_depth,
    };
    let retain_depth: Depth = match sub.retain_depth {
        Some(depth) => depth,
        None => entry.resolved_channel.retain_depth,
    };
    let unqueued: bool = push_depth == Depth::Bounded(0);
    if sub.noise.is_some() && unqueued {
        return Err(WasmFaultKind::NoiseWithoutQueue);
    }
    if unqueued && retain_depth == Depth::Bounded(0) {
        return Err(WasmFaultKind::DeadPort);
    }
    if sub.wake_min.is_some() {
        return Err(WasmFaultKind::WakeMinSet);
    }
    if sub.amplification_mt.is_some() && unqueued {
        return Err(WasmFaultKind::AmplificationWithoutQueue);
    }
    Ok(
        WasmInputPort {
            port: sub.port.clone(),
            sub: ResolvedSubscription {
                channel_uuid: entry.uuid,
                channel_address: entry.address.clone(),
                push_depth,
                retain_depth,
                noise: match sub.noise {
                    Some(noise) => noise,
                    None => entry.resolved_channel.noise,
                },
                wake_min: entry.resolved_channel.wake_min,
            },
            amplification_mt: match sub.amplification_mt {
                Some(mt) => mt,
                None => DEFAULT_PUBLISH_MT,
            },
        },
    )
}

fn resolve_inputs(raw: &WasmConsumerConfigRaw, directory: &MessagingDirectory) -> (ports: Result<
    Vec<WasmInputPort>,
    (usize, WasmFaultKind),
>)
    ensures
        match model::first_fault(
            input_faults(*raw, directory.entries@),
            raw.subscriptions@.len(),
        ) {
            Some(fault) => ports matches Err(e) && e.0 == fault.0 && e.1 == fault.1,
            None => ports matches Ok(list) && list@ == input_ports(
                *raw,
                directory.entries@,
                raw.subscriptions@.len(),
            ),
        },
{
    let n: usize = raw.subscriptions.len();
    let mut list: Vec<WasmInputPort> = Vec::new();
    let mut j: usize = 0;
    while j < n
        invariant
            j <= n,
            n == raw.subscriptions@.len(),
            list@ == input_ports(*raw, directory.entries@, j as nat),
            model::first_fault(input_faults(*raw, directory.entries@), j as nat) is None,
        decreases n - j,
    {
        match resolve_input(raw, directory, j) {
            Ok(port) => {
                list.push(port);
                assert(list@ =~= input_ports(*raw, directory.entries@, (j + 1) as nat));
            },
            Err(kind) => {
                proof {
                    model::fault_stands(
                        input_faults(*raw, directory.entries@),
                        (j + 1) as nat,
                        n as nat,
                    );
                }
                return Err((j, kind));
            },
        }
        j = j + 1;
    }
    Ok(list)
}

fn none_queued(inputs: &Vec<WasmInputPort>) -> (dead: bool)
    ensures
        dead == all_unqueued(inputs@),
{
    let n: usize = inputs.len();
    if n == 0 {
        return false;
    }
    let mut j: usize = 0;
    while j < n
        invariant
            j <= n,
            n == inputs@.len(),
            forall|k: int|
                0 <= k < j ==> (#[trigger] inputs@[k]).sub.push_depth == Depth::Bounded(0),
        decreases n - j,
    {
        if inputs[j].sub.push_depth.is_push_enabled() {
            return false;
        }
        j = j + 1;
    }
    true
}

fn resolve_output(raw: &WasmConsumerConfigRaw, directory: &MessagingDirectory, j: usize) -> (port:
    Result<WasmOutputPort, WasmFaultKind>)
    requires
        j < raw.outputs@.len(),
    ensures
        match output_fault(*raw, directory.entries@, j as int) {
            Some(fault) => port == Err::<WasmOutputPort, WasmFaultKind>(fault),
            None => port == Ok::<WasmOutputPort, WasmFaultKind>(
                output_port(*raw, directory.entries@, j as int),
            ),
        },
{
    let out: &WasmConsumerOutputRaw = &raw.outputs[j];
    if let Some(fault) = validate_port_name(raw, out.port.as_str(), raw.subscriptions.len(), j) {
        return Err(fault);
    }
    let entry: &ChannelEntry = match directory.resolve(out.channel.as_str()) {
        Some(entry) => entry,
        None => {
            return Err(WasmFaultKind::UnknownOutputChannel);
        },
    };
    if !has_prefix(entry.address.as_str(), BRENN_ADDRESS_PREFIX) {
        return Err(WasmFaultKind::OutputNotBrenn);
    }
    Ok(
        WasmOutputPort {
            port: out.port.clone(),
            channel_uuid: entry.uuid,
            channel_address: entry.address.clone(),
            default_urgency: match out.urgency {
                Some(urgency) => urgency,
                None => Urgency::Normal,
            },
            budget: resolve_sink_budget(out.publish_per_activation_mt, out.publish_capacity_mt),
        },
    )
}

fn resolve_outputs(raw: &WasmConsumerConfigRaw, directory: &MessagingDirectory) -> (ports: Result<
    Vec<WasmOutputPort>,
    (usize, WasmFaultKind),
>)
    ensures
        match model::first_fault(output_faults(*raw, directory.entries@), raw.outputs@.len()) {
            Some(fault) => ports matches Err(e) && e.0 == fault.0 && e.1 == fault.1,
            None => ports matches Ok(list) && list@ == output_ports(
                *raw,
                directory.entries@,
                raw.outputs@.len(),
            ),
        },
{
    let n: usize = raw.outputs.len();
    let mut list: Vec<WasmOutputPort> = Vec::new();
    let mut j: usize = 0;
    while j < n
        invariant
            j <= n,
            n == raw.outputs@.len(),
            list@ == output_ports(*raw, directory.entries@, j as nat),
            model::first_fault(output_faults(*raw, directory.entries@), j as nat) is None,
        decreases n - j,
    {
        match resolve_output(raw, directory, j) {
            Ok(port) => {
                list.push(port);
                assert(list@ =~= output_ports(*raw, directory.entries@, (j + 1) as nat));
            },
            Err(kind) => {
                proof {
                    model::fault_stands(
                        output_faults(*raw, directory.entries@),
                        (j + 1) as nat,
                        n as nat,
                    );
                }
                return Err((j, kind));
            },
        }
        j = j + 1;
    }
    Ok(list)
}

/// The ports of a consumer once they are all resolved.
struct Ports {
    inputs: Vec<WasmInputPort>,
    outputs: Vec<WasmOutputPort>,
}

fn resolve_ports(raw: &WasmConsumerConfigRaw, directory: &MessagingDirectory) -> (ports: Result<
    Ports,
    (usize, WasmFaultKind),
>)
    ensures
        match port_faults(*raw, directory.entries@) {
            Some(fault) => ports matches Err(e) && e.0 == fault.0 && e.1 == fault.1,
            None => {
                &&& ports matches Ok(p)
                &&& p.inputs@ == input_ports(
                    *raw,
                    directory.entries@,
                    raw.subscriptions@.len(),
                )
                &&& p.outputs@ == output_ports(*raw, directory.entries@, raw.outputs@.len())
            },
        },
{
    let inputs: Vec<WasmInputPort> = match resolve_inputs(raw, directory) {
        Ok(inputs) => inputs,
        Err(fault) => {
            return Err(fault);
        },
    };
    if none_queued(&inputs) {
        return Err((0, WasmFaultKind::CannotActivate));
    }
    match resolve_outputs(raw, directory) {
        Ok(outputs) => Ok(Ports { inputs, outputs }),
        Err(fault) => Err(fault),
    }
}

fn check_ports_grant(raw: &WasmConsumerConfigRaw) -> (fault: Option<WasmFaultKind>)
    ensures
        fault == ports_fault(*raw),
{
    if raw.outputs.len() > 0 && !has_grant(raw, WasmGrant::Ports) {
        return Some(WasmFaultKind::OutputsNotGranted);
    }
    if raw.outputs.len() > 0 && raw.publish_acl.len() == 0 {
        return Some(WasmFaultKind::OutputsWithoutAcl);
    }
    if raw.publish_acl.len() > 0 && !has_grant(raw, WasmGrant::Ports) {
        return Some(WasmFaultKind::PublishAclNotGranted);
    }
    None
}

fn check_clients(raw: &WasmConsumerConfigRaw, clients: &IndexMap<String, MqttClient>) -> (outcome:
    Result<(), (usize, WasmFaultKind)>)
    ensures
        match model::first_of(
            model::first_fault(
                publish_client_faults(*raw, clients::client_map(*clients)),
                raw.mqtt_publish_acl@.len(),
            ),
            model::first_fault(
                subscribe_client_faults(*raw, clients::client_map(*clients)),
                raw.mqtt_subscribe_acl@.len(),
            ),
        ) {
            Some(fault) => outcome matches Err(e) && e.0 == fault.0 && e.1 == fault.1,
            None => outcome is Ok,
        },
{
    let ghost declared = clients::client_map(*clients);
    let n: usize = raw.mqtt_publish_acl.len();
    let mut j: usize = 0;
    while j < n
        invariant
            j <= n,
            n == raw.mqtt_publish_acl@.len(),
            declared == clients::client_map(*clients),
            model::first_fault(publish_client_faults(*raw, declared), j as nat) is None,
        decreases n - j,
    {
        if find_client(clients, raw.mqtt_publish_acl[j].client.as_str()).is_none() {
            proof {
                model::fault_stands(
                    publish_client_faults(*raw, declared),
                    (j + 1) as nat,
                    n as nat,
                );
            }
            return Err((j, WasmFaultKind::UndeclaredPublishClient));
        }
        j = j + 1;
    }
    let m: usize = raw.mqtt_subscribe_acl.len();
    let mut j: usize = 0;
    while j < m
        invariant
            j <= m,
            m == raw.mqtt_subscribe_acl@.len(),
            declared == clients::client_map(*clients),
            model::first_fault(
                publish_client_faults(*raw, declared),
                raw.mqtt_publish_acl@.len(),
            ) is None,
            model::first_fault(subscribe_client_faults(*raw, declared), j as nat) is None,
        decreases m - j,
    {
        if find_client(clients, raw.mqtt_subscribe_acl[j].client.as_str()).is_none() {
            proof {
                model::fault_stands(
                    subscribe_client_faults(*raw, declared),
                    (j + 1) as nat,
                    m as nat,
                );
            }
            return Err((j, WasmFaultKind::UndeclaredSubscribeClient));
        }
        j = j + 1;
    }
    Ok(())
}

fn none_amplifies(inputs: &Vec<WasmInputPort>) -> (none: bool)
    ensures
        none == nothing_amplifies(inputs@),
{
    let n: usize = inputs.len();
    let mut j: usize = 0;
    while j < n
        invariant
            j <= n,
            n == inputs@.len(),
            forall|k: int|
                0 <= k < j ==> (#[trigger] inputs@[k]).amplification_mt == 0
                    || inputs@[k].sub.push_depth == Depth::Bounded(0),
        decreases n - j,
    {
        if inputs[j].amplification_mt != 0 && inputs[j].sub.push_depth.is_push_enabled() {
            return false;
        }
        j = j + 1;
    }
    true
}

fn check_outputs_live(
    raw: &WasmConsumerConfigRaw,
    outputs: &Vec<WasmOutputPort>,
    starved: bool,
    Ghost(entries): Ghost<Seq<ChannelEntry>>,
) -> (outcome: Result<(), (usize, WasmFaultKind)>)
    requires
        outputs@ == output_ports(*raw, entries, raw.outputs@.len()),
        starved == nothing_amplifies(input_ports(*raw, entries, raw.subscriptions@.len())),
    ensures
        match model::first_fault(dead_output_faults(*raw, entries), raw.outputs@.len()) {
            Some(fault) => outcome matches Err(e) && e.0 == fault.0 && e.1 == fault.1,
            None => outcome is Ok,
        },
{
    let n: usize = outputs.len();
    let mut j: usize = 0;
    while j < n
        invariant
            j <= n,
            n == outputs@.len(),
            outputs@ == output_ports(*raw, entries, raw.outputs@.len()),
            starved == nothing_amplifies(input_ports(*raw, entries, raw.subscriptions@.len())),
            model::first_fault(dead_output_faults(*raw, entries), j as nat) is None,
        decreases n - j,
    {
        if outputs[j].budget.fill_mt == 0 && starved {
            proof {
                model::fault_stands(dead_output_faults(*raw, entries), (j + 1) as nat, n as nat);
            }
            return Err((j, WasmFaultKind::DeadSink));
        }
        j = j + 1;
    }
    Ok(())
}

proof fn sink_position_is_first(list: Seq<(Seq<char>, SinkBudget)>, client: Seq<char>)
    ensures
        0 <= wasm_model::sink_position(list, client) <= list.len(),
        wasm_model::sink_position(list, client) < list.len()
            ==> list[wasm_model::sink_position(list, client)].0 == client,
        forall|i: int|
            0 <= i < wasm_model::sink_position(list, client) ==> (#[trigger] list[i]).0 != client,
    decreases list.len(),
{
    if list.len() > 0 && list[0].0 != client {
        let rest = list.drop_first();
        sink_position_is_first(rest, client);
        assert forall|i: int| 0 <= i < wasm_model::sink_position(list, client) implies (
        #[trigger] list[i]).0 != client by {
            if i > 0 {
                assert(rest[i - 1] == list[i]);
            }
        }
    }
}

/// Every client of the publish list has exactly one sink, and no other client has one.
pub proof fn one_sink_for_each_listed_client(raw: WasmConsumerConfigRaw, n: nat, client: Seq<char>)
    requires
        n <= raw.mqtt_outputs@.len(),
    ensures
        policy::publish_clients(raw.mqtt_publish_acl@).contains(client)
            <==> wasm_model::sink_position(budgeted_sinks(raw, n), client) < budgeted_sinks(
            raw,
            n,
        ).len(),
        forall|i: int, j: int|
            0 <= i < j < budgeted_sinks(raw, n).len() ==> (#[trigger] budgeted_sinks(raw, n)[i]).0
                != (#[trigger] budgeted_sinks(raw, n)[j]).0,
    decreases n,
{
    if n == 0 {
        let acl = raw.mqtt_publish_acl@;
        default_sinks_are_distinct(acl, acl.len(), client);
        let list = policy::publish_clients(acl);
        if list.contains(client) {
            let k = choose|k: int| 0 <= k < list.len() && list[k] == client;
            assert(acl[k].client@ == client);
        }
        if exists|k: int| 0 <= k < acl.len() && (#[trigger] acl[k]).client@ == client {
            let k = choose|k: int| 0 <= k < acl.len() && (#[trigger] acl[k]).client@ == client;
            assert(list[k] == client);
        }
    } else {
        let m = (n - 1) as nat;
        let before = budgeted_sinks(raw, m);
        let after = budgeted_sinks(raw, n);
        one_sink_for_each_listed_client(raw, m, client);
        sink_position_is_first(before, client);
        sink_position_is_first(after, client);
        sink_position_is_first(before, raw.mqtt_outputs@[n - 1].client@);
        let p = wasm_model::sink_position(before, client);
        let q = wasm_model::sink_position(after, client);
        assert forall|i: int| 0 <= i < before.len() implies (#[trigger] after[i]).0
            == before[i].0 by {}
        if p < before.len() {
            assert(after[p].0 == client);
        }
        if q < after.len() {
            assert(before[q].0 == client);
        }
        assert forall|i: int, j: int| 0 <= i < j < after.len() implies (#[trigger] after[i]).0 != (
        #[trigger] after[j]).0 by {
            assert(before[i].0 != before[j].0);
        }
    }
}

proof fn default_sinks_are_distinct(acl: Seq<MqttClientMatcher>, n: nat, client: Seq<char>)
    requires
        n <= acl.len(),
    ensures
        (exists|k: int| 0 <= k < n && (#[trigger] acl[k]).client@ == client)
            <==> wasm_model::sink_position(default_sinks(acl, n), client) < default_sinks(
            acl,
            n,
        ).len(),
        forall|i: int, j: int|
            0 <= i < j < default_sinks(acl, n).len() ==> (#[trigger] default_sinks(acl, n)[i]).0 != (
            #[trigger] default_sinks(acl, n)[j]).0,
    decreases n,
{
    if n > 0 {
        let m = (n - 1) as nat;
        let before = default_sinks(acl, m);
        let after = default_sinks(acl, n);
        let added = acl[n - 1].client@;
        default_sinks_are_distinct(acl, m, client);
        default_sinks_are_distinct(acl, m, added);
        sink_position_is_first(before, client);
        sink_position_is_first(before, added);
        sink_position_is_first(after, client);
        let p = wasm_model::sink_position(before, client);
        let q = wasm_model::sink_position(after, client);
        if p < before.len() {
            assert(after[p].0 == client);
        }
        if client == added && wasm_model::sink_position(before, added) >= before.len() {
            assert(after[before.len() as int].0 == client);
        }
        if q < after.len() && q < before.len() {
            assert(before[q] == after[q]);
        }
        if exists|k: int| 0 <= k < n && (#[trigger] acl[k]).client@ == client {
            let k = choose|k: int| 0 <= k < n && (#[trigger] acl[k]).client@ == client;
            if k < m {
                assert(acl[k].client@ == client);
            }
        }
        assert forall|i: int, j: int| 0 <= i < j < after.len() implies (#[trigger] after[i]).0 != (
        #[trigger] after[j]).0 by {
            if j < before.len() {
                assert(before[i].0 != before[j].0);
            } else {
                assert(before[i].0 != added);
            }
        }
    }
}

fn start_sinks(acl: &Vec<MqttClientMatcher>) -> (sinks: Vec<MqttSink>)
    ensures
        wasm_model::sink_list(sinks@) == default_sinks(acl@, acl@.len()),
{
    let n: usize = acl.len();
    let mut sinks: Vec<MqttSink> = Vec::new();
    let mut j: usize = 0;
    assert(wasm_model::sink_list(sinks@) =~= default_sinks(acl@, 0));
    while j < n
        invariant
            j <= n,
            n == acl@.len(),
            wasm_model::sink_list(sinks@) == default_sinks(acl@, j as nat),
        decreases n - j,
    {
        if find_sink(&sinks, acl[j].client.as_str()) >= sinks.len() {
            sinks.push(
                MqttSink { client: acl[j].client.clone(), budget: resolve_sink_budget(None, None) },
            );
        }
        assert(wasm_model::sink_list(sinks@) =~= default_sinks(acl@, (j + 1) as nat));
        j = j + 1;
    }
    sinks
}

fn budget_sinks(raw: &WasmConsumerConfigRaw) -> (sinks: Result<
    Vec<MqttSink>,
    (usize, WasmFaultKind),
>)
    ensures
        match model::first_fault(mqtt_output_faults(*raw), raw.mqtt_outputs@.len()) {
            Some(fault) => sinks matches Err(e) && e.0 == fault.0 && e.1 == fault.1,
            None => sinks matches Ok(list) && wasm_model::sink_list(list@) == budgeted_sinks(
                *raw,
                raw.mqtt_outputs@.len(),
            ),
        },
{
    let mut sinks: Vec<MqttSink> = start_sinks(&raw.mqtt_publish_acl);
    let n: usize = raw.mqtt_outputs.len();
    let mut j: usize = 0;
    while j < n
        invariant
            j <= n,
            n == raw.mqtt_outputs@.len(),
            wasm_model::sink_list(sinks@) == budgeted_sinks(*raw, j as nat),
            model::first_fault(mqtt_output_faults(*raw), j as nat) is None,
        decreases n - j,
    {
        let out: &WasmConsumerMqttOutputRaw = &raw.mqtt_outputs[j];
        let at: usize = find_sink(&sinks, out.client.as_str());
        proof {
            one_sink_for_each_listed_client(*raw, j as nat, out.client@);
        }
        if at >= sinks.len() {
            assert(mqtt_output_fault(*raw, j as int) == Some(WasmFaultKind::UncoveredMqttOutput));
            proof {
                model::fault_stands(mqtt_output_faults(*raw), (j + 1) as nat, n as nat);
            }
            return Err((j, WasmFaultKind::UncoveredMqttOutput));
        }
        let mut k: usize = 0;
        while k < j
            invariant
                k <= j < n,
                n == raw.mqtt_outputs@.len(),
                *out == raw.mqtt_outputs@[j as int],
                policy::publish_clients(raw.mqtt_publish_acl@).contains(out.client@),
                model::first_fault(mqtt_output_faults(*raw), j as nat) is None,
                forall|m: int|
                    0 <= m < k ==> (#[trigger] raw.mqtt_outputs@[m]).client@ != out.client@,
            decreases j - k,
        {
            if raw.mqtt_outputs[k].client == out.client {
                assert(raw.mqtt_outputs@[k as int].client@ == out.client@);
                assert(mqtt_output_fault(*raw, j as int) == Some(
                    WasmFaultKind::DuplicateMqttOutput,
                ));
                proof {
                    model::fault_stands(mqtt_output_faults(*raw), (j + 1) as nat, n as nat);
                }
                return Err((j, WasmFaultKind::DuplicateMqttOutput));
            }
            k = k + 1;
        }
        assert(mqtt_output_fault(*raw, j as int) is None);
        let budget: SinkBudget = resolve_sink_budget(
            out.publish_per_activation_mt,
            out.publish_capacity_mt,
        );
        sinks.set(at, MqttSink { client: out.client.clone(), budget });
        assert(wasm_model::sink_list(sinks@) =~= budgeted_sinks(*raw, (j + 1) as nat));
        j = j + 1;
    }
    Ok(sinks)
}

fn check_sinks_live(
    raw: &WasmConsumerConfigRaw,
    sinks: &Vec<MqttSink>,
    starved: bool,
    Ghost(entries): Ghost<Seq<ChannelEntry>>,
) -> (outcome: Result<(), (usize, WasmFaultKind)>)
    requires
        wasm_model::sink_list(sinks@) == budgeted_sinks(*raw, raw.mqtt_outputs@.len()),
        starved == nothing_amplifies(input_ports(*raw, entries, raw.subscriptions@.len())),
    ensures
        match model::first_fault(
            dead_mqtt_faults(*raw, entries),
            budgeted_sinks(*raw, raw.mqtt_outputs@.len()).len(),
        ) {
            Some(fault) => outcome matches Err(e) && e.0 == fault.0 && e.1 == fault.1,
            None => outcome is Ok,
        },
{
    let n: usize = sinks.len();
    let mut j: usize = 0;
    while j < n
        invariant
            j <= n,
            n == sinks@.len(),
            wasm_model::sink_list(sinks@) == budgeted_sinks(*raw, raw.mqtt_outputs@.len()),
            starved == nothing_amplifies(input_ports(*raw, entries, raw.subscriptions@.len())),
            model::first_fault(dead_mqtt_faults(*raw, entries), j as nat) is None,
        decreases n - j,
    {
        assert(wasm_model::sink_list(sinks@)[j as int].1 == sinks@[j as int].budget);
        if sinks[j].budget.fill_mt == 0 && starved {
            proof {
                model::fault_stands(dead_mqtt_faults(*raw, entries), (j + 1) as nat, n as nat);
            }
            return Err((j, WasmFaultKind::DeadMqttSink));
        }
        j = j + 1;
    }
    Ok(())
}

fn resolve_publishing(
    raw: &WasmConsumerConfigRaw,
    ports: &Ports,
    clients: &IndexMap<String, MqttClient>,
    Ghost(entries): Ghost<Seq<ChannelEntry>>,
) -> (sinks: Result<Vec<MqttSink>, (usize, WasmFaultKind)>)
    requires
        ports.inputs@ == input_ports(*raw, entries, raw.subscriptions@.len()),
        ports.outputs@ == output_ports(*raw, entries, raw.outputs@.len()),
    ensures
        match publish_faults(*raw, entries, clients::client_map(*clients)) {
            Some(fault) => sinks matches Err(e) && e.0 == fault.0 && e.1 == fault.1,
            None => sinks matches Ok(list) && wasm_model::sink_list(list@) == budgeted_sinks(
                *raw,
                raw.mqtt_outputs@.len(),
            ),
        },
{
    if let Some(kind) = check_ports_grant(raw) {
        return Err((0, kind));
    }
    if let Err(fault) = check_clients(raw, clients) {
        return Err(fault);
    }
    if raw.mqtt_publish_acl.len() > 0 && !has_grant(raw, WasmGrant::Mqtt) {
        return Err((0, WasmFaultKind::MqttAclNotGranted));
    }
    let starved: bool = none_amplifies(&ports.inputs);
    if let Err(fault) = check_outputs_live(raw, &ports.outputs, starved, Ghost(entries)) {
        return Err(fault);
    }
    let sinks: Vec<MqttSink> = match budget_sinks(raw) {
        Ok(sinks) => sinks,
        Err(fault) => {
            return Err(fault);
        },
    };
    if let Err(fault) = check_sinks_live(raw, &sinks, starved, Ghost(entries)) {
        return Err(fault);
    }
    Ok(sinks)
}

/// Build the policy of a consumer.
pub fn build_wasm_policy(raw: &WasmConsumerConfigRaw) -> (built: AppPolicy)
    ensures
        built@ == consumer_policy(*raw),
{
    let mut grants: GrantSet = GrantSet::new();
    if has_grant(raw, WasmGrant::Ports) {
        grants.insert(AppCapability::MessagingPublish);
    }
    if has_grant(raw, WasmGrant::Mqtt) {
        grants.insert(AppCapability::MqttPublish);
    }
    if raw.subscribe_acl.len() > 0 {
        grants.insert(AppCapability::MessagingSubscribe);
    }
    if raw.mqtt_subscribe_acl.len() > 0 {
        grants.insert(AppCapability::MqttSubscribe);
    }
    if raw.webhook_acl.len() > 0 {
        grants.insert(AppCapability::Webhook);
    }
    assert(grants@ =~= consumer_capabilities(*raw));
    let mut acls: AclSet = AclSet::new();
    acls.brenn_subscribe = raw.subscribe_acl.clone();
    acls.brenn_publish = raw.publish_acl.clone();
    acls.mqtt_publish = raw.mqtt_publish_acl.clone();
    acls.mqtt_subscribe = raw.mqtt_subscribe_acl.clone();
    acls.mqtt_covered = raw.mqtt_covered.clone();
    acls.webhook = raw.webhook_acl.clone();
    let tool_grants: Vec<ToolGrant> = copy_tool_grants(&raw.tool_grants);
    let built = AppPolicy { grants, acls, tool_grants };
    assert(built.acls.brenn_subscribe@ =~= raw.subscribe_acl@);
    assert(built.acls.brenn_publish@ =~= raw.publish_acl@);
    assert(built.acls.mqtt_publish@ =~= raw.mqtt_publish_acl@);
    assert(built.acls.mqtt_subscribe@ =~= raw.mqtt_subscribe_acl@);
    assert(built.acls.mqtt_covered@ =~= raw.mqtt_covered@);
    assert(built.acls.webhook@ =~= raw.webhook_acl@);
    assert(built@ =~= consumer_policy(*raw));
    built
}

fn resolve_consumer(
    raw: &WasmConsumerConfigRaw,
    directory: &MessagingDirectory,
    global_page_limit: u64,
    clients: &IndexMap<String, MqttClient>,
) -> (resolved: Result<ResolvedWasmConsumer, (usize, WasmFaultKind)>)
    ensures
        match consumer_fault(*raw, directory.entries@, clients::client_map(*clients)) {
            Some(fault) => resolved matches Err(e) && e.0 == fault.0 && e.1 == fault.1,
            None => resolved matches Ok(consumer) && consumer_resolved(
                *raw,
                directory.entries@,
                global_page_limit,
                consumer,
            ),
        },
{
    if !is_fit_slug(raw.slug.as_str()) {
        return Err((0, WasmFaultKind::SlugCharset));
    }
    if let Err(fault) = check_grants(raw) {
        return Err(fault);
    }
    if let Some(kind) = check_base(raw) {
        return Err((0, kind));
    }
    let ports: Ports = match resolve_ports(raw, directory) {
        Ok(ports) => ports,
        Err(fault) => {
            return Err(fault);
        },
    };
    let mqtt_sinks: Vec<MqttSink> = match resolve_publishing(
        raw,
        &ports,
        clients,
        Ghost(directory.entries@),
    ) {
        Ok(sinks) => sinks,
        Err(fault) => {
            return Err(fault);
        },
    };
    let grants: Vec<WasmGrant> = raw.grants.clone();
    assert(grants@ =~= raw.grants@);
    let Ports { inputs, outputs } = ports;
    Ok(
        ResolvedWasmConsumer {
            slug: raw.slug.clone(),
            component_path: raw.component_path.clone(),
            grants,
            store_path: match &raw.store_path {
                Some(store) => match &store.absolute {
                    Some(absolute) => Some(absolute.clone()),
                    None => None,
                },
                None => None,
            },
            max_page_count: match raw.store_page_limit {
                Some(pages) => pages,
                None => global_page_limit,
            },
            inputs,
            outputs,
            config: match &raw.config {
                Some(map) => copy_entries(map),
                None => Vec::new(),
            },
            policy: build_wasm_policy(raw),
            activation_pacing: ActivationPacing {
                burst: match raw.activation_burst {
                    Some(burst) => burst,
                    None => DEFAULT_ACTIVATION_BURST,
                },
                min_period_ms: match raw.activation_min_period_ms {
                    Some(ms) => ms,
                    None => DEFAULT_ACTIVATION_MIN_PERIOD_MS,
                },
            },
            mqtt_sinks,
        },
    )
}

fn check_slugs(raws: &[WasmConsumerConfigRaw]) -> (outcome: Result<(), usize>)
    ensures
        match model::first_fault(slug_faults(raws@), raws@.len()) {
            Some(fault) => outcome matches Err(i) && i == fault.0 && fault.1
                == WasmFaultKind::DuplicateSlug,
            None => outcome is Ok,
        },
{
    let n: usize = raws.len();
    let mut i: usize = 0;
    while i < n
        invariant
            i <= n,
            n == raws@.len(),
            model::first_fault(slug_faults(raws@), i as nat) is None,
        decreases n - i,
    {
        let mut k: usize = 0;
        while k < i
            invariant
                k <= i < n,
                n == raws@.len(),
                model::first_fault(slug_faults(raws@), i as nat) is None,
                forall|m: int| 0 <= m < k ==> (#[trigger] raws@[m]).slug@ != raws@[i as int].slug@,
            decreases i - k,
        {
            if raws[k].slug == raws[i].slug {
                assert(raws@[k as int].slug@ == raws@[i as int].slug@);
                assert(slug_fault(raws@, i as int) == Some(WasmFaultKind::DuplicateSlug));
                proof {
                    model::fault_stands(slug_faults(raws@), (i + 1) as nat, n as nat);
                }
                return Err(i);
            }
            k = k + 1;
        }
        assert(slug_fault(raws@, i as int) is None);
        i = i + 1;
    }
    Ok(())
}

/// Resolve the operator's consumers, in declaration order, or report the first thing that is
/// wrong: a slug used twice, else the first fault of the first consumer that has one.
pub fn resolve_wasm_consumers(
    raw_consumers: &[WasmConsumerConfigRaw],
    directory: &MessagingDirectory,
    global_page_limit: u64,
    resolved_clients: &IndexMap<String, MqttClient>,
) -> (resolved: Result<Vec<ResolvedWasmConsumer>, WasmFault>)
    ensures
        consumers_outcome(
            raw_consumers@,
            directory.entries@,
            global_page_limit,
            clients::client_map(*resolved_clients),
            resolved,
        ),
{
    if let Err(consumer) = check_slugs(raw_consumers) {
        return Err(WasmFault { consumer, item: 0, kind: WasmFaultKind::DuplicateSlug });
    }
    let n: usize = raw_consumers.len();
    let ghost faults = consumer_faults(
        raw_consumers@,
        directory.entries@,
        clients::client_map(*resolved_clients),
    );
    let mut list: Vec<ResolvedWasmConsumer> = Vec::new();
    let mut i: usize = 0;
    while i < n
        invariant
            i <= n,
            n == raw_consumers@.len(),
            faults == consumer_faults(
                raw_consumers@,
                directory.entries@,
                clients::client_map(*resolved_clients),
            ),
            model::first_fault(slug_faults(raw_consumers@), raw_consumers@.len()) is None,
            model::first_fault(faults, i as nat) is None,
            list@.len() == i,
            forall|k: int|
                0 <= k < i ==> consumer_resolved(
                    raw_consumers@[k],
                    directory.entries@,
                    global_page_limit,
                    #[trigger] list@[k],
                ),
        decreases n - i,
    {
        match resolve_consumer(
            &raw_consumers[i],
            directory,
            global_page_limit,
            resolved_clients,
        ) {
            Ok(consumer) => {
                list.push(consumer);
            },
            Err((item, kind)) => {
                proof {
                    model::fault_stands(faults, (i + 1) as nat, n as nat);
                }
                return Err(WasmFault { consumer: i, item, kind });
            },
        }
        i = i + 1;
    }
    Ok(list)
}

proof fn default_sinks_have_one_publish(acl: Seq<MqttClientMatcher>, n: nat)
    ensures
        forall|i: int|
            0 <= i < default_sinks(acl, n).len() ==> (#[trigger] default_sinks(acl, n)[i]).1.fill_mt
                == 1000 && default_sinks(acl, n)[i].1.capacity_mt == 1000,
    decreases n,
{
    if n > 0 {
        default_sinks_have_one_publish(acl, (n - 1) as nat);
        let before = default_sinks(acl, (n - 1) as nat);
        let after = default_sinks(acl, n);
        assert forall|i: int| 0 <= i < after.len() implies (#[trigger] after[i]).1.fill_mt == 1000
            && after[i].1.capacity_mt == 1000 by {
            if i < before.len() {
                assert(after[i] == before[i]);
            }
        }
    }
}

/// Whether a sink has the budget that `out` states for it, one publish where it states none.
pub open spec fn budgeted_by(sink: (Seq<char>, SinkBudget), out: WasmConsumerMqttOutputRaw) -> bool {
    &&& sink.0 == out.client@
    &&& out.publish_per_activation_mt matches Some(mt) ==> sink.1.fill_mt == mt
    &&& out.publish_per_activation_mt is None ==> sink.1.fill_mt == 1000
    &&& out.publish_capacity_mt matches Some(mt) ==> sink.1.capacity_mt == mt
    &&& out.publish_capacity_mt is None ==> sink.1.capacity_mt == 1000
}

/// A sink has the budget that the operator states for its client; a client that no budget is for
/// has one publish and room for one.
pub proof fn sinks_have_their_stated_budgets(raw: WasmConsumerConfigRaw, n: nat, i: int)
    requires
        n <= raw.mqtt_outputs@.len(),
        0 <= i < budgeted_sinks(raw, n).len(),
    ensures
        (exists|j: int|
            0 <= j < n && budgeted_by(budgeted_sinks(raw, n)[i], #[trigger] raw.mqtt_outputs@[j]))
            || {
            &&& forall|j: int|
                0 <= j < n ==> (#[trigger] raw.mqtt_outputs@[j]).client@ != budgeted_sinks(raw, n)[
                    i
                ].0
            &&& budgeted_sinks(raw, n)[i].1.fill_mt == 1000
            &&& budgeted_sinks(raw, n)[i].1.capacity_mt == 1000
        },
    decreases n,
{
    if n == 0 {
        default_sinks_have_one_publish(raw.mqtt_publish_acl@, raw.mqtt_publish_acl@.len());
    } else {
        let m = (n - 1) as nat;
        let before = budgeted_sinks(raw, m);
        let after = budgeted_sinks(raw, n);
        let out = raw.mqtt_outputs@[n - 1];
        let p = wasm_model::sink_position(before, out.client@);
        sink_position_is_first(before, out.client@);
        one_sink_for_each_listed_client(raw, m, out.client@);
        if i == p {
            assert(budgeted_by(after[i], raw.mqtt_outputs@[n - 1]));
        } else {
            sinks_have_their_stated_budgets(raw, m, i);
            assert(after[i] == before[i]);
            assert(before[i].0 != out.client@);
            if exists|j: int| 0 <= j < m && budgeted_by(before[i], #[trigger] raw.mqtt_outputs@[j]) {
                let j = choose|j: int|
                    0 <= j < m && budgeted_by(before[i], #[trigger] raw.mqtt_outputs@[j]);
                assert(budgeted_by(after[i], raw.mqtt_outputs@[j]));
            }
        }
    }
}

/// Nothing amplifies exactly where every input without a shut queue has no amplification.
pub proof fn amplification_takes_a_queue(inputs: Seq<WasmInputPort>)
    ensures
        !nothing_amplifies(inputs) <==> exists|j: int|
            0 <= j < inputs.len() && (#[trigger] inputs[j]).amplification_mt > 0
                && inputs[j].sub.push_depth != Depth::Bounded(0),
{
    if !nothing_amplifies(inputs) {
        let j = choose|j: int|
            0 <= j < inputs.len() && !((#[trigger] inputs[j]).amplification_mt == 0
                || inputs[j].sub.push_depth == Depth::Bounded(0));
        assert(inputs[j].amplification_mt > 0);
    }
}

/// An output is dead exactly where it is given no publishes and no input amplifies; so is a sink.
pub proof fn a_dead_sink_has_no_source(
    raw: WasmConsumerConfigRaw,
    entries: Seq<ChannelEntry>,
    j: int,
)
    ensures
        dead_output_faults(raw, entries)(j) == Some(WasmFaultKind::DeadSink) <==> output_port(
            raw,
            entries,
            j,
        ).budget.fill_mt == 0 && nothing_amplifies(
            input_ports(raw, entries, raw.subscriptions@.len()),
        ),
        dead_output_faults(raw, entries)(j) is Some ==> dead_output_faults(raw, entries)(j) == Some(
            WasmFaultKind::DeadSink,
        ),
        dead_mqtt_faults(raw, entries)(j) == Some(WasmFaultKind::DeadMqttSink) <==> budgeted_sinks(
            raw,
            raw.mqtt_outputs@.len(),
        )[j].1.fill_mt == 0 && nothing_amplifies(
            input_ports(raw, entries, raw.subscriptions@.len()),
        ),
        dead_mqtt_faults(raw, entries)(j) is Some ==> dead_mqtt_faults(raw, entries)(j) == Some(
            WasmFaultKind::DeadMqttSink,
        ),
{
}

} // verus!
