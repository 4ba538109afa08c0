//! What holds of every consumer that boot accepts.

use vstd::prelude::*;

use crate::address;
use crate::address::ChannelScheme;
use crate::clients::MqttClient;
use crate::directory;
use crate::directory::ChannelEntry;
use crate::model;
use crate::model::{Depth, Urgency};
use crate::policy;
use crate::policy::AppCapability;
use crate::wasm;
use crate::wasm_model;
use crate::wasm_model::{
    ResolvedWasmConsumer, WasmConsumerConfigRaw, WasmFault, WasmFaultKind, WasmGrant,
};

verus! {

proof fn no_check_faults(
    raw: WasmConsumerConfigRaw,
    entries: Seq<ChannelEntry>,
    declared: Map<Seq<char>, MqttClient>,
)
    requires
        wasm::consumer_fault(raw, entries, declared) is None,
    ensures
        forall|j: int| 0 <= j < raw.grants@.len() ==> (#[trigger] wasm::grant_fault(raw, j)) is None,
        wasm::base_fault(raw) is None,
        forall|j: int|
            0 <= j < raw.subscriptions@.len() ==> (#[trigger] wasm::input_fault(
                raw,
                entries,
                j,
            )) is None,
        forall|j: int|
            0 <= j < raw.outputs@.len() ==> (#[trigger] wasm::output_fault(raw, entries, j)) is None,
        wasm::ports_fault(raw) is None,
        forall|j: int|
            0 <= j < raw.outputs@.len() ==> (#[trigger] wasm::dead_output_faults(
                raw,
                entries,
            )(j)) is None,
        forall|j: int|
            0 <= j < wasm::budgeted_sinks(raw, raw.mqtt_outputs@.len()).len() ==> (
            #[trigger] wasm::dead_mqtt_faults(raw, entries)(j)) is None,
{
    model::first_fault_is_first(wasm::grant_faults(raw), raw.grants@.len());
    model::first_fault_is_first(wasm::input_faults(raw, entries), raw.subscriptions@.len());
    model::first_fault_is_first(wasm::output_faults(raw, entries), raw.outputs@.len());
    model::first_fault_is_first(wasm::dead_output_faults(raw, entries), raw.outputs@.len());
    model::first_fault_is_first(
        wasm::dead_mqtt_faults(raw, entries),
        wasm::budgeted_sinks(raw, raw.mqtt_outputs@.len()).len(),
    );
    assert forall|j: int| 0 <= j < raw.grants@.len() implies (#[trigger] wasm::grant_fault(
        raw,
        j,
    )) is None by {
        assert(wasm::grant_faults(raw)(j) is None);
    }
    assert forall|j: int| 0 <= j < raw.subscriptions@.len() implies (#[trigger] wasm::input_fault(
        raw,
        entries,
        j,
    )) is None by {
        assert(wasm::input_faults(raw, entries)(j) is None);
    }
    assert forall|j: int| 0 <= j < raw.outputs@.len() implies (#[trigger] wasm::output_fault(
        raw,
        entries,
        j,
    )) is None by {
        assert(wasm::output_faults(raw, entries)(j) is None);
    }
}

/// Every port of an accepted consumer has a name of its own, of unreserved characters, that no
/// other port of the consumer has, input or output, and that leaves the tool-result port free.
pub proof fn accepted_ports_have_their_own_names(
    raw: WasmConsumerConfigRaw,
    entries: Seq<ChannelEntry>,
    declared: Map<Seq<char>, MqttClient>,
)
    requires
        wasm::consumer_fault(raw, entries, declared) is None,
    ensures
        forall|i: int, j: int|
            0 <= i < j < raw.subscriptions@.len() ==> (#[trigger] raw.subscriptions@[i]).port@ != (
            #[trigger] raw.subscriptions@[j]).port@,
        forall|i: int, j: int|
            0 <= i < j < raw.outputs@.len() ==> (#[trigger] raw.outputs@[i]).port@ != (
            #[trigger] raw.outputs@[j]).port@,
        forall|i: int, j: int|
            0 <= i < raw.subscriptions@.len() && 0 <= j < raw.outputs@.len() ==> (
            #[trigger] raw.subscriptions@[i]).port@ != (#[trigger] raw.outputs@[j]).port@,
        forall|i: int|
            0 <= i < raw.subscriptions@.len() ==> address::all_unreserved(
                (#[trigger] raw.subscriptions@[i]).port@,
            ) && raw.subscriptions@[i].port@.len() > 0 && raw.subscriptions@[i].port@
                != wasm::TOOL_RESULT_INPUT_PORT@,
        forall|j: int|
            0 <= j < raw.outputs@.len() ==> address::all_unreserved(
                (#[trigger] raw.outputs@[j]).port@,
            ) && raw.outputs@[j].port@.len() > 0 && raw.outputs@[j].port@
                != wasm::TOOL_RESULT_INPUT_PORT@,
{
    no_check_faults(raw, entries, declared);
    let n = raw.subscriptions@.len() as int;
    assert forall|i: int| 0 <= i < n implies wasm::name_fault(
        raw,
        (#[trigger] raw.subscriptions@[i]).port@,
        i,
        0,
    ) is None by {
        assert(wasm::input_fault(raw, entries, i) is None);
    }
    assert forall|j: int| 0 <= j < raw.outputs@.len() implies wasm::name_fault(
        raw,
        (#[trigger] raw.outputs@[j]).port@,
        n,
        j,
    ) is None by {
        assert(wasm::output_fault(raw, entries, j) is None);
    }
    assert forall|i: int, j: int| 0 <= i < j < n implies (#[trigger] raw.subscriptions@[i]).port@
        != (#[trigger] raw.subscriptions@[j]).port@ by {
        assert(!wasm::name_taken(raw, raw.subscriptions@[j].port@, j, 0));
    }
    assert forall|i: int, j: int| 0 <= i < j < raw.outputs@.len() implies (
    #[trigger] raw.outputs@[i]).port@ != (#[trigger] raw.outputs@[j]).port@ by {
        assert(!wasm::name_taken(raw, raw.outputs@[j].port@, n, j));
    }
    assert forall|i: int, j: int| 0 <= i < n && 0 <= j < raw.outputs@.len() implies (
    #[trigger] raw.subscriptions@[i]).port@ != (#[trigger] raw.outputs@[j]).port@ by {
        assert(!wasm::name_taken(raw, raw.outputs@[j].port@, n, j));
    }
}

/// An accepted consumer with inputs has one that can activate it, each of its inputs is on a
/// channel of the directory of its own, and each can deliver something.
pub proof fn accepted_consumers_can_activate(
    raw: WasmConsumerConfigRaw,
    entries: Seq<ChannelEntry>,
    declared: Map<Seq<char>, MqttClient>,
)
    requires
        wasm::consumer_fault(raw, entries, declared) is None,
    ensures
        raw.subscriptions@.len() > 0 ==> exists|j: int|
            0 <= j < raw.subscriptions@.len() && (#[trigger] wasm::input_port(
                raw,
                entries,
                j,
            )).sub.push_depth != Depth::Bounded(0),
        forall|j: int|
            0 <= j < raw.subscriptions@.len() ==> {
                let port = #[trigger] wasm::input_port(raw, entries, j);
                &&& directory::channel_at(entries, raw.subscriptions@[j].channel@) is Some
                &&& port.sub.push_depth != Depth::Bounded(0) || port.sub.retain_depth
                    != Depth::Bounded(0)
            },
        forall|i: int, j: int|
            0 <= i < j < raw.subscriptions@.len() ==> (#[trigger] raw.subscriptions@[i]).channel@
                != (#[trigger] raw.subscriptions@[j]).channel@,
{
    no_check_faults(raw, entries, declared);
    let n = raw.subscriptions@.len();
    let inputs = wasm::input_ports(raw, entries, n);
    assert(!wasm::all_unqueued(inputs));
    if n > 0 {
        let j = choose|j: int|
            0 <= j < inputs.len() && (#[trigger] inputs[j]).sub.push_depth != Depth::Bounded(0);
        assert(wasm::input_port(raw, entries, j).sub.push_depth != Depth::Bounded(0));
    }
    assert forall|j: int| 0 <= j < n implies {
        let port = #[trigger] wasm::input_port(raw, entries, j);
        &&& directory::channel_at(entries, raw.subscriptions@[j].channel@) is Some
        &&& port.sub.push_depth != Depth::Bounded(0) || port.sub.retain_depth != Depth::Bounded(0)
    } by {
        assert(wasm::input_fault(raw, entries, j) is None);
    }
    assert forall|i: int, j: int| 0 <= i < j < n implies (#[trigger] raw.subscriptions@[i]).channel@
        != (#[trigger] raw.subscriptions@[j]).channel@ by {
        assert(wasm::input_fault(raw, entries, j) is None);
    }
}

/// Every output of an accepted consumer is on a durable channel of the directory, and every sink
/// it has, output or MQTT client, gains tokens: of itself at each activation, or from an input
/// that amplifies and can activate.
pub proof fn accepted_sinks_can_publish(
    raw: WasmConsumerConfigRaw,
    entries: Seq<ChannelEntry>,
    declared: Map<Seq<char>, MqttClient>,
)
    requires
        wasm::consumer_fault(raw, entries, declared) is None,
    ensures
        forall|j: int|
            0 <= j < raw.outputs@.len() ==> {
                let port = #[trigger] wasm::output_port(raw, entries, j);
                &&& directory::channel_at(entries, raw.outputs@[j].channel@) is Some
                &&& ChannelScheme::Brenn.names(port.channel_address@)
                &&& port.budget.fill_mt > 0 || !wasm::nothing_amplifies(
                    wasm::input_ports(raw, entries, raw.subscriptions@.len()),
                )
            },
        forall|j: int|
            0 <= j < wasm::budgeted_sinks(raw, raw.mqtt_outputs@.len()).len() ==> (
            #[trigger] wasm::budgeted_sinks(raw, raw.mqtt_outputs@.len())[j]).1.fill_mt > 0
                || !wasm::nothing_amplifies(
                wasm::input_ports(raw, entries, raw.subscriptions@.len()),
            ),
{
    no_check_faults(raw, entries, declared);
    assert forall|j: int| 0 <= j < raw.outputs@.len() implies {
        let port = #[trigger] wasm::output_port(raw, entries, j);
        &&& directory::channel_at(entries, raw.outputs@[j].channel@) is Some
        &&& ChannelScheme::Brenn.names(port.channel_address@)
        &&& port.budget.fill_mt > 0 || !wasm::nothing_amplifies(
            wasm::input_ports(raw, entries, raw.subscriptions@.len()),
        )
    } by {
        assert(wasm::output_fault(raw, entries, j) is None);
        assert(wasm::dead_output_faults(raw, entries)(j) is None);
    }
    assert forall|j: int|
        0 <= j < wasm::budgeted_sinks(raw, raw.mqtt_outputs@.len()).len() implies (
    #[trigger] wasm::budgeted_sinks(raw, raw.mqtt_outputs@.len())[j]).1.fill_mt > 0
        || !wasm::nothing_amplifies(
        wasm::input_ports(raw, entries, raw.subscriptions@.len()),
    ) by {
        assert(wasm::dead_mqtt_faults(raw, entries)(j) is None);
    }
}

/// An accepted consumer holds every right its configuration leans on: a store exactly where the
/// store interface is linked, a static map only with the configuration interface, outputs only
/// with the ports interface and a publish list, MQTT clients only where they are declared.
pub proof fn accepted_consumers_hold_what_they_use(
    raw: WasmConsumerConfigRaw,
    entries: Seq<ChannelEntry>,
    declared: Map<Seq<char>, MqttClient>,
)
    requires
        wasm::consumer_fault(raw, entries, declared) is None,
    ensures
        raw.store_path is Some <==> wasm::granted(raw, WasmGrant::Store),
        raw.config is Some ==> wasm::granted(raw, WasmGrant::Config),
        raw.outputs@.len() > 0 ==> wasm::granted(raw, WasmGrant::Ports) && raw.publish_acl@.len()
            > 0,
        raw.grants@.no_duplicates(),
        forall|j: int|
            0 <= j < raw.mqtt_publish_acl@.len() ==> declared.contains_key(
                (#[trigger] raw.mqtt_publish_acl@[j]).client@,
            ) && wasm::granted(raw, WasmGrant::Mqtt),
        forall|j: int|
            0 <= j < raw.mqtt_subscribe_acl@.len() ==> declared.contains_key(
                (#[trigger] raw.mqtt_subscribe_acl@[j]).client@,
            ),
{
    no_check_faults(raw, entries, declared);
    let publish = wasm::publish_client_faults(raw, declared);
    let subscribe = wasm::subscribe_client_faults(raw, declared);
    model::first_fault_is_first(publish, raw.mqtt_publish_acl@.len());
    model::first_fault_is_first(subscribe, raw.mqtt_subscribe_acl@.len());
    assert forall|j: int| 0 <= j < raw.mqtt_publish_acl@.len() implies declared.contains_key(
        (#[trigger] raw.mqtt_publish_acl@[j]).client@,
    ) by {
        assert(publish(j) is None);
    }
    assert forall|j: int| 0 <= j < raw.mqtt_subscribe_acl@.len() implies declared.contains_key(
        (#[trigger] raw.mqtt_subscribe_acl@[j]).client@,
    ) by {
        assert(subscribe(j) is None);
    }
    let grants = raw.grants@;
    assert forall|i: int, j: int|
        0 <= i < grants.len() && 0 <= j < grants.len() && i != j implies grants[i] != grants[j] by {
        assert(wasm::grant_fault(raw, i) is None);
        assert(wasm::grant_fault(raw, j) is None);
    }
}

proof fn accepted_channels_are_there(
    raw: WasmConsumerConfigRaw,
    entries: Seq<ChannelEntry>,
    declared: Map<Seq<char>, MqttClient>,
)
    requires
        wasm::consumer_fault(raw, entries, declared) is None,
    ensures
        forall|j: int|
            0 <= j < raw.subscriptions@.len() ==> directory::channel_at(
                entries,
                (#[trigger] raw.subscriptions@[j]).channel@,
            ) is Some,
        forall|j: int|
            0 <= j < raw.outputs@.len() ==> directory::channel_at(
                entries,
                (#[trigger] raw.outputs@[j]).channel@,
            ) is Some,
{
    no_check_faults(raw, entries, declared);
    assert forall|j: int| 0 <= j < raw.subscriptions@.len() implies directory::channel_at(
        entries,
        (#[trigger] raw.subscriptions@[j]).channel@,
    ) is Some by {
        assert(wasm::input_fault(raw, entries, j) is None);
    }
    assert forall|j: int| 0 <= j < raw.outputs@.len() implies directory::channel_at(
        entries,
        (#[trigger] raw.outputs@[j]).channel@,
    ) is Some by {
        assert(wasm::output_fault(raw, entries, j) is None);
    }
}

/// Every output of a resolved consumer is on the channel the operator wrote, under the port name
/// the operator wrote. Its urgency and the two knobs of its budget are the operator's; where they
/// are not stated, the urgency is normal and each knob one publish.
pub proof fn resolved_outputs_are_as_written(
    raw: WasmConsumerConfigRaw,
    entries: Seq<ChannelEntry>,
    limit: u64,
    declared: Map<Seq<char>, MqttClient>,
    resolved: ResolvedWasmConsumer,
    j: int,
)
    requires
        wasm::consumer_fault(raw, entries, declared) is None,
        wasm::consumer_resolved(raw, entries, limit, resolved),
        0 <= j < raw.outputs@.len(),
    ensures
        resolved.outputs@.len() == raw.outputs@.len(),
        resolved.outputs@[j].port == raw.outputs@[j].port,
        resolved.outputs@[j].channel_address@ == raw.outputs@[j].channel@,
        exists|e: int|
            0 <= e < entries.len() && (#[trigger] entries[e]).address@ == raw.outputs@[j].channel@
                && entries[e].uuid == resolved.outputs@[j].channel_uuid,
        raw.outputs@[j].urgency matches Some(u) ==> resolved.outputs@[j].default_urgency == u,
        raw.outputs@[j].urgency is None ==> resolved.outputs@[j].default_urgency == Urgency::Normal,
        raw.outputs@[j].publish_per_activation_mt matches Some(mt)
            ==> resolved.outputs@[j].budget.fill_mt == mt,
        raw.outputs@[j].publish_per_activation_mt is None ==> resolved.outputs@[j].budget.fill_mt
            == 1000,
        raw.outputs@[j].publish_capacity_mt matches Some(mt)
            ==> resolved.outputs@[j].budget.capacity_mt == mt,
        raw.outputs@[j].publish_capacity_mt is None ==> resolved.outputs@[j].budget.capacity_mt
            == 1000,
{
    accepted_channels_are_there(raw, entries, declared);
    let channel = raw.outputs@[j].channel@;
    directory::lookup_finds_what_is_there(entries, channel);
    let entry = directory::channel_at(entries, channel)->0;
    let e = choose|e: int| 0 <= e < entries.len() && entries[e] == entry;
    assert(entries[e].address@ == channel);
    assert(resolved.outputs@[j] == wasm::output_port(raw, entries, j));
}

/// Every input of a resolved consumer is on the channel the operator wrote, under the port name
/// the operator wrote. What the operator states of its depths and noise holds, what they do not
/// state is the channel's; the wake threshold is always the channel's, and an input that states
/// no amplification is worth one publish.
pub proof fn resolved_inputs_are_as_written(
    raw: WasmConsumerConfigRaw,
    entries: Seq<ChannelEntry>,
    limit: u64,
    declared: Map<Seq<char>, MqttClient>,
    resolved: ResolvedWasmConsumer,
    j: int,
)
    requires
        wasm::consumer_fault(raw, entries, declared) is None,
        wasm::consumer_resolved(raw, entries, limit, resolved),
        0 <= j < raw.subscriptions@.len(),
    ensures
        resolved.inputs@.len() == raw.subscriptions@.len(),
        resolved.inputs@[j].port == raw.subscriptions@[j].port,
        resolved.inputs@[j].sub.channel_address@ == raw.subscriptions@[j].channel@,
        exists|e: int|
            0 <= e < entries.len() && {
                let channel = (#[trigger] entries[e]).resolved_channel;
                let sub = resolved.inputs@[j].sub;
                &&& entries[e].address@ == raw.subscriptions@[j].channel@
                &&& entries[e].uuid == sub.channel_uuid
                &&& raw.subscriptions@[j].push_depth is None ==> sub.push_depth
                    == channel.push_depth
                &&& raw.subscriptions@[j].retain_depth is None ==> sub.retain_depth
                    == channel.retain_depth
                &&& raw.subscriptions@[j].noise is None ==> sub.noise == channel.noise
                &&& sub.wake_min == channel.wake_min
            },
        raw.subscriptions@[j].push_depth matches Some(d) ==> resolved.inputs@[j].sub.push_depth
            == d,
        raw.subscriptions@[j].retain_depth matches Some(d) ==> resolved.inputs@[j].sub.retain_depth
            == d,
        raw.subscriptions@[j].noise matches Some(n) ==> resolved.inputs@[j].sub.noise == n,
        raw.subscriptions@[j].amplification_mt matches Some(mt)
            ==> resolved.inputs@[j].amplification_mt == mt,
        raw.subscriptions@[j].amplification_mt is None ==> resolved.inputs@[j].amplification_mt
            == 1000,
{
    accepted_channels_are_there(raw, entries, declared);
    let channel = raw.subscriptions@[j].channel@;
    directory::lookup_finds_what_is_there(entries, channel);
    let entry = directory::channel_at(entries, channel)->0;
    let e = choose|e: int| 0 <= e < entries.len() && entries[e] == entry;
    assert(entries[e].address@ == channel);
    assert(resolved.inputs@[j] == wasm::input_port(raw, entries, j));
}

/// The rest of a resolved consumer is as the operator wrote it: slug, component, grants, static
/// map. The store's path is the absolute one and its limit the operator's, or the global one
/// where they state none; a consumer that states no pacing has sixty activations of burst and a
/// second between two.
pub proof fn resolved_consumers_are_as_written(
    raw: WasmConsumerConfigRaw,
    entries: Seq<ChannelEntry>,
    limit: u64,
    resolved: ResolvedWasmConsumer,
)
    requires
        wasm::consumer_resolved(raw, entries, limit, resolved),
    ensures
        resolved.slug@ == raw.slug@,
        resolved.component_path@ == raw.component_path@,
        resolved.grants@ == raw.grants@,
        raw.store_path is None ==> resolved.store_path is None,
        raw.store_path matches Some(store) ==> resolved.store_path == store.absolute,
        raw.store_page_limit matches Some(pages) ==> resolved.max_page_count == pages,
        raw.store_page_limit is None ==> resolved.max_page_count == limit,
        raw.config matches Some(map) ==> resolved.config@ == map@,
        raw.config is None ==> resolved.config@.len() == 0,
        raw.activation_burst matches Some(burst) ==> resolved.activation_pacing.burst == burst,
        raw.activation_burst is None ==> resolved.activation_pacing.burst == 60,
        raw.activation_min_period_ms matches Some(ms) ==> resolved.activation_pacing.min_period_ms
            == ms,
        raw.activation_min_period_ms is None ==> resolved.activation_pacing.min_period_ms == 1000,
{
}

/// The policy of a consumer says what its lists say, each in its own direction: it publishes on
/// the bus with the ports interface and an entry of its publish list, and through a client with
/// the MQTT interface; to receive, an entry of the list is enough. It never receives or publishes
/// on ephemeral channels.
pub proof fn each_consumer_list_decides_its_own_direction(
    raw: WasmConsumerConfigRaw,
    name: Seq<char>,
)
    ensures
        wasm::consumer_policy(raw).publishes_brenn(name) <==> raw.grants@.contains(WasmGrant::Ports)
            && policy::lists_name(raw.publish_acl@, name),
        wasm::consumer_policy(raw).delivers_on("brenn:"@ + name) <==> policy::lists_name(
            raw.subscribe_acl@,
            name,
        ),
        wasm::consumer_policy(raw).delivers_on("webhook:"@ + name) <==> exists|i: int|
            0 <= i < raw.webhook_acl@.len() && (#[trigger] raw.webhook_acl@[i]).endpoint@ == name,
        wasm::consumer_policy(raw).delivers_on("mqtt:"@ + name) <==> raw.mqtt_subscribe_acl@.len()
            > 0 && exists|i: int|
            0 <= i < raw.mqtt_covered@.len() && (#[trigger] raw.mqtt_covered@[i])@ == "mqtt:"@
                + name,
        wasm::consumer_policy(raw).grants.contains(AppCapability::MqttPublish)
            <==> raw.grants@.contains(WasmGrant::Mqtt),
        !wasm::consumer_policy(raw).publishes_ephemeral(name),
        !wasm::consumer_policy(raw).delivers_on("ephemeral:"@ + name),
        !wasm::consumer_policy(raw).delivers_on("local:"@ + name),
        !wasm::consumer_policy(raw).grants.contains(AppCapability::SurfaceTakeover),
        !wasm::consumer_policy(raw).grants.contains(AppCapability::SurfaceAlert),
{
    address::an_address_is_its_prefix_and_its_name(name);
    policy::a_list_covers_what_its_entries_name(raw.publish_acl@, name);
    policy::a_list_covers_what_its_entries_name(raw.subscribe_acl@, name);
    let hooks = policy::endpoints(raw.webhook_acl@);
    if hooks.contains(name) {
        let i = choose|i: int| 0 <= i < hooks.len() && hooks[i] == name;
        assert(raw.webhook_acl@[i].endpoint@ == name);
    }
    assert forall|i: int| 0 <= i < raw.webhook_acl@.len() && (
    #[trigger] raw.webhook_acl@[i]).endpoint@ == name implies hooks.contains(name) by {
        assert(hooks[i] == name);
    }
    let filters = policy::texts(raw.mqtt_covered@);
    let address = "mqtt:"@ + name;
    if filters.contains(address) {
        let i = choose|i: int| 0 <= i < filters.len() && filters[i] == address;
        assert(raw.mqtt_covered@[i]@ == address);
    }
    assert forall|i: int| 0 <= i < raw.mqtt_covered@.len() && (#[trigger] raw.mqtt_covered@[i])@
        == address implies filters.contains(address) by {
        assert(filters[i] == address);
    }
}

/// The policy of a consumer has the clients, filters and tools that the operator lists, one for
/// one.
pub proof fn a_consumers_policy_has_its_listed_clients_and_tools(raw: WasmConsumerConfigRaw)
    ensures
        wasm::consumer_policy(raw).mqtt_publish.len() == raw.mqtt_publish_acl@.len(),
        forall|i: int|
            0 <= i < raw.mqtt_publish_acl@.len() ==> wasm::consumer_policy(raw).mqtt_publish[i] == (
            #[trigger] raw.mqtt_publish_acl@[i]).client@,
        wasm::consumer_policy(raw).mqtt_subscribe.len() == raw.mqtt_subscribe_acl@.len(),
        forall|i: int|
            0 <= i < raw.mqtt_subscribe_acl@.len() ==> wasm::consumer_policy(raw).mqtt_subscribe[i]
                == ((#[trigger] raw.mqtt_subscribe_acl@[i]).client@, raw.mqtt_subscribe_acl@[
                i
            ].topic_filter@),
        wasm::consumer_policy(raw).tool_grants.len() == raw.tool_grants@.len(),
        forall|i: int|
            0 <= i < raw.tool_grants@.len() ==> {
                let made = wasm::consumer_policy(raw).tool_grants[i];
                &&& made.tool == (#[trigger] raw.tool_grants@[i]).tool@
                &&& made.rate_limit == raw.tool_grants@[i].rate_limit
                &&& made.acl.len() == raw.tool_grants@[i].acl@.len()
            },
{
}
/// What stands in a consumer's header is refused exactly where a static map, a store or a store
/// limit comes without its interface, the store interface without a usable path, a pacing knob is
/// zero, or outputs come without inputs; each fault says which of these it is.
pub proof fn each_header_fault_has_its_reason(raw: WasmConsumerConfigRaw)
    ensures
        wasm::base_fault(raw) is None <==> {
            &&& raw.config is Some ==> raw.grants@.contains(WasmGrant::Config)
            &&& raw.store_path is Some <==> raw.grants@.contains(WasmGrant::Store)
            &&& raw.store_page_limit is Some ==> raw.grants@.contains(WasmGrant::Store)
            &&& raw.store_path matches Some(store) ==> store.parent_exists && store.absolute is Some
            &&& raw.activation_burst != Some(0u32)
            &&& raw.activation_min_period_ms != Some(0u64)
            &&& raw.outputs@.len() > 0 ==> raw.subscriptions@.len() > 0
        },
        wasm::base_fault(raw) == Some(WasmFaultKind::ConfigNotGranted) ==> raw.config is Some
            && !raw.grants@.contains(WasmGrant::Config),
        wasm::base_fault(raw) == Some(WasmFaultKind::StorePathNotGranted) ==> raw.store_path is Some
            && !raw.grants@.contains(WasmGrant::Store),
        wasm::base_fault(raw) == Some(WasmFaultKind::StoreLimitNotGranted)
            ==> raw.store_page_limit is Some && !raw.grants@.contains(WasmGrant::Store),
        wasm::base_fault(raw) == Some(WasmFaultKind::StorePathMissing) ==> raw.store_path is None
            && raw.grants@.contains(WasmGrant::Store),
        wasm::base_fault(raw) == Some(WasmFaultKind::StoreParentMissing)
            ==> (raw.store_path matches Some(store) && !store.parent_exists),
        wasm::base_fault(raw) == Some(WasmFaultKind::StorePathUnresolved)
            ==> (raw.store_path matches Some(store) && store.absolute is None),
        wasm::base_fault(raw) == Some(WasmFaultKind::ZeroActivationBurst) ==> raw.activation_burst
            == Some(0u32),
        wasm::base_fault(raw) == Some(WasmFaultKind::ZeroActivationPeriod)
            ==> raw.activation_min_period_ms == Some(0u64),
        wasm::base_fault(raw) == Some(WasmFaultKind::OutputsWithoutInputs) ==> raw.outputs@.len()
            > 0 && raw.subscriptions@.len() == 0,
        wasm::base_fault(raw) matches Some(kind) ==> kind == WasmFaultKind::ConfigNotGranted || kind
            == WasmFaultKind::StorePathNotGranted || kind == WasmFaultKind::StoreLimitNotGranted
            || kind == WasmFaultKind::StorePathMissing || kind == WasmFaultKind::StoreParentMissing
            || kind == WasmFaultKind::StorePathUnresolved || kind
            == WasmFaultKind::ZeroActivationBurst || kind == WasmFaultKind::ZeroActivationPeriod
            || kind == WasmFaultKind::OutputsWithoutInputs,
{
}

/// A port's name is refused exactly where it is empty, holds a character that is not unreserved,
/// is the one that tool results arrive on, or is that of an earlier port; each fault says which.
pub proof fn each_name_fault_has_its_reason(
    raw: WasmConsumerConfigRaw,
    name: Seq<char>,
    inputs: int,
    outputs: int,
)
    ensures
        wasm::name_fault(raw, name, inputs, outputs) is None <==> {
            &&& name.len() > 0
            &&& forall|i: int| 0 <= i < name.len() ==> address::unreserved(#[trigger] name[i])
            &&& name != "tool-results"@
            &&& forall|k: int|
                0 <= k < inputs ==> (#[trigger] raw.subscriptions@[k]).port@ != name
            &&& forall|k: int| 0 <= k < outputs ==> (#[trigger] raw.outputs@[k]).port@ != name
        },
        name.len() == 0 <==> wasm::name_fault(raw, name, inputs, outputs) == Some(
            WasmFaultKind::EmptyPort,
        ),
        wasm::name_fault(raw, name, inputs, outputs) == Some(WasmFaultKind::PortCharset) ==> exists|
            i: int,
        |
            0 <= i < name.len() && !address::unreserved(#[trigger] name[i]),
        wasm::name_fault(raw, name, inputs, outputs) == Some(WasmFaultKind::ReservedPort) ==> name
            == "tool-results"@,
        wasm::name_fault(raw, name, inputs, outputs) == Some(WasmFaultKind::DuplicatePort) ==> (
        exists|k: int| 0 <= k < inputs && (#[trigger] raw.subscriptions@[k]).port@ == name) || (
        exists|k: int| 0 <= k < outputs && (#[trigger] raw.outputs@[k]).port@ == name),
        wasm::name_fault(raw, name, inputs, outputs) matches Some(kind) ==> kind
            == WasmFaultKind::EmptyPort || kind == WasmFaultKind::PortCharset || kind
            == WasmFaultKind::ReservedPort || kind == WasmFaultKind::DuplicatePort,
{
}

/// An input with a good name is refused exactly where its channel is unknown or read by an
/// earlier input, it asks for noise or amplification without a queue, it has neither queue nor
/// context, or it sets a wake threshold; each fault says which.
pub proof fn each_input_fault_has_its_reason(
    raw: WasmConsumerConfigRaw,
    entries: Seq<ChannelEntry>,
    j: int,
    e: int,
    push: Depth,
    retain: Depth,
)
    requires
        0 <= j < raw.subscriptions@.len(),
        wasm::name_fault(raw, raw.subscriptions@[j].port@, j, 0) is None,
        0 <= e < entries.len(),
        entries[e].address@ == raw.subscriptions@[j].channel@,
        forall|d: int|
            0 <= d < e ==> (#[trigger] entries[d]).address@ != raw.subscriptions@[j].channel@,
        raw.subscriptions@[j].push_depth matches Some(d) ==> push == d,
        raw.subscriptions@[j].push_depth is None ==> push == entries[e].resolved_channel.push_depth,
        raw.subscriptions@[j].retain_depth matches Some(d) ==> retain == d,
        raw.subscriptions@[j].retain_depth is None ==> retain
            == entries[e].resolved_channel.retain_depth,
    ensures
        wasm::input_fault(raw, entries, j) is None <==> {
            &&& forall|k: int|
                0 <= k < j ==> (#[trigger] raw.subscriptions@[k]).channel@
                    != raw.subscriptions@[j].channel@
            &&& raw.subscriptions@[j].wake_min is None
            &&& push == Depth::Bounded(0) ==> {
                &&& raw.subscriptions@[j].noise is None
                &&& raw.subscriptions@[j].amplification_mt is None
                &&& retain != Depth::Bounded(0)
            }
        },
        wasm::input_fault(raw, entries, j) == Some(WasmFaultKind::DuplicateChannel) ==> exists|
            k: int,
        |
            0 <= k < j && (#[trigger] raw.subscriptions@[k]).channel@
                == raw.subscriptions@[j].channel@,
        wasm::input_fault(raw, entries, j) == Some(WasmFaultKind::NoiseWithoutQueue)
            ==> raw.subscriptions@[j].noise is Some && push == Depth::Bounded(0),
        wasm::input_fault(raw, entries, j) == Some(WasmFaultKind::DeadPort) ==> push
            == Depth::Bounded(0) && retain == Depth::Bounded(0),
        wasm::input_fault(raw, entries, j) == Some(WasmFaultKind::WakeMinSet)
            ==> raw.subscriptions@[j].wake_min is Some,
        wasm::input_fault(raw, entries, j) == Some(WasmFaultKind::AmplificationWithoutQueue)
            ==> raw.subscriptions@[j].amplification_mt is Some && push == Depth::Bounded(0),
        wasm::input_fault(raw, entries, j) matches Some(kind) ==> kind
            == WasmFaultKind::DuplicateChannel || kind == WasmFaultKind::NoiseWithoutQueue || kind
            == WasmFaultKind::DeadPort || kind == WasmFaultKind::WakeMinSet || kind
            == WasmFaultKind::AmplificationWithoutQueue,
{
    directory::the_first_channel_is_found(entries, e);
}

/// A port on an address that no channel has is refused as such, once its name is good.
pub proof fn ports_on_unknown_channels_are_refused(
    raw: WasmConsumerConfigRaw,
    entries: Seq<ChannelEntry>,
    j: int,
)
    ensures
        wasm::name_fault(raw, raw.subscriptions@[j].port@, j, 0) is None ==> (wasm::input_fault(
            raw,
            entries,
            j,
        ) == Some(WasmFaultKind::UnknownChannel) <==> forall|e: int|
            0 <= e < entries.len() ==> (#[trigger] entries[e]).address@
                != raw.subscriptions@[j].channel@),
        wasm::name_fault(raw, raw.outputs@[j].port@, raw.subscriptions@.len() as int, j) is None
            ==> (wasm::output_fault(raw, entries, j) == Some(WasmFaultKind::UnknownOutputChannel)
            <==> forall|e: int|
            0 <= e < entries.len() ==> (#[trigger] entries[e]).address@ != raw.outputs@[j].channel@),
        wasm::name_fault(raw, raw.subscriptions@[j].port@, j, 0) is Some ==> wasm::input_fault(
            raw,
            entries,
            j,
        ) == wasm::name_fault(raw, raw.subscriptions@[j].port@, j, 0),
        wasm::name_fault(raw, raw.outputs@[j].port@, raw.subscriptions@.len() as int, j) is Some
            ==> wasm::output_fault(raw, entries, j) == wasm::name_fault(
            raw,
            raw.outputs@[j].port@,
            raw.subscriptions@.len() as int,
            j,
        ),
{
    directory::lookup_finds_what_is_there(entries, raw.subscriptions@[j].channel@);
    directory::lookup_finds_what_is_there(entries, raw.outputs@[j].channel@);
}

/// An output with a good name on a channel of the directory is accepted exactly where the channel
/// is a durable one.
pub proof fn outputs_are_on_durable_channels(
    raw: WasmConsumerConfigRaw,
    entries: Seq<ChannelEntry>,
    j: int,
    e: int,
)
    requires
        wasm::name_fault(raw, raw.outputs@[j].port@, raw.subscriptions@.len() as int, j) is None,
        0 <= e < entries.len(),
        entries[e].address@ == raw.outputs@[j].channel@,
    ensures
        "brenn:"@.is_prefix_of(raw.outputs@[j].channel@) ==> wasm::output_fault(raw, entries, j)
            is None,
        !"brenn:"@.is_prefix_of(raw.outputs@[j].channel@) ==> wasm::output_fault(raw, entries, j)
            == Some(WasmFaultKind::OutputNotBrenn),
{
    directory::lookup_finds_what_is_there(entries, raw.outputs@[j].channel@);
}

/// Outputs take the ports interface and a publish list, and a publish list takes the ports
/// interface; each fault says what is missing.
pub proof fn each_publishing_fault_has_its_reason(raw: WasmConsumerConfigRaw)
    ensures
        wasm::ports_fault(raw) is None <==> {
            &&& raw.outputs@.len() > 0 ==> raw.grants@.contains(WasmGrant::Ports)
            &&& raw.outputs@.len() > 0 ==> raw.publish_acl@.len() > 0
            &&& raw.publish_acl@.len() > 0 ==> raw.grants@.contains(WasmGrant::Ports)
        },
        wasm::ports_fault(raw) == Some(WasmFaultKind::OutputsNotGranted) ==> raw.outputs@.len() > 0
            && !raw.grants@.contains(WasmGrant::Ports),
        wasm::ports_fault(raw) == Some(WasmFaultKind::OutputsWithoutAcl) ==> raw.outputs@.len() > 0
            && raw.publish_acl@.len() == 0,
        wasm::ports_fault(raw) == Some(WasmFaultKind::PublishAclNotGranted)
            ==> raw.publish_acl@.len() > 0 && !raw.grants@.contains(WasmGrant::Ports),
        wasm::ports_fault(raw) matches Some(kind) ==> kind == WasmFaultKind::OutputsNotGranted
            || kind == WasmFaultKind::OutputsWithoutAcl || kind
            == WasmFaultKind::PublishAclNotGranted,
{
}

/// A budget for an MQTT client is refused exactly where the publish list does not have the client
/// or an earlier budget is for the same one; each fault says which.
pub proof fn each_mqtt_budget_fault_has_its_reason(raw: WasmConsumerConfigRaw, j: int)
    requires
        0 <= j < raw.mqtt_outputs@.len(),
    ensures
        wasm::mqtt_output_fault(raw, j) == Some(WasmFaultKind::UncoveredMqttOutput) <==> forall|
            i: int,
        |
            0 <= i < raw.mqtt_publish_acl@.len() ==> (#[trigger] raw.mqtt_publish_acl@[i]).client@
                != raw.mqtt_outputs@[j].client@,
        wasm::mqtt_output_fault(raw, j) is None <==> (exists|i: int|
            0 <= i < raw.mqtt_publish_acl@.len() && (#[trigger] raw.mqtt_publish_acl@[i]).client@
                == raw.mqtt_outputs@[j].client@) && (forall|k: int|
            0 <= k < j ==> (#[trigger] raw.mqtt_outputs@[k]).client@ != raw.mqtt_outputs@[j].client@),
        wasm::mqtt_output_fault(raw, j) matches Some(kind) ==> kind
            == WasmFaultKind::UncoveredMqttOutput || kind == WasmFaultKind::DuplicateMqttOutput,
{
    let client = raw.mqtt_outputs@[j].client@;
    let clients = policy::publish_clients(raw.mqtt_publish_acl@);
    if clients.contains(client) {
        let i = choose|i: int| 0 <= i < clients.len() && clients[i] == client;
        assert(raw.mqtt_publish_acl@[i].client@ == client);
    }
    assert forall|i: int| 0 <= i < raw.mqtt_publish_acl@.len() && (
    #[trigger] raw.mqtt_publish_acl@[i]).client@ == client implies clients.contains(client) by {
        assert(clients[i] == client);
    }
}

/// A consumer is accepted exactly where its slug has no colon and no at sign, no interface is
/// granted twice, its header, every input, every output and what it publishes are in order, some
/// input has a queue where there are inputs, every client it names is declared, MQTT clients come
/// with the MQTT interface, and no output and no sink is dead.
pub proof fn a_consumer_is_accepted_where_every_check_passes(
    raw: WasmConsumerConfigRaw,
    entries: Seq<ChannelEntry>,
    declared: Map<Seq<char>, MqttClient>,
)
    ensures
        wasm::consumer_fault(raw, entries, declared) is None <==> {
            &&& !raw.slug@.contains(':') && !raw.slug@.contains('@')
            &&& forall|a: int, b: int|
                0 <= a < b < raw.grants@.len() ==> (#[trigger] raw.grants@[a]) != (
                #[trigger] raw.grants@[b])
            &&& wasm::base_fault(raw) is None
            &&& forall|j: int|
                0 <= j < raw.subscriptions@.len() ==> (#[trigger] wasm::input_fault(
                    raw,
                    entries,
                    j,
                )) is None
            &&& raw.subscriptions@.len() > 0 ==> exists|j: int|
                0 <= j < raw.subscriptions@.len() && (#[trigger] wasm::input_port(
                    raw,
                    entries,
                    j,
                )).sub.push_depth != Depth::Bounded(0)
            &&& forall|j: int|
                0 <= j < raw.outputs@.len() ==> (#[trigger] wasm::output_fault(raw, entries, j))
                    is None
            &&& wasm::ports_fault(raw) is None
            &&& forall|j: int|
                0 <= j < raw.mqtt_publish_acl@.len() ==> declared.contains_key(
                    (#[trigger] raw.mqtt_publish_acl@[j]).client@,
                )
            &&& forall|j: int|
                0 <= j < raw.mqtt_subscribe_acl@.len() ==> declared.contains_key(
                    (#[trigger] raw.mqtt_subscribe_acl@[j]).client@,
                )
            &&& raw.mqtt_publish_acl@.len() > 0 ==> raw.grants@.contains(WasmGrant::Mqtt)
            &&& forall|j: int|
                0 <= j < raw.outputs@.len() ==> (#[trigger] wasm::dead_output_faults(
                    raw,
                    entries,
                )(j)) is None
            &&& forall|j: int|
                0 <= j < raw.mqtt_outputs@.len() ==> (#[trigger] wasm::mqtt_output_fault(raw, j))
                    is None
            &&& forall|j: int|
                0 <= j < wasm::budgeted_sinks(raw, raw.mqtt_outputs@.len()).len() ==> (
                #[trigger] wasm::dead_mqtt_faults(raw, entries)(j)) is None
        },
{
    let sinks = wasm::budgeted_sinks(raw, raw.mqtt_outputs@.len()).len();
    let grants = wasm::grant_faults(raw);
    let inputs = wasm::input_faults(raw, entries);
    let outputs = wasm::output_faults(raw, entries);
    let publish = wasm::publish_client_faults(raw, declared);
    let subscribe = wasm::subscribe_client_faults(raw, declared);
    let mqtt = wasm::mqtt_output_faults(raw);
    model::first_fault_is_first(grants, raw.grants@.len());
    model::first_fault_is_first(inputs, raw.subscriptions@.len());
    model::first_fault_is_first(outputs, raw.outputs@.len());
    model::first_fault_is_first(wasm::dead_output_faults(raw, entries), raw.outputs@.len());
    model::first_fault_is_first(wasm::dead_mqtt_faults(raw, entries), sinks);
    model::first_fault_is_first(publish, raw.mqtt_publish_acl@.len());
    model::first_fault_is_first(subscribe, raw.mqtt_subscribe_acl@.len());
    model::first_fault_is_first(mqtt, raw.mqtt_outputs@.len());
    slugs_without_marks_fit(raw.slug@);
    distinct_grants_pass(raw);
    let ports = wasm::input_ports(raw, entries, raw.subscriptions@.len());
    assert forall|j: int| 0 <= j < raw.subscriptions@.len() implies ports[j] == (
    #[trigger] wasm::input_port(raw, entries, j)) by {}
    if wasm::all_unqueued(ports) {
        assert forall|j: int| 0 <= j < raw.subscriptions@.len() implies (#[trigger] wasm::input_port(
            raw,
            entries,
            j,
        )).sub.push_depth == Depth::Bounded(0) by {
            assert(ports[j].sub.push_depth == Depth::Bounded(0));
        }
    } else if raw.subscriptions@.len() > 0 {
        let j = choose|j: int|
            0 <= j < ports.len() && (#[trigger] ports[j]).sub.push_depth != Depth::Bounded(0);
        assert(wasm::input_port(raw, entries, j).sub.push_depth != Depth::Bounded(0));
    }
    assert forall|j: int| 0 <= j < raw.mqtt_publish_acl@.len() implies publish(j) is None
        == declared.contains_key((#[trigger] raw.mqtt_publish_acl@[j]).client@) by {}
    assert forall|j: int| 0 <= j < raw.mqtt_subscribe_acl@.len() implies subscribe(j) is None
        == declared.contains_key((#[trigger] raw.mqtt_subscribe_acl@[j]).client@) by {}
    assert forall|j: int| #[trigger] wasm::mqtt_output_fault(raw, j) == mqtt(j) by {}
    assert forall|j: int| #[trigger] wasm::input_fault(raw, entries, j) == inputs(j) by {}
    assert forall|j: int| #[trigger] wasm::output_fault(raw, entries, j) == outputs(j) by {}
}

proof fn slugs_without_marks_fit(slug: Seq<char>)
    ensures
        wasm::slug_fits(slug) <==> !slug.contains(':') && !slug.contains('@'),
{
    if wasm::slug_fits(slug) {
        if slug.contains(':') {
            let k = choose|k: int| 0 <= k < slug.len() && slug[k] == ':';
        }
        if slug.contains('@') {
            let k = choose|k: int| 0 <= k < slug.len() && slug[k] == '@';
        }
    } else {
        let k = choose|k: int|
            0 <= k < slug.len() && !(#[trigger] slug[k] != ':' && slug[k] != '@');
        assert(slug.contains(slug[k]));
    }
}

proof fn distinct_grants_pass(raw: WasmConsumerConfigRaw)
    ensures
        (forall|a: int, b: int|
            0 <= a < b < raw.grants@.len() ==> (#[trigger] raw.grants@[a]) != (
            #[trigger] raw.grants@[b])) == (forall|j: int|
            0 <= j < raw.grants@.len() ==> (#[trigger] wasm::grant_faults(raw)(j)) is None),
{
    let faults = wasm::grant_faults(raw);
    if forall|j: int| 0 <= j < raw.grants@.len() ==> (#[trigger] faults(j)) is None {
        assert forall|a: int, b: int| 0 <= a < b < raw.grants@.len() implies (
        #[trigger] raw.grants@[a]) != (#[trigger] raw.grants@[b]) by {
            assert(faults(b) is None);
        }
    }
}

/// Consumers are refused as duplicates exactly where two share a slug, and then the later one is
/// reported; else the first consumer that is refused is reported with its own fault, and where
/// none is, everyone is resolved.
pub proof fn the_first_refused_consumer_is_reported(
    raws: Seq<WasmConsumerConfigRaw>,
    entries: Seq<ChannelEntry>,
    limit: u64,
    declared: Map<Seq<char>, MqttClient>,
    resolved: Result<Vec<ResolvedWasmConsumer>, WasmFault>,
)
    requires
        wasm::consumers_outcome(raws, entries, limit, declared, resolved),
    ensures
        (exists|a: int, b: int|
            0 <= a < b < raws.len() && (#[trigger] raws[a]).slug@ == (#[trigger] raws[b]).slug@)
            <==> (resolved matches Err(e) && e.kind == WasmFaultKind::DuplicateSlug),
        resolved matches Err(e) ==> {
            &&& e.consumer < raws.len()
            &&& e.kind == WasmFaultKind::DuplicateSlug ==> exists|a: int|
                0 <= a < e.consumer && (#[trigger] raws[a]).slug@ == raws[e.consumer as int].slug@
            &&& e.kind != WasmFaultKind::DuplicateSlug ==> wasm::consumer_fault(
                raws[e.consumer as int],
                entries,
                declared,
            ) == Some((e.item as nat, e.kind)) && forall|i: int|
                0 <= i < e.consumer ==> wasm::consumer_fault(
                    #[trigger] raws[i],
                    entries,
                    declared,
                ) is None
        },
        resolved matches Ok(list) ==> list@.len() == raws.len() && forall|i: int|
            0 <= i < raws.len() ==> wasm::consumer_fault(#[trigger] raws[i], entries, declared)
                is None,
{
    let slugs = wasm::slug_faults(raws);
    let faults = wasm::consumer_faults(raws, entries, declared);
    model::first_fault_is_first(slugs, raws.len());
    model::first_fault_is_first(faults, raws.len());
    assert forall|i: int| 0 <= i < raws.len() implies faults(i) == wasm::consumer_fault(
        #[trigger] raws[i],
        entries,
        declared,
    ) by {}
    if model::first_fault(slugs, raws.len()) is None {
        assert forall|a: int, b: int| 0 <= a < b < raws.len() implies (#[trigger] raws[a]).slug@ != (
        #[trigger] raws[b]).slug@ by {
            assert(slugs(b) is None);
        }
        if let Some(fault) = model::first_fault(faults, raws.len()) {
            no_consumer_is_its_own_duplicate(raws[fault.0 as int], entries, declared);
        }
    } else {
        let fault = model::first_fault(slugs, raws.len())->0;
        let b = fault.0 as int;
        assert(slugs(b) is Some);
        let a = choose|a: int| 0 <= a < b && (#[trigger] raws[a]).slug@ == raws[b].slug@;
        assert(raws[a].slug@ == raws[b].slug@);
    }
}

proof fn no_consumer_is_its_own_duplicate(
    raw: WasmConsumerConfigRaw,
    entries: Seq<ChannelEntry>,
    declared: Map<Seq<char>, MqttClient>,
)
    ensures
        wasm::consumer_fault(raw, entries, declared) matches Some(fault) ==> fault.1
            != WasmFaultKind::DuplicateSlug,
{
    model::first_fault_is_first(wasm::grant_faults(raw), raw.grants@.len());
    model::first_fault_is_first(wasm::input_faults(raw, entries), raw.subscriptions@.len());
    model::first_fault_is_first(wasm::output_faults(raw, entries), raw.outputs@.len());
    model::first_fault_is_first(
        wasm::publish_client_faults(raw, declared),
        raw.mqtt_publish_acl@.len(),
    );
    model::first_fault_is_first(
        wasm::subscribe_client_faults(raw, declared),
        raw.mqtt_subscribe_acl@.len(),
    );
    model::first_fault_is_first(wasm::dead_output_faults(raw, entries), raw.outputs@.len());
    model::first_fault_is_first(wasm::mqtt_output_faults(raw), raw.mqtt_outputs@.len());
    model::first_fault_is_first(
        wasm::dead_mqtt_faults(raw, entries),
        wasm::budgeted_sinks(raw, raw.mqtt_outputs@.len()).len(),
    );
}

/// The sinks of a resolved consumer are one for each client of its publish list, each with the
/// budget that the operator states for the client, or else with one publish and room for one.
pub proof fn resolved_sinks_are_as_written(
    raw: WasmConsumerConfigRaw,
    entries: Seq<ChannelEntry>,
    limit: u64,
    resolved: ResolvedWasmConsumer,
    i: int,
)
    requires
        wasm::consumer_resolved(raw, entries, limit, resolved),
        0 <= i < resolved.mqtt_sinks@.len(),
    ensures
        exists|k: int|
            0 <= k < raw.mqtt_publish_acl@.len() && (#[trigger] raw.mqtt_publish_acl@[k]).client@
                == resolved.mqtt_sinks@[i].client@,
        (exists|j: int|
            0 <= j < raw.mqtt_outputs@.len() && {
                let out = #[trigger] raw.mqtt_outputs@[j];
                let budget = resolved.mqtt_sinks@[i].budget;
                &&& out.client@ == resolved.mqtt_sinks@[i].client@
                &&& out.publish_per_activation_mt matches Some(mt) ==> budget.fill_mt == mt
                &&& out.publish_per_activation_mt is None ==> budget.fill_mt == 1000
                &&& out.publish_capacity_mt matches Some(mt) ==> budget.capacity_mt == mt
                &&& out.publish_capacity_mt is None ==> budget.capacity_mt == 1000
            }) || {
            &&& forall|j: int|
                0 <= j < raw.mqtt_outputs@.len() ==> (#[trigger] raw.mqtt_outputs@[j]).client@
                    != resolved.mqtt_sinks@[i].client@
            &&& resolved.mqtt_sinks@[i].budget.fill_mt == 1000
            &&& resolved.mqtt_sinks@[i].budget.capacity_mt == 1000
        },
{
    let n = raw.mqtt_outputs@.len();
    let sinks = wasm::budgeted_sinks(raw, n);
    let client = resolved.mqtt_sinks@[i].client@;
    assert(wasm_model::sink_list(resolved.mqtt_sinks@)[i] == sinks[i]);
    wasm::sinks_have_their_stated_budgets(raw, n, i);
    wasm::one_sink_for_each_listed_client(raw, n, client);
    wasm_model::a_listed_client_has_a_place(sinks, i);
    let clients = policy::publish_clients(raw.mqtt_publish_acl@);
    let k = choose|k: int| 0 <= k < clients.len() && clients[k] == client;
    assert(raw.mqtt_publish_acl@[k].client@ == client);
    if exists|j: int| 0 <= j < n && wasm::budgeted_by(sinks[i], #[trigger] raw.mqtt_outputs@[j]) {
        let j = choose|j: int|
            0 <= j < n && wasm::budgeted_by(sinks[i], #[trigger] raw.mqtt_outputs@[j]);
        assert(raw.mqtt_outputs@[j].client@ == client);
    }
}

/// Where a consumer has several faults, the one of the earliest check is reported: the slug's,
/// then a repeated interface, then the header's, then the first input's, then that of a consumer
/// that cannot be activated, then the first output's, then what publishing lacks.
pub proof fn earlier_consumer_checks_speak_first(
    raw: WasmConsumerConfigRaw,
    entries: Seq<ChannelEntry>,
    declared: Map<Seq<char>, MqttClient>,
    j: int,
)
    ensures
        ({
            let reported = wasm::consumer_fault(raw, entries, declared);
            let fits = !raw.slug@.contains(':') && !raw.slug@.contains('@');
            let distinct = forall|a: int, b: int|
                0 <= a < b < raw.grants@.len() ==> (#[trigger] raw.grants@[a]) != (
                #[trigger] raw.grants@[b]);
            let reads = forall|k: int|
                0 <= k < raw.subscriptions@.len() ==> (#[trigger] wasm::input_fault(
                    raw,
                    entries,
                    k,
                )) is None;
            &&& !fits ==> reported == Some((0nat, WasmFaultKind::SlugCharset))
            &&& fits && !distinct ==> (reported matches Some(fault) && fault.1
                == WasmFaultKind::DuplicateGrant)
            &&& fits && distinct ==> (wasm::base_fault(raw) matches Some(kind) ==> reported == Some(
                (0nat, kind),
            ))
            &&& fits && distinct && wasm::base_fault(raw) is None && 0 <= j
                < raw.subscriptions@.len() && (forall|k: int|
                0 <= k < j ==> (#[trigger] wasm::input_fault(raw, entries, k)) is None) ==> (
            wasm::input_fault(raw, entries, j) matches Some(kind) ==> reported == Some(
                (j as nat, kind),
            ))
            &&& fits && distinct && wasm::base_fault(raw) is None && reads && wasm::all_unqueued(
                wasm::input_ports(raw, entries, raw.subscriptions@.len()),
            ) ==> reported == Some((0nat, WasmFaultKind::CannotActivate))
            &&& fits && distinct && wasm::base_fault(raw) is None && reads && !wasm::all_unqueued(
                wasm::input_ports(raw, entries, raw.subscriptions@.len()),
            ) && 0 <= j < raw.outputs@.len() && (forall|k: int|
                0 <= k < j ==> (#[trigger] wasm::output_fault(raw, entries, k)) is None) ==> (
            wasm::output_fault(raw, entries, j) matches Some(kind) ==> reported == Some(
                (j as nat, kind),
            ))
        }),
{
    let grants = wasm::grant_faults(raw);
    let inputs = wasm::input_faults(raw, entries);
    let outputs = wasm::output_faults(raw, entries);
    model::first_fault_is_first(grants, raw.grants@.len());
    model::first_fault_is_first(inputs, raw.subscriptions@.len());
    model::first_fault_is_first(outputs, raw.outputs@.len());
    slugs_without_marks_fit(raw.slug@);
    distinct_grants_pass(raw);
    assert forall|k: int| #[trigger] wasm::input_fault(raw, entries, k) == inputs(k) by {}
    assert forall|k: int| #[trigger] wasm::output_fault(raw, entries, k) == outputs(k) by {}
}

/// Where a header has several faults, the earliest is reported: the static map's grant, the store
/// path's, the store limit's, the missing path, the missing directory, the path that could not be
/// made absolute, the burst, the period, and last the missing inputs.
pub proof fn earlier_header_checks_speak_first(raw: WasmConsumerConfigRaw)
    ensures
        ({
            let stored = raw.grants@.contains(WasmGrant::Store);
            let mapped = raw.config is None || raw.grants@.contains(WasmGrant::Config);
            let path_granted = mapped && (raw.store_path is None || stored);
            let limit_granted = path_granted && (raw.store_page_limit is None || stored);
            let there = limit_granted && (!stored || raw.store_path is Some);
            &&& !mapped ==> wasm::base_fault(raw) == Some(WasmFaultKind::ConfigNotGranted)
            &&& mapped && !path_granted ==> wasm::base_fault(raw) == Some(
                WasmFaultKind::StorePathNotGranted,
            )
            &&& path_granted && !limit_granted ==> wasm::base_fault(raw) == Some(
                WasmFaultKind::StoreLimitNotGranted,
            )
            &&& limit_granted && !there ==> wasm::base_fault(raw) == Some(
                WasmFaultKind::StorePathMissing,
            )
            &&& there ==> (raw.store_path matches Some(store) ==> {
                &&& !store.parent_exists ==> wasm::base_fault(raw) == Some(
                    WasmFaultKind::StoreParentMissing,
                )
                &&& store.parent_exists && store.absolute is None ==> wasm::base_fault(raw) == Some(
                    WasmFaultKind::StorePathUnresolved,
                )
            })
        }),
{
}

} // verus!
