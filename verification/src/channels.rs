//! Whether messaging is on at all, and the channels that the transports bring with them.

use vstd::prelude::*;
use vstd::string::*;

use crate::address;
use crate::address::ChannelScheme;
use crate::directory::{ChannelEntry, ResolvedChannel};
use crate::mqtt::ResolvedMqttIngressChannel;
use crate::surface_model::{AutoWiring, MessagingGlobalConfig, SurfaceConfigRaw, SurfaceLimits};
use crate::wasm_model::WasmConsumerConfigRaw;

verus! {

/// A webhook endpoint and the channel it delivers on.
#[derive(Debug, PartialEq, Eq)]
pub struct WebhookEndpoint {
    pub slug: String,
    pub description: Option<String>,
    pub mount: String,
    pub channel_uuid: u128,
}

/// The declared consumers and surfaces, and what they are resolved with.
#[derive(Debug)]
pub struct ParticipantsConfig {
    pub wasm_consumers: Vec<WasmConsumerConfigRaw>,
    pub surfaces: Vec<SurfaceConfigRaw>,
    pub globals: MessagingGlobalConfig,
    pub auto_wiring: AutoWiring,
    pub surface_limits: SurfaceLimits,
    /// The size limit of a consumer's store where it states none, as a number of pages.
    pub store_page_limit: u64,
    /// The address of the channel on which surfaces report their errors.
    pub surface_error_channel: Option<String>,
    /// What the bare names of the surfaces' own channels begin with.
    pub description_prefix: String,
}

/// The messaging part of the configuration.
#[derive(Debug)]
pub struct MessagingConfig {
    /// The declared durable channels, each knob settled.
    pub channels: Vec<ChannelEntry>,
    /// The declared ephemeral channels, each knob settled.
    pub ephemeral_channels: Vec<ChannelEntry>,
    pub participants: ParticipantsConfig,
}

/// Whether anything in the configuration calls for messaging.
pub open spec fn is_configured(
    config: MessagingConfig,
    endpoints: Seq<WebhookEndpoint>,
    ingress: Seq<ResolvedMqttIngressChannel>,
) -> bool {
    ||| config.channels@.len() > 0
    ||| endpoints.len() > 0
    ||| ingress.len() > 0
    ||| config.participants.wasm_consumers@.len() > 0
    ||| config.participants.surfaces@.len() > 0
    ||| config.ephemeral_channels@.len() > 0
}

/// Whether anything in the configuration calls for messaging.
pub fn messaging_configured(
    config: &MessagingConfig,
    webhook_endpoints: &[WebhookEndpoint],
    mqtt_ingress_channels: &[ResolvedMqttIngressChannel],
) -> (configured: bool)
    ensures
        configured == is_configured(*config, webhook_endpoints@, mqtt_ingress_channels@),
{
    config.channels.len() > 0 || webhook_endpoints.len() > 0 || mqtt_ingress_channels.len() > 0
        || config.participants.wasm_consumers.len() > 0 || config.participants.surfaces.len() > 0
        || config.ephemeral_channels.len() > 0
}

/// The knobs of a channel that states none of its own.
pub open spec fn inherited_knobs(globals: MessagingGlobalConfig) -> ResolvedChannel {
    ResolvedChannel {
        push_depth: globals.default_push_depth,
        retain_depth: globals.default_retain_depth,
        standing_retain_depth: globals.default_standing_retain_depth,
        noise: globals.default_noise,
        sink: globals.default_sink,
        wake_min: globals.default_wake_min,
    }
}

fn inherit_knobs(globals: &MessagingGlobalConfig) -> (knobs: ResolvedChannel)
    ensures
        knobs == inherited_knobs(*globals),
{
    ResolvedChannel {
        push_depth: globals.default_push_depth,
        retain_depth: globals.default_retain_depth,
        standing_retain_depth: globals.default_standing_retain_depth,
        noise: globals.default_noise,
        sink: globals.default_sink,
        wake_min: globals.default_wake_min,
    }
}

/// Whether `entry` is the channel of a webhook endpoint.
pub open spec fn is_webhook_channel(
    entry: ChannelEntry,
    endpoint: WebhookEndpoint,
    globals: MessagingGlobalConfig,
) -> bool {
    &&& entry.uuid == endpoint.channel_uuid
    &&& entry.address@ == ChannelScheme::Webhook.prefix_text() + endpoint.slug@
    &&& entry.description == endpoint.description
    &&& entry.resolved_channel == inherited_knobs(globals)
    &&& entry.subscribers@.len() == 0
    &&& entry.transport_type == ChannelScheme::Webhook
    &&& entry.mount == Some(endpoint.mount)
}

/// Whether `entry` is the channel of an MQTT topic filter.
pub open spec fn is_mqtt_channel(
    entry: ChannelEntry,
    ingress: ResolvedMqttIngressChannel,
    globals: MessagingGlobalConfig,
) -> bool {
    &&& entry.uuid == ingress.channel_uuid
    &&& entry.address == ingress.channel_address
    &&& entry.description is None
    &&& entry.resolved_channel == inherited_knobs(globals)
    &&& entry.subscribers@.len() == 0
    &&& entry.transport_type == ChannelScheme::Mqtt
    &&& entry.mount is None
}

/// Whether `entries` are the channels the transports bring: one for each webhook endpoint, then
/// one for each ingress channel.
pub open spec fn are_transport_channels(
    entries: Seq<ChannelEntry>,
    endpoints: Seq<WebhookEndpoint>,
    ingress: Seq<ResolvedMqttIngressChannel>,
    globals: MessagingGlobalConfig,
) -> bool {
    &&& entries.len() == endpoints.len() + ingress.len()
    &&& forall|i: int|
        0 <= i < endpoints.len() ==> is_webhook_channel(
            #[trigger] entries[i],
            endpoints[i],
            globals,
        )
    &&& forall|i: int|
        endpoints.len() <= i < entries.len() ==> is_mqtt_channel(
            #[trigger] entries[i],
            ingress[i - endpoints.len()],
            globals,
        )
}

/// The channels the transports bring: one for each webhook endpoint, then one for each ingress
/// channel, all with the global knobs and without subscribers.
pub fn transport_channel_entries(
    webhook_endpoints: &[WebhookEndpoint],
    mqtt_ingress_channels: &[ResolvedMqttIngressChannel],
    globals: &MessagingGlobalConfig,
) -> (entries: Vec<ChannelEntry>)
    ensures
        are_transport_channels(
            entries@,
            webhook_endpoints@,
            mqtt_ingress_channels@,
            *globals,
        ),
{
    let mut entries: Vec<ChannelEntry> = Vec::new();
    let n: usize = webhook_endpoints.len();
    let mut i: usize = 0;
    while i < n
        invariant
            i <= n,
            n == webhook_endpoints@.len(),
            entries@.len() == i,
            forall|k: int|
                0 <= k < i ==> is_webhook_channel(
                    #[trigger] entries@[k],
                    webhook_endpoints@[k],
                    *globals,
                ),
        decreases n - i,
    {
        let endpoint: &WebhookEndpoint = &webhook_endpoints[i];
        let mut address: String = ChannelScheme::Webhook.prefix().to_owned();
        address.append(endpoint.slug.as_str());
        entries.push(
            ChannelEntry {
                uuid: endpoint.channel_uuid,
                address,
                description: match &endpoint.description {
                    Some(text) => Some(text.clone()),
                    None => None,
                },
                resolved_channel: inherit_knobs(globals),
                subscribers: Vec::new(),
                transport_type: ChannelScheme::Webhook,
                mount: Some(endpoint.mount.clone()),
            },
        );
        i = i + 1;
    }
    let m: usize = mqtt_ingress_channels.len();
    let mut j: usize = 0;
    while j < m
        invariant
            j <= m,
            n == webhook_endpoints@.len(),
            m == mqtt_ingress_channels@.len(),
            entries@.len() == n + j,
            forall|k: int|
                0 <= k < n ==> is_webhook_channel(
                    #[trigger] entries@[k],
                    webhook_endpoints@[k],
                    *globals,
                ),
            forall|k: int|
                n <= k < entries@.len() ==> is_mqtt_channel(
                    #[trigger] entries@[k],
                    mqtt_ingress_channels@[k - n],
                    *globals,
                ),
        decreases m - j,
    {
        let channel: &ResolvedMqttIngressChannel = &mqtt_ingress_channels[j];
        entries.push(
            ChannelEntry {
                uuid: channel.channel_uuid,
                address: channel.channel_address.clone(),
                description: None,
                resolved_channel: inherit_knobs(globals),
                subscribers: Vec::new(),
                transport_type: ChannelScheme::Mqtt,
                mount: None,
            },
        );
        j = j + 1;
    }
    entries
}

/// The bare name of a durable channel's address, where it is one and has a name.
pub open spec fn bare_name(address: Seq<char>) -> Option<Seq<char>> {
    let name = ChannelScheme::Brenn.name_in(address);
    if address::scheme_of(address) == Some(ChannelScheme::Brenn) && name.len() > 0 {
        Some(name)
    } else {
        None
    }
}

/// The bare name of the durable channel that the operator configured for the server's own use.
pub fn system_publisher_bare_channel(channel_address: &str) -> (name: Option<String>)
    ensures
        bare_name(channel_address@) == (match name {
            Some(n) => Some(n@),
            None => None,
        }),
{
    match ChannelScheme::split(channel_address) {
        Some((ChannelScheme::Brenn, name)) => if name.as_str().unicode_len() > 0 {
            Some(name)
        } else {
            None
        },
        _ => None,
    }
}

/// Messaging is off exactly where nothing is declared that uses it: no channel, no webhook
/// endpoint, no ingress channel, no consumer, no surface and no ephemeral channel.
pub proof fn messaging_is_off_where_nothing_uses_it(
    config: MessagingConfig,
    endpoints: Seq<WebhookEndpoint>,
    ingress: Seq<ResolvedMqttIngressChannel>,
)
    ensures
        !is_configured(config, endpoints, ingress) <==> {
            &&& config.channels@.len() == 0
            &&& endpoints.len() == 0
            &&& ingress.len() == 0
            &&& config.participants.wasm_consumers@.len() == 0
            &&& config.participants.surfaces@.len() == 0
            &&& config.ephemeral_channels@.len() == 0
        },
{
}

/// Every webhook endpoint brings one channel, at its webhook address and with its uuid,
/// description and mount, with the global knobs and nobody subscribed.
pub proof fn every_endpoint_brings_its_channel(
    entries: Seq<ChannelEntry>,
    endpoints: Seq<WebhookEndpoint>,
    ingress: Seq<ResolvedMqttIngressChannel>,
    globals: MessagingGlobalConfig,
    i: int,
)
    requires
        are_transport_channels(entries, endpoints, ingress, globals),
        0 <= i < endpoints.len(),
    ensures
        entries.len() == endpoints.len() + ingress.len(),
        entries[i].address@ == "webhook:"@ + endpoints[i].slug@,
        entries[i].uuid == endpoints[i].channel_uuid,
        entries[i].description == endpoints[i].description,
        entries[i].mount == Some(endpoints[i].mount),
        entries[i].transport_type == ChannelScheme::Webhook,
        entries[i].subscribers@.len() == 0,
        entries[i].resolved_channel.push_depth == globals.default_push_depth,
        entries[i].resolved_channel.retain_depth == globals.default_retain_depth,
        entries[i].resolved_channel.standing_retain_depth == globals.default_standing_retain_depth,
        entries[i].resolved_channel.noise == globals.default_noise,
        entries[i].resolved_channel.sink == globals.default_sink,
        entries[i].resolved_channel.wake_min == globals.default_wake_min,
{
    let entry = entries[i];
}

/// Every ingress channel brings one channel behind those of the endpoints, at its own address and
/// with its uuid, without description or mount, with the global knobs and nobody subscribed.
pub proof fn every_ingress_brings_its_channel(
    entries: Seq<ChannelEntry>,
    endpoints: Seq<WebhookEndpoint>,
    ingress: Seq<ResolvedMqttIngressChannel>,
    globals: MessagingGlobalConfig,
    k: int,
)
    requires
        are_transport_channels(entries, endpoints, ingress, globals),
        0 <= k < ingress.len(),
    ensures
        ({
            let entry = entries[endpoints.len() + k];
            &&& entry.address@ == ingress[k].channel_address@
            &&& entry.uuid == ingress[k].channel_uuid
            &&& entry.description is None
            &&& entry.mount is None
            &&& entry.transport_type == ChannelScheme::Mqtt
            &&& entry.subscribers@.len() == 0
            &&& entry.resolved_channel.push_depth == globals.default_push_depth
            &&& entry.resolved_channel.retain_depth == globals.default_retain_depth
            &&& entry.resolved_channel.standing_retain_depth
                == globals.default_standing_retain_depth
            &&& entry.resolved_channel.noise == globals.default_noise
            &&& entry.resolved_channel.sink == globals.default_sink
            &&& entry.resolved_channel.wake_min == globals.default_wake_min
        }),
{
    let entry = entries[endpoints.len() + k];
    assert(is_mqtt_channel(entry, ingress[k], globals));
}

/// The bare name of a durable channel's address is what follows the prefix; an address without a
/// name, or of another transport, has none.
pub proof fn only_durable_addresses_have_a_bare_name(name: Seq<char>)
    ensures
        name.len() > 0 ==> bare_name("brenn:"@ + name) == Some(name),
        bare_name("brenn:"@) is None,
        bare_name("ephemeral:"@ + name) is None,
        bare_name("local:"@ + name) is None,
        bare_name("mqtt:"@ + name) is None,
        bare_name("webhook:"@ + name) is None,
        address::scheme_of(name) is None ==> bare_name(name) is None,
{
    address::an_address_is_its_prefix_and_its_name(name);
    address::an_address_is_its_prefix_and_its_name(Seq::empty());
    assert("brenn:"@ + Seq::<char>::empty() =~= "brenn:"@);
}

} // verus!
