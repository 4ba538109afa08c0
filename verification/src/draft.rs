//! Resolving everyone who takes part in messaging, with the rights they hold by being there.

use indexmap::IndexMap;
use vstd::prelude::*;
use vstd::string::*;

use crate::address;
use crate::address::ChannelScheme;
use crate::channels;
use crate::channels::{
    messaging_configured, system_publisher_bare_channel, transport_channel_entries,
    MessagingConfig, ParticipantsConfig, WebhookEndpoint,
};
use crate::clients;
use crate::clients::MqttClient;
use crate::directory::{ChannelEntry, MessagingDirectory};
use crate::model;
use crate::mqtt::ResolvedMqttIngressChannel;
use crate::policy;
use crate::policy::{AppCapability, PolicyView};
use crate::surface_grants;
use crate::surface_grants::{
    assert_output_bindings_covered, inject_surface_config_subscribe_grants,
    inject_surface_error_grant, inject_surface_geometry_status_grants, UncoveredOutput,
};
use crate::surface_laws;
use crate::surface_model::{
    ResolvedSubscription, ResolvedSurface, ResolvedSurfaceSubscription, SurfaceFault,
};
use crate::surface_outcomes;
use crate::surface_scene;
use crate::surface_scene::Scene;
use crate::surfaces;
use crate::surfaces::resolve_surfaces;
use crate::text::{has_prefix, join};
use crate::wasm;
use crate::wasm::resolve_wasm_consumers;
use crate::wasm_model::{ResolvedWasmConsumer, WasmFault, WasmInputPort};

verus! {

/// A surface's policy with the rights every surface has: to report errors where a channel for
/// that is configured, to publish its own geometry and status, and to read its own bindings.
pub open spec fn substrate_policy(
    policy: PolicyView,
    slug: Seq<char>,
    error_channel: Option<Seq<char>>,
    prefix: Seq<char>,
) -> PolicyView {
    let reporting = match error_channel {
        Some(bare) => policy.granted(AppCapability::MessagingPublish, bare),
        None => policy,
    };
    reporting.granted(
        AppCapability::MessagingPublish,
        surface_grants::geometry_name(prefix, slug),
    ).granted(AppCapability::MessagingPublish, surface_grants::status_name(prefix, slug)).granted(
        AppCapability::EphemeralSubscribe,
        surface_grants::config_name(prefix, slug),
    )
}

/// The bare name of the configured error channel.
pub open spec fn error_channel(config: ParticipantsConfig) -> Option<Seq<char>> {
    match config.surface_error_channel {
        Some(address) => channels::bare_name(address@),
        None => None,
    }
}

/// The policy surface `i` ends up with.
pub open spec fn planned_policy(config: ParticipantsConfig, i: int) -> PolicyView {
    substrate_policy(
        surfaces::surface_policy(config.surfaces@[i], config.auto_wiring),
        config.surfaces@[i].slug@,
        error_channel(config),
        config.description_prefix@,
    )
}

/// What the bindings of surface `i` are resolved against.
pub open spec fn planned_scene(
    config: ParticipantsConfig,
    entries: Seq<ChannelEntry>,
    i: int,
) -> Scene {
    surfaces::scene_of(config.surfaces@[i], entries, config.globals, config.auto_wiring)
}

/// The check of one output of surface `i`: the policy the surface ends up with covers it.
pub open spec fn planned_covers(
    config: ParticipantsConfig,
    entries: Seq<ChannelEntry>,
    i: int,
) -> spec_fn(int) -> Option<()> {
    |j: int|
        model::unless(
            surface_grants::publish_covered(
                planned_policy(config, i),
                planned_scene(config, entries, i).output(j).channel_address@,
            ),
            (),
        )
}

/// The check of one surface's outputs.
pub open spec fn planned_surface_covers(
    config: ParticipantsConfig,
    entries: Seq<ChannelEntry>,
) -> spec_fn(int) -> Option<(nat, ())> {
    |i: int|
        model::first_fault(
            planned_covers(config, entries, i),
            planned_scene(config, entries, i).outs().len(),
        )
}

/// The subscriptions among a surface's that are on durable channels.
pub open spec fn durable_wires(wires: Seq<ResolvedSurfaceSubscription>) -> Seq<
    ResolvedSurfaceSubscription,
>
    decreases wires.len(),
{
    if wires.len() == 0 {
        Seq::empty()
    } else {
        let before = durable_wires(wires.drop_last());
        if ChannelScheme::Brenn.names(wires.last().subscription.channel_address@) {
            before.push(wires.last())
        } else {
            before
        }
    }
}

impl ResolvedSurface {
    /// The surface's subscriptions on durable channels; those on ephemeral ones are not kept.
    pub fn durable_subscriptions(&self) -> (durable: Vec<ResolvedSurfaceSubscription>)
        ensures
            durable@ == durable_wires(self.wire_subscriptions@),
    {
        let mut durable: Vec<ResolvedSurfaceSubscription> = Vec::new();
        let n: usize = self.wire_subscriptions.len();
        let ghost wires = self.wire_subscriptions@;
        let mut i: usize = 0;
        while i < n
            invariant
                i <= n,
                n == wires.len(),
                wires == self.wire_subscriptions@,
                durable@ == durable_wires(wires.take(i as int)),
            decreases n - i,
        {
            let wire: &ResolvedSurfaceSubscription = &self.wire_subscriptions[i];
            assert(wires.take(i + 1).drop_last() =~= wires.take(i as int));
            if has_prefix(
                wire.subscription.channel_address.as_str(),
                ChannelScheme::Brenn.prefix(),
            ) {
                durable.push(
                    ResolvedSurfaceSubscription {
                        instance: wire.instance.clone(),
                        subscription: wire.subscription.clone(),
                    },
                );
            }
            i = i + 1;
        }
        assert(wires.take(n as int) =~= wires);
        durable
    }
}

/// The subscriptions of a consumer's input ports.
pub open spec fn input_subscriptions(consumer: ResolvedWasmConsumer) -> Seq<ResolvedSubscription> {
    Seq::new(consumer.inputs@.len(), |k: int| consumer.inputs@[k].sub)
}

/// Everyone who takes part in messaging, resolved, with the channels they are resolved against.
#[derive(Debug)]
pub struct MessagingDraft {
    /// The durable channels.
    pub entries: Vec<ChannelEntry>,
    pub ephemeral_channels: Vec<ChannelEntry>,
    pub wasm_consumers: Vec<ResolvedWasmConsumer>,
    pub surfaces: Vec<ResolvedSurface>,
    /// The subscriptions of each consumer, by slug.
    pub wasm_subscriptions: Vec<(String, Vec<ResolvedSubscription>)>,
    /// The durable subscriptions of each surface, by slug.
    pub surface_subscriptions: Vec<(String, Vec<ResolvedSurfaceSubscription>)>,
}

/// Whether the list has the subscriptions of each consumer under its slug.
pub open spec fn lists_inputs(
    list: Seq<(String, Vec<ResolvedSubscription>)>,
    consumers: Seq<ResolvedWasmConsumer>,
) -> bool {
    &&& list.len() == consumers.len()
    &&& forall|i: int|
        0 <= i < list.len() ==> (#[trigger] list[i]).0 == consumers[i].slug && list[i].1@
            == input_subscriptions(consumers[i])
}

/// Whether the list has the durable subscriptions of each surface under its slug.
pub open spec fn lists_durables(
    list: Seq<(String, Vec<ResolvedSurfaceSubscription>)>,
    surfaces: Seq<ResolvedSurface>,
) -> bool {
    &&& list.len() == surfaces.len()
    &&& forall|i: int|
        0 <= i < list.len() ==> (#[trigger] list[i]).0 == surfaces[i].slug && list[i].1@
            == durable_wires(surfaces[i].wire_subscriptions@)
}

/// Why messaging is refused.
#[derive(Clone, Copy, Debug, PartialEq, Eq, Structural)]
pub enum MessagingFault {
    Consumer(WasmFault),
    Surface(SurfaceFault),
    /// The error channel is not a durable channel with a name.
    ErrorChannel,
    Output(UncoveredOutput),
}

/// Whether every consumer and every surface resolves. A consumer sees the durable channels only,
/// a surface the ephemeral ones behind them.
pub open spec fn everyone_resolves(
    config: ParticipantsConfig,
    durable: Seq<ChannelEntry>,
    ephemeral: Seq<ChannelEntry>,
    declared: Map<Seq<char>, MqttClient>,
) -> bool {
    &&& wasm::all_consumers_resolve(config.wasm_consumers@, durable, declared)
    &&& surfaces::all_surfaces_resolve(
        config.surfaces@,
        durable + ephemeral,
        config.globals,
        config.auto_wiring,
        config.surface_limits,
    )
}

/// Whether `draft` has everyone of `config` as they resolve, with the policies they end up with.
pub open spec fn draft_of(
    config: ParticipantsConfig,
    durable: Seq<ChannelEntry>,
    ephemeral: Seq<ChannelEntry>,
    draft: MessagingDraft,
) -> bool {
    &&& draft.entries@ == durable
    &&& draft.ephemeral_channels@ == ephemeral
    &&& draft.wasm_consumers@.len() == config.wasm_consumers@.len()
    &&& forall|i: int|
        0 <= i < draft.wasm_consumers@.len() ==> wasm::consumer_resolved(
            config.wasm_consumers@[i],
            durable,
            config.store_page_limit,
            #[trigger] draft.wasm_consumers@[i],
        )
    &&& draft.surfaces@.len() == config.surfaces@.len()
    &&& forall|i: int|
        0 <= i < draft.surfaces@.len() ==> surfaces::surface_shaped(
            config.surfaces@[i],
            durable + ephemeral,
            config.globals,
            config.auto_wiring,
            config.surface_limits,
            #[trigger] draft.surfaces@[i],
        ) && draft.surfaces@[i].policy@ == planned_policy(config, i)
    &&& lists_inputs(draft.wasm_subscriptions@, draft.wasm_consumers@)
    &&& lists_durables(draft.surface_subscriptions@, draft.surfaces@)
}

/// What resolving everyone comes to. The consumers are checked first, then the surfaces, then the
/// error channel, then the outputs of the surfaces against the policies they end up with.
pub open spec fn drafting_outcome(
    config: ParticipantsConfig,
    durable: Seq<ChannelEntry>,
    ephemeral: Seq<ChannelEntry>,
    declared: Map<Seq<char>, MqttClient>,
    draft: Result<MessagingDraft, MessagingFault>,
) -> bool {
    match draft {
        Err(MessagingFault::Consumer(fault)) => wasm::consumers_outcome(
            config.wasm_consumers@,
            durable,
            config.store_page_limit,
            declared,
            Err(fault),
        ),
        Err(MessagingFault::Surface(fault)) => {
            &&& wasm::all_consumers_resolve(config.wasm_consumers@, durable, declared)
            &&& surfaces::surfaces_outcome(
                config.surfaces@,
                durable + ephemeral,
                config.globals,
                config.auto_wiring,
                config.surface_limits,
                Err(fault),
            )
        },
        Err(MessagingFault::ErrorChannel) => {
            &&& everyone_resolves(config, durable, ephemeral, declared)
            &&& config.surface_error_channel is Some
            &&& error_channel(config) is None
        },
        Err(MessagingFault::Output(output)) => {
            &&& everyone_resolves(config, durable, ephemeral, declared)
            &&& config.surface_error_channel is Some ==> error_channel(config) is Some
            &&& model::first_fault(
                planned_surface_covers(config, durable + ephemeral),
                config.surfaces@.len(),
            ) matches Some(fault)
            &&& fault.0 == output.surface
            &&& fault.1.0 == output.output
        },
        Ok(draft) => {
            &&& everyone_resolves(config, durable, ephemeral, declared)
            &&& config.surface_error_channel is Some ==> error_channel(config) is Some
            &&& model::first_fault(
                planned_surface_covers(config, durable + ephemeral),
                config.surfaces@.len(),
            ) is None
            &&& draft_of(config, durable, ephemeral, draft)
        },
    }
}

fn list_inputs(consumers: &Vec<ResolvedWasmConsumer>) -> (list: Vec<
    (String, Vec<ResolvedSubscription>),
>)
    ensures
        lists_inputs(list@, consumers@),
{
    let mut list: Vec<(String, Vec<ResolvedSubscription>)> = Vec::new();
    let n: usize = consumers.len();
    let mut i: usize = 0;
    while i < n
        invariant
            i <= n,
            n == consumers@.len(),
            list@.len() == i,
            forall|k: int|
                0 <= k < i ==> (#[trigger] list@[k]).0 == consumers@[k].slug && list@[k].1@
                    == input_subscriptions(consumers@[k]),
        decreases n - i,
    {
        let consumer: &ResolvedWasmConsumer = &consumers[i];
        let mut subs: Vec<ResolvedSubscription> = Vec::new();
        let m: usize = consumer.inputs.len();
        let mut j: usize = 0;
        while j < m
            invariant
                j <= m,
                m == consumer.inputs@.len(),
                subs@ =~= input_subscriptions(*consumer).take(j as int),
            decreases m - j,
        {
            subs.push(consumer.inputs[j].sub.clone());
            j = j + 1;
        }
        assert(subs@ =~= input_subscriptions(*consumer));
        list.push((consumer.slug.clone(), subs));
        i = i + 1;
    }
    list
}

fn list_durables(surfaces: &Vec<ResolvedSurface>) -> (list: Vec<
    (String, Vec<ResolvedSurfaceSubscription>),
>)
    ensures
        lists_durables(list@, surfaces@),
{
    let mut list: Vec<(String, Vec<ResolvedSurfaceSubscription>)> = Vec::new();
    let n: usize = surfaces.len();
    let mut i: usize = 0;
    while i < n
        invariant
            i <= n,
            n == surfaces@.len(),
            list@.len() == i,
            forall|k: int|
                0 <= k < i ==> (#[trigger] list@[k]).0 == surfaces@[k].slug && list@[k].1@
                    == durable_wires(surfaces@[k].wire_subscriptions@),
        decreases n - i,
    {
        list.push((surfaces[i].slug.clone(), surfaces[i].durable_subscriptions()));
        i = i + 1;
    }
    list
}

/// Give every surface the rights it has by being one.
fn inject_substrate_grants(
    surfaces: &mut Vec<ResolvedSurface>,
    error_channel: &Option<String>,
    prefix: &str,
)
    ensures
        final(surfaces)@.len() == old(surfaces)@.len(),
        forall|i: int|
            #![trigger final(surfaces)@[i]]
            0 <= i < old(surfaces)@.len() ==> surface_grants::only_policy_changed(
                old(surfaces)@[i],
                final(surfaces)@[i],
            ) && final(surfaces)@[i].policy@ == substrate_policy(
                old(surfaces)@[i].policy@,
                old(surfaces)@[i].slug@,
                match *error_channel {
                    Some(bare) => Some(bare@),
                    None => None,
                },
                prefix@,
            ),
{
    let ghost first = surfaces@;
    if let Some(bare) = error_channel {
        inject_surface_error_grant(surfaces, bare.as_str());
    }
    let ghost second = surfaces@;
    assert forall|i: int| #![trigger second[i]] 0 <= i < first.len() implies
        surface_grants::only_policy_changed(first[i], second[i]) by {}
    inject_surface_geometry_status_grants(surfaces, prefix);
    let ghost third = surfaces@;
    assert forall|i: int| #![trigger third[i]] 0 <= i < first.len() implies
        surface_grants::only_policy_changed(first[i], third[i]) && third[i].slug == first[i].slug by {
        assert(surface_grants::only_policy_changed(first[i], second[i]));
    }
    inject_surface_config_subscribe_grants(surfaces, prefix);
    assert forall|i: int| #![trigger surfaces@[i]] 0 <= i < first.len() implies
        surface_grants::only_policy_changed(first[i], surfaces@[i]) && surfaces@[i].policy@
        == substrate_policy(
        first[i].policy@,
        first[i].slug@,
        match *error_channel {
            Some(bare) => Some(bare@),
            None => None,
        },
        prefix@,
    ) by {
        assert(surface_grants::only_policy_changed(first[i], second[i]));
        assert(surface_grants::only_policy_changed(first[i], third[i]));
    }
}

proof fn planned_covers_are_the_surfaces_own(
    config: ParticipantsConfig,
    durable: Seq<ChannelEntry>,
    ephemeral: Seq<ChannelEntry>,
    list: Seq<ResolvedSurface>,
)
    requires
        list.len() == config.surfaces@.len(),
        forall|i: int|
            0 <= i < list.len() ==> surfaces::surface_shaped(
                config.surfaces@[i],
                durable + ephemeral,
                config.globals,
                config.auto_wiring,
                config.surface_limits,
                #[trigger] list[i],
            ) && list[i].policy@ == planned_policy(config, i),
    ensures
        model::first_fault(surface_grants::surface_cover_faults(list), list.len())
            == model::first_fault(
            planned_surface_covers(config, durable + ephemeral),
            config.surfaces@.len(),
        ),
{
    let entries = durable + ephemeral;
    let own = surface_grants::surface_cover_faults(list);
    let planned = planned_surface_covers(config, entries);
    assert forall|i: int| 0 <= i < list.len() implies #[trigger] own(i) == planned(i) by {
        let scene = planned_scene(config, entries, i);
        let n = scene.outs().len();
        assert(surfaces::surface_shaped(
            config.surfaces@[i],
            entries,
            config.globals,
            config.auto_wiring,
            config.surface_limits,
            list[i],
        ));
        let a = surface_grants::cover_faults(list[i]);
        let b = planned_covers(config, entries, i);
        assert forall|j: int| 0 <= j < n implies #[trigger] a(j) == b(j) by {
            assert(list[i].outputs@[j] == scene.output(j));
        }
        model::equal_checks_agree(a, b, n);
    }
    model::equal_checks_agree(own, planned, list.len());
}

/// Resolve everyone who takes part in messaging against the channels there are.
pub fn resolve_participants(
    config: &ParticipantsConfig,
    entries: Vec<ChannelEntry>,
    ephemeral_channels: Vec<ChannelEntry>,
    resolved_clients: &IndexMap<String, MqttClient>,
) -> (draft: Result<MessagingDraft, MessagingFault>)
    ensures
        drafting_outcome(
            *config,
            entries@,
            ephemeral_channels@,
            clients::client_map(*resolved_clients),
            draft,
        ),
{
    let ghost durable = entries@;
    let ghost ephemeral = ephemeral_channels@;
    let mut directory: MessagingDirectory = MessagingDirectory::with_entries(entries);
    let wasm_consumers: Vec<ResolvedWasmConsumer> = match resolve_wasm_consumers(
        config.wasm_consumers.as_slice(),
        &directory,
        config.store_page_limit,
        resolved_clients,
    ) {
        Ok(consumers) => consumers,
        Err(fault) => {
            return Err(MessagingFault::Consumer(fault));
        },
    };
    let n: usize = directory.entries.len();
    let mut more: Vec<ChannelEntry> = ephemeral_channels;
    directory.entries.append(&mut more);
    let mut surfaces: Vec<ResolvedSurface> = match resolve_surfaces(
        config.surfaces.as_slice(),
        &directory,
        &config.globals,
        &config.auto_wiring,
        &config.surface_limits,
    ) {
        Ok(surfaces) => surfaces,
        Err(fault) => {
            return Err(MessagingFault::Surface(fault));
        },
    };
    let ghost resolved = surfaces@;
    let error_channel: Option<String> = match &config.surface_error_channel {
        Some(address) => match system_publisher_bare_channel(address.as_str()) {
            Some(bare) => Some(bare),
            None => {
                return Err(MessagingFault::ErrorChannel);
            },
        },
        None => None,
    };
    inject_substrate_grants(&mut surfaces, &error_channel, config.description_prefix.as_str());
    proof {
        assert forall|i: int| 0 <= i < surfaces@.len() implies surfaces::surface_shaped(
            config.surfaces@[i],
            durable + ephemeral,
            config.globals,
            config.auto_wiring,
            config.surface_limits,
            #[trigger] surfaces@[i],
        ) && surfaces@[i].policy@ == planned_policy(*config, i) by {
            assert(surfaces::surface_resolved(
                config.surfaces@[i],
                durable + ephemeral,
                config.globals,
                config.auto_wiring,
                config.surface_limits,
                resolved[i],
            ));
            assert(surface_grants::only_policy_changed(resolved[i], surfaces@[i]));
        }
        planned_covers_are_the_surfaces_own(*config, durable, ephemeral, surfaces@);
    }
    if let Err(output) = assert_output_bindings_covered(surfaces.as_slice()) {
        return Err(MessagingFault::Output(output));
    }
    let wasm_subscriptions: Vec<(String, Vec<ResolvedSubscription>)> = list_inputs(&wasm_consumers);
    let surface_subscriptions: Vec<(String, Vec<ResolvedSurfaceSubscription>)> = list_durables(
        &surfaces,
    );
    let ephemeral_channels: Vec<ChannelEntry> = directory.entries.split_off(n);
    assert(directory.entries@ =~= durable);
    assert(ephemeral_channels@ =~= ephemeral);
    Ok(
        MessagingDraft {
            entries: directory.entries,
            ephemeral_channels,
            wasm_consumers,
            surfaces,
            wasm_subscriptions,
            surface_subscriptions,
        },
    )
}

proof fn substrate_rights_only_add(
    policy: PolicyView,
    slug: Seq<char>,
    error_channel: Option<Seq<char>>,
    prefix: Seq<char>,
)
    ensures
        policy.within(substrate_policy(policy, slug, error_channel, prefix)),
{
    let reporting = match error_channel {
        Some(bare) => policy.granted(AppCapability::MessagingPublish, bare),
        None => policy,
    };
    let shaped = reporting.granted(
        AppCapability::MessagingPublish,
        surface_grants::geometry_name(prefix, slug),
    );
    let stated = shaped.granted(
        AppCapability::MessagingPublish,
        surface_grants::status_name(prefix, slug),
    );
    assert(policy.within(reporting));
    assert(policy.within(shaped));
    assert(policy.within(stated));
}

/// Whoever is drafted can do what they are wired for: with the policy it ends up with, a surface
/// may publish on every channel it has an output on and receive on every bus channel it reads.
pub proof fn drafted_surfaces_can_use_their_bindings(
    config: ParticipantsConfig,
    durable: Seq<ChannelEntry>,
    ephemeral: Seq<ChannelEntry>,
    declared: Map<Seq<char>, MqttClient>,
    draft: MessagingDraft,
    i: int,
)
    requires
        drafting_outcome(config, durable, ephemeral, declared, Ok(draft)),
        0 <= i < draft.surfaces@.len(),
    ensures
        forall|j: int|
            0 <= j < draft.surfaces@[i].outputs@.len() ==> surface_grants::publish_covered(
                draft.surfaces@[i].policy@,
                (#[trigger] draft.surfaces@[i].outputs@[j]).channel_address@,
            ),
        forall|j: int|
            0 <= j < draft.surfaces@[i].subscriptions@.len() ==> ChannelScheme::Local.names(
                (#[trigger] draft.surfaces@[i].subscriptions@[j]).channel_address@,
            ) || draft.surfaces@[i].policy@.delivers_on(
                draft.surfaces@[i].subscriptions@[j].channel_address@,
            ),
{
    let entries = durable + ephemeral;
    let scene = planned_scene(config, entries, i);
    let surface = draft.surfaces@[i];
    let n = config.surfaces@.len();
    let checks = planned_surface_covers(config, entries);
    let faults = surfaces::surface_faults(
        config.surfaces@,
        entries,
        config.globals,
        config.auto_wiring,
        config.surface_limits,
    );
    model::first_fault_is_first(checks, n);
    model::first_fault_is_first(faults, n);
    assert(checks(i) is None);
    assert(faults(i) is None);
    let covers = planned_covers(config, entries, i);
    model::first_fault_is_first(covers, scene.outs().len());
    assert forall|j: int| 0 <= j < surface.outputs@.len() implies surface_grants::publish_covered(
        surface.policy@,
        (#[trigger] surface.outputs@[j]).channel_address@,
    ) by {
        assert(covers(j) is None);
        assert(surface.outputs@[j] == scene.output(j));
    }
    assert forall|j: int| 0 <= j < surface.subscriptions@.len() implies ChannelScheme::Local.names(
        (#[trigger] surface.subscriptions@[j]).channel_address@,
    ) || surface.policy@.delivers_on(surface.subscriptions@[j].channel_address@) by {
        assert(surface.subscriptions@[j] == scene.binding(j));
        surface_laws::accepted_inputs_can_deliver(scene, j);
        substrate_rights_only_add(
            scene.policy,
            config.surfaces@[i].slug@,
            error_channel(config),
            config.description_prefix@,
        );
        policy::wider_policies_allow_more(
            scene.policy,
            surface.policy@,
            surface.subscriptions@[j].channel_address@,
        );
    }
}

/// Resolve the messaging part of the configuration: nothing where nothing calls for messaging,
/// else everyone against the declared channels and, behind them, those the transports bring.
pub fn draft_messaging(
    config: MessagingConfig,
    webhook_endpoints: &[WebhookEndpoint],
    mqtt_ingress_channels: &[ResolvedMqttIngressChannel],
    resolved_clients: &IndexMap<String, MqttClient>,
) -> (draft: Result<Option<MessagingDraft>, MessagingFault>)
    ensures
        !channels::is_configured(config, webhook_endpoints@, mqtt_ingress_channels@)
            ==> draft == Ok::<Option<MessagingDraft>, MessagingFault>(None),
        channels::is_configured(config, webhook_endpoints@, mqtt_ingress_channels@) ==> exists|
            transport: Seq<ChannelEntry>,
        | #[trigger]
            channels::are_transport_channels(
                transport,
                webhook_endpoints@,
                mqtt_ingress_channels@,
                config.participants.globals,
            ) && match draft {
                Err(fault) => drafting_outcome(
                    config.participants,
                    config.channels@ + transport,
                    config.ephemeral_channels@,
                    clients::client_map(*resolved_clients),
                    Err(fault),
                ),
                Ok(Some(d)) => drafting_outcome(
                    config.participants,
                    config.channels@ + transport,
                    config.ephemeral_channels@,
                    clients::client_map(*resolved_clients),
                    Ok(d),
                ),
                Ok(None) => false,
            },
{
    if !messaging_configured(&config, webhook_endpoints, mqtt_ingress_channels) {
        return Ok(None);
    }
    let MessagingConfig { channels, ephemeral_channels, participants } = config;
    let mut transport: Vec<ChannelEntry> = transport_channel_entries(
        webhook_endpoints,
        mqtt_ingress_channels,
        &participants.globals,
    );
    let ghost brought = transport@;
    let mut entries: Vec<ChannelEntry> = channels;
    entries.append(&mut transport);
    assert(channels::are_transport_channels(
        brought,
        webhook_endpoints@,
        mqtt_ingress_channels@,
        config.participants.globals,
    ));
    match resolve_participants(&participants, entries, ephemeral_channels, resolved_clients) {
        Ok(draft) => Ok(Some(draft)),
        Err(fault) => Err(fault),
    }
}

/// The bare name of the channel on which a consumer gets its tool results.
pub open spec fn inbox_name(slug: Seq<char>) -> Seq<char> {
    "tool-results/"@ + slug
}

/// The bare name of the channel on which a tool takes its requests.
pub open spec fn request_name(tool: Seq<char>) -> Seq<char> {
    "tools/"@ + tool
}

/// A policy that also lets its holder call the first `n` of `tools`.
pub open spec fn calling_policy(policy: PolicyView, tools: Seq<Seq<char>>, n: nat) -> PolicyView
    decreases n,
{
    if n == 0 {
        policy
    } else {
        calling_policy(policy, tools, (n - 1) as nat).granted(
            AppCapability::MessagingPublish,
            request_name(tools[n - 1]),
        )
    }
}

/// The policy of the consumer `slug` once it may call `tools`: it reads its own inbox and
/// publishes on the request channel of each tool.
pub open spec fn tool_policy(policy: PolicyView, slug: Seq<char>, tools: Seq<Seq<char>>) -> PolicyView {
    calling_policy(
        policy.granted(AppCapability::MessagingSubscribe, inbox_name(slug)),
        tools,
        tools.len(),
    )
}

/// What a consumer gets that calls tools: the channel its results come on and the port that
/// reads it. A consumer that may call none gets nothing of it.
#[derive(Debug)]
pub struct ToolInbox {
    /// The async tools the consumer may call, by name.
    pub tools: Vec<String>,
    pub entry: ChannelEntry,
    pub input: WasmInputPort,
}

impl ToolInbox {
    /// Whether there is a tool to call.
    pub open spec fn needed(self) -> bool {
        self.tools@.len() > 0
    }
}

/// The inbox channels that are needed among the first `n` inboxes.
pub open spec fn inbox_entries(inboxes: Seq<ToolInbox>, n: nat) -> Seq<ChannelEntry>
    decreases n,
{
    if n == 0 {
        Seq::empty()
    } else {
        let before = inbox_entries(inboxes, (n - 1) as nat);
        if inboxes[n - 1].needed() {
            before.push(inboxes[n - 1].entry)
        } else {
            before
        }
    }
}

/// Whether `after` is the consumer `before` with the inbox attached.
pub open spec fn inbox_attached(
    before: ResolvedWasmConsumer,
    after: ResolvedWasmConsumer,
    inbox: ToolInbox,
) -> bool {
    &&& after == (ResolvedWasmConsumer { policy: after.policy, inputs: after.inputs, ..before })
    &&& after.inputs@ == before.inputs@.push(inbox.input)
    &&& after.policy@ == tool_policy(
        before.policy@,
        before.slug@,
        policy::texts(inbox.tools@),
    )
}

fn attach_inbox(
    consumer: &mut ResolvedWasmConsumer,
    tools: &Vec<String>,
    input: WasmInputPort,
)
    ensures
        *final(consumer) == (ResolvedWasmConsumer {
            policy: final(consumer).policy,
            inputs: final(consumer).inputs,
            ..*old(consumer)
        }),
        final(consumer).inputs@ == old(consumer).inputs@.push(input),
        final(consumer).policy@ == tool_policy(
            old(consumer).policy@,
            old(consumer).slug@,
            policy::texts(tools@),
        ),
{
    let ghost before = consumer.policy@;
    let ghost slug = consumer.slug@;
    let ghost names = policy::texts(tools@);
    let inbox: String = join("tool-results/", consumer.slug.as_str());
    consumer.policy.grant(AppCapability::MessagingSubscribe, inbox.as_str());
    let n: usize = tools.len();
    let mut i: usize = 0;
    while i < n
        invariant
            i <= n,
            n == tools@.len(),
            names == policy::texts(tools@),
            *consumer == (ResolvedWasmConsumer { policy: consumer.policy, ..*old(consumer) }),
            consumer.policy@ == calling_policy(
                before.granted(AppCapability::MessagingSubscribe, inbox_name(slug)),
                names,
                i as nat,
            ),
        decreases n - i,
    {
        let request: String = join("tools/", tools[i].as_str());
        consumer.policy.grant(AppCapability::MessagingPublish, request.as_str());
        i = i + 1;
    }
    consumer.inputs.push(input);
}

/// Add the channels of the async tools: one request channel for each tool, and for each consumer
/// that may call tools an inbox, the port that reads it, and the rights to read it and to call. A
/// consumer that may call none is left as it is.
pub fn wire_tool_channels(
    draft: &mut MessagingDraft,
    request_channels: Vec<ChannelEntry>,
    inboxes: Vec<ToolInbox>,
)
    requires
        inboxes@.len() == old(draft).wasm_consumers@.len(),
        lists_inputs(old(draft).wasm_subscriptions@, old(draft).wasm_consumers@),
    ensures
        final(draft).entries@ == old(draft).entries@ + request_channels@ + inbox_entries(
            inboxes@,
            inboxes@.len(),
        ),
        final(draft).wasm_consumers@.len() == old(draft).wasm_consumers@.len(),
        forall|i: int|
            #![trigger final(draft).wasm_consumers@[i]]
            0 <= i < old(draft).wasm_consumers@.len() ==> if inboxes@[i].needed() {
                inbox_attached(
                    old(draft).wasm_consumers@[i],
                    final(draft).wasm_consumers@[i],
                    inboxes@[i],
                )
            } else {
                final(draft).wasm_consumers@[i] == old(draft).wasm_consumers@[i]
            },
        lists_inputs(final(draft).wasm_subscriptions@, final(draft).wasm_consumers@),
        final(draft).ephemeral_channels == old(draft).ephemeral_channels,
        final(draft).surfaces == old(draft).surfaces,
        final(draft).surface_subscriptions == old(draft).surface_subscriptions,
{
    let ghost all = inboxes@;
    let ghost start = draft.entries@ + request_channels@;
    let ghost before = draft.wasm_consumers@;
    let mut requests: Vec<ChannelEntry> = request_channels;
    draft.entries.append(&mut requests);
    let mut left: Vec<ToolInbox> = inboxes;
    let n: usize = left.len();
    let mut i: usize = 0;
    assert(draft.entries@ =~= start + inbox_entries(all, 0));
    assert(left@ =~= all.skip(0));
    while i < n
        invariant
            i <= n,
            n == all.len(),
            n == before.len(),
            left@ == all.skip(i as int),
            draft.entries@ == start + inbox_entries(all, i as nat),
            draft.wasm_consumers@.len() == n,
            forall|k: int| i <= k < n ==> #[trigger] draft.wasm_consumers@[k] == before[k],
            forall|k: int|
                #![trigger draft.wasm_consumers@[k]]
                0 <= k < i ==> if all[k].needed() {
                    inbox_attached(before[k], draft.wasm_consumers@[k], all[k])
                } else {
                    draft.wasm_consumers@[k] == before[k]
                },
            lists_inputs(draft.wasm_subscriptions@, draft.wasm_consumers@),
            draft.ephemeral_channels == old(draft).ephemeral_channels,
            draft.surfaces == old(draft).surfaces,
            draft.surface_subscriptions == old(draft).surface_subscriptions,
        decreases n - i,
    {
        let ghost subs = draft.wasm_subscriptions@;
        let ghost consumers = draft.wasm_consumers@;
        let ToolInbox { tools, entry, input } = left.remove(0);
        if tools.len() > 0 {
            draft.entries.push(entry);
            draft.wasm_subscriptions[i].1.push(input.sub.clone());
            attach_inbox(&mut draft.wasm_consumers[i], &tools, input);
            assert(draft.wasm_subscriptions@[i as int].1@ =~= input_subscriptions(
                draft.wasm_consumers@[i as int],
            ));
            assert forall|k: int| 0 <= k < n implies (#[trigger] draft.wasm_subscriptions@[k]).0
                == draft.wasm_consumers@[k].slug && draft.wasm_subscriptions@[k].1@
                == input_subscriptions(draft.wasm_consumers@[k]) by {
                if k != i {
                    assert(subs[k].0 == consumers[k].slug);
                }
            }
        }
        assert(draft.entries@ =~= start + inbox_entries(all, (i + 1) as nat));
        assert(left@ =~= all.skip(i + 1));
        i = i + 1;
    }
}

proof fn calling_only_adds(policy: PolicyView, tools: Seq<Seq<char>>, n: nat)
    requires
        n <= tools.len(),
    ensures
        policy.within(calling_policy(policy, tools, n)),
        calling_policy(policy, tools, n).brenn_subscribe == policy.brenn_subscribe,
        forall|k: int|
            0 <= k < n ==> calling_policy(policy, tools, n).publishes_brenn(
                request_name(#[trigger] tools[k]),
            ),
    decreases n,
{
    if n > 0 {
        let m = (n - 1) as nat;
        calling_only_adds(policy, tools, m);
        let before = calling_policy(policy, tools, m);
        let name = request_name(tools[n - 1]);
        let after = calling_policy(policy, tools, n);
        policy::a_grant_only_adds(before, AppCapability::MessagingPublish, name);
        assert forall|k: int| 0 <= k < n implies after.publishes_brenn(
            request_name(#[trigger] tools[k]),
        ) by {
            if k < m {
                policy::wider_policies_allow_more(before, after, request_name(tools[k]));
            }
        }
    }
}

/// A consumer with an inbox may read it and call each of its tools, and the inbox of another slug
/// stays closed to it unless its own lists opened it before.
pub proof fn tool_callers_reach_their_channels(
    policy: PolicyView,
    slug: Seq<char>,
    tools: Seq<Seq<char>>,
    other: Seq<char>,
)
    ensures
        tool_policy(policy, slug, tools).delivers_on("brenn:"@ + inbox_name(slug)),
        forall|k: int|
            0 <= k < tools.len() ==> tool_policy(policy, slug, tools).publishes_brenn(
                request_name(#[trigger] tools[k]),
            ),
        other != slug && !policy::covered(policy.brenn_subscribe, inbox_name(other))
            ==> !tool_policy(policy, slug, tools).delivers_on("brenn:"@ + inbox_name(other)),
{
    let reading = policy.granted(AppCapability::MessagingSubscribe, inbox_name(slug));
    let after = tool_policy(policy, slug, tools);
    calling_only_adds(reading, tools, tools.len());
    let list = reading.brenn_subscribe;
    let n = policy.brenn_subscribe.len() as int;
    brenn_address_has_its_name(inbox_name(slug));
    brenn_address_has_its_name(inbox_name(other));
    assert(list[n].covers(inbox_name(slug)));
    assert(policy::covered(after.brenn_subscribe, inbox_name(slug)));
    assert(after.grants.contains(AppCapability::MessagingSubscribe));
    if other != slug && policy::covered(list, inbox_name(other)) {
        let i = choose|i: int| 0 <= i < list.len() && (#[trigger] list[i]).covers(inbox_name(other));
        if i == n {
            let m = "tool-results/"@;
            assert(inbox_name(slug).subrange(m.len() as int, inbox_name(slug).len() as int)
                =~= slug);
            assert(inbox_name(other).subrange(m.len() as int, inbox_name(other).len() as int)
                =~= other);
        } else {
            assert(policy.brenn_subscribe[i].covers(inbox_name(other)));
        }
    }
}

proof fn brenn_address_has_its_name(name: Seq<char>)
    ensures
        address::scheme_of("brenn:"@ + name) == Some(ChannelScheme::Brenn),
        ChannelScheme::Brenn.name_in("brenn:"@ + name) == name,
{
    let address = "brenn:"@ + name;
    assert(address.subrange(0, "brenn:"@.len() as int) =~= "brenn:"@);
    assert(ChannelScheme::Brenn.name_in(address) =~= name);
    address::one_scheme_per_address(address, ChannelScheme::Brenn, ChannelScheme::Brenn);
}

/// With the rights every surface has, a surface publishes on the bus where its own matchers cover
/// the name, on the error channel where one is configured, and on its own geometry and status
/// channels; it reads its own bindings beside what its own matchers cover. Its other rights stay
/// as they were.
pub proof fn substrate_rights_are_exact(
    policy: PolicyView,
    slug: Seq<char>,
    error_channel: Option<Seq<char>>,
    prefix: Seq<char>,
    name: Seq<char>,
)
    ensures
        ({
            let after = substrate_policy(policy, slug, error_channel, prefix);
            &&& after.publishes_brenn(name) <==> policy::covered(policy.brenn_publish, name)
                || error_channel == Some(name) || name == prefix + ".surface."@ + slug
                + ".geometry"@ || name == prefix + ".surface."@ + slug + ".status"@
            &&& after.delivers_on("ephemeral:"@ + name) <==> policy::covered(
                policy.ephemeral_subscribe,
                name,
            ) || name == prefix + ".surface."@ + slug + ".bindings"@
            &&& after.delivers_on("brenn:"@ + name) <==> policy.delivers_on("brenn:"@ + name)
            &&& after.publishes_ephemeral(name) <==> policy.publishes_ephemeral(name)
        }),
{
    let publish = AppCapability::MessagingPublish;
    let geometry = surface_grants::geometry_name(prefix, slug);
    let status = surface_grants::status_name(prefix, slug);
    let config = surface_grants::config_name(prefix, slug);
    let reporting = match error_channel {
        Some(bare) => policy.granted(publish, bare),
        None => policy,
    };
    if let Some(bare) = error_channel {
        policy::a_grant_opens_one_name_in_one_direction(policy, publish, bare, name);
    }
    let a = reporting.granted(publish, geometry);
    let b = a.granted(publish, status);
    policy::a_grant_opens_one_name_in_one_direction(reporting, publish, geometry, name);
    policy::a_grant_opens_one_name_in_one_direction(a, publish, status, name);
    policy::a_grant_opens_one_name_in_one_direction(
        b,
        AppCapability::EphemeralSubscribe,
        config,
        name,
    );
    address::an_address_is_its_prefix_and_its_name(name);
}

/// The kept subscriptions of a surface are those on durable channels, unchanged.
pub proof fn exactly_the_durable_subscriptions_are_kept(
    wires: Seq<ResolvedSurfaceSubscription>,
    wire: ResolvedSurfaceSubscription,
)
    ensures
        durable_wires(wires).contains(wire) <==> wires.contains(wire) && "brenn:"@.is_prefix_of(
            wire.subscription.channel_address@,
        ),
        durable_wires(wires).len() <= wires.len(),
    decreases wires.len(),
{
    if wires.len() > 0 {
        let rest = wires.drop_last();
        exactly_the_durable_subscriptions_are_kept(rest, wire);
        let before = durable_wires(rest);
        let after = durable_wires(wires);
        if before.contains(wire) {
            let k = choose|k: int| 0 <= k < before.len() && before[k] == wire;
            assert(after[k] == wire);
        }
        if rest.contains(wire) {
            let k = choose|k: int| 0 <= k < rest.len() && rest[k] == wire;
            assert(wires[k] == wire);
        }
        if wires.contains(wire) {
            let k = choose|k: int| 0 <= k < wires.len() && wires[k] == wire;
            if k < rest.len() {
                assert(rest[k] == wire);
            } else if ChannelScheme::Brenn.names(wire.subscription.channel_address@) {
                assert(after[before.len() as int] == wire);
            }
        }
        if after.contains(wire) {
            let k = choose|k: int| 0 <= k < after.len() && after[k] == wire;
            if k < before.len() {
                assert(before[k] == wire);
            } else {
                assert(wires[wires.len() - 1] == wire);
            }
        }
    }
}

/// A consumer's subscriptions are listed port by port, as its inputs have them.
pub proof fn every_input_lists_its_subscription(
    list: Seq<(String, Vec<ResolvedSubscription>)>,
    consumers: Seq<ResolvedWasmConsumer>,
    i: int,
    j: int,
)
    requires
        lists_inputs(list, consumers),
        0 <= i < consumers.len(),
        0 <= j < consumers[i].inputs@.len(),
    ensures
        list.len() == consumers.len(),
        list[i].0@ == consumers[i].slug@,
        list[i].1@.len() == consumers[i].inputs@.len(),
        list[i].1@[j] == consumers[i].inputs@[j].sub,
{
    assert(list[i].1@ == input_subscriptions(consumers[i]));
}

/// The inbox channels that are added are those of the consumers with a tool to call.
pub proof fn exactly_the_needed_inboxes_are_added(
    inboxes: Seq<ToolInbox>,
    n: nat,
    entry: ChannelEntry,
)
    requires
        n <= inboxes.len(),
    ensures
        inbox_entries(inboxes, n).contains(entry) <==> exists|i: int|
            0 <= i < n && (#[trigger] inboxes[i]).tools@.len() > 0 && inboxes[i].entry == entry,
        inbox_entries(inboxes, n).len() <= n,
    decreases n,
{
    if n > 0 {
        let m = (n - 1) as nat;
        exactly_the_needed_inboxes_are_added(inboxes, m, entry);
        let before = inbox_entries(inboxes, m);
        let after = inbox_entries(inboxes, n);
        if before.contains(entry) {
            let k = choose|k: int| 0 <= k < before.len() && before[k] == entry;
            assert(after[k] == entry);
        }
        if inboxes[n - 1].needed() && inboxes[n - 1].entry == entry {
            assert(after[before.len() as int] == entry);
        }
        if after.contains(entry) {
            let k = choose|k: int| 0 <= k < after.len() && after[k] == entry;
            if k < before.len() {
                assert(before[k] == entry);
            } else {
                assert(inboxes[n - 1].tools@.len() > 0);
            }
        }
    }
}

proof fn calling_opens_the_requests(
    policy: PolicyView,
    tools: Seq<Seq<char>>,
    n: nat,
    name: Seq<char>,
)
    requires
        n <= tools.len(),
    ensures
        policy::covered(calling_policy(policy, tools, n).brenn_publish, name) <==> policy::covered(
            policy.brenn_publish,
            name,
        ) || exists|k: int| 0 <= k < n && name == "tools/"@ + #[trigger] tools[k],
        calling_policy(policy, tools, n).grants.contains(AppCapability::MessagingPublish)
            <==> policy.grants.contains(AppCapability::MessagingPublish) || n > 0,
        calling_policy(policy, tools, n).grants.contains(AppCapability::MessagingSubscribe)
            <==> policy.grants.contains(AppCapability::MessagingSubscribe),
        calling_policy(policy, tools, n).brenn_subscribe == policy.brenn_subscribe,
    decreases n,
{
    if n > 0 {
        let m = (n - 1) as nat;
        calling_opens_the_requests(policy, tools, m, name);
        let before = calling_policy(policy, tools, m);
        policy::a_grant_opens_one_name_in_one_direction(
            before,
            AppCapability::MessagingPublish,
            request_name(tools[n - 1]),
            name,
        );
        if exists|k: int| 0 <= k < n && name == "tools/"@ + #[trigger] tools[k] {
            let k = choose|k: int| 0 <= k < n && name == "tools/"@ + #[trigger] tools[k];
            if k < m {
                assert(name == "tools/"@ + tools[k]);
            }
        }
        if name == request_name(tools[n - 1]) {
            assert(name == "tools/"@ + tools[n - 1]);
        }
    }
}

/// A consumer that may call tools reads its own inbox and publishes on the request channel of
/// each tool it may call; beyond that its lists decide as before.
pub proof fn tool_rights_are_exact(
    policy: PolicyView,
    slug: Seq<char>,
    tools: Seq<Seq<char>>,
    name: Seq<char>,
)
    requires
        tools.len() > 0,
    ensures
        tool_policy(policy, slug, tools).publishes_brenn(name) <==> policy::covered(
            policy.brenn_publish,
            name,
        ) || exists|k: int| 0 <= k < tools.len() && name == "tools/"@ + #[trigger] tools[k],
        tool_policy(policy, slug, tools).delivers_on("brenn:"@ + name) <==> policy::covered(
            policy.brenn_subscribe,
            name,
        ) || name == "tool-results/"@ + slug,
{
    let subscribe = AppCapability::MessagingSubscribe;
    let reading = policy.granted(subscribe, inbox_name(slug));
    policy::a_grant_opens_one_name_in_one_direction(policy, subscribe, inbox_name(slug), name);
    calling_opens_the_requests(reading, tools, tools.len(), name);
    address::an_address_is_its_prefix_and_its_name(name);
}

/// Whoever is drafted is as they resolve: every consumer against the durable channels, every
/// surface against the ephemeral ones behind them, in the order of the configuration, with the
/// surfaces' policies completed by the rights every surface has.
pub proof fn a_draft_has_everyone_in_order(
    config: ParticipantsConfig,
    durable: Seq<ChannelEntry>,
    ephemeral: Seq<ChannelEntry>,
    declared: Map<Seq<char>, MqttClient>,
    draft: MessagingDraft,
)
    requires
        drafting_outcome(config, durable, ephemeral, declared, Ok(draft)),
    ensures
        draft.entries@ == durable,
        draft.ephemeral_channels@ == ephemeral,
        draft.wasm_consumers@.len() == config.wasm_consumers@.len(),
        forall|i: int|
            0 <= i < config.wasm_consumers@.len() ==> (#[trigger] draft.wasm_consumers@[i]).slug@
                == config.wasm_consumers@[i].slug@,
        draft.surfaces@.len() == config.surfaces@.len(),
        forall|i: int|
            0 <= i < config.surfaces@.len() ==> (#[trigger] draft.surfaces@[i]).slug@
                == config.surfaces@[i].slug@,
        config.surface_error_channel matches Some(address) ==> channels::bare_name(address@) is Some,
{
}

/// An attached inbox adds one input, behind the others, and the rights to call; in everything
/// else the consumer stays as it was.
pub proof fn an_inbox_adds_one_input(
    before: ResolvedWasmConsumer,
    after: ResolvedWasmConsumer,
    inbox: ToolInbox,
)
    requires
        inbox_attached(before, after, inbox),
    ensures
        after.slug == before.slug,
        after.component_path == before.component_path,
        after.grants == before.grants,
        after.store_path == before.store_path,
        after.max_page_count == before.max_page_count,
        after.outputs == before.outputs,
        after.config == before.config,
        after.activation_pacing == before.activation_pacing,
        after.mqtt_sinks == before.mqtt_sinks,
        after.inputs@.len() == before.inputs@.len() + 1,
        after.inputs@.last() == inbox.input,
        forall|j: int|
            0 <= j < before.inputs@.len() ==> #[trigger] after.inputs@[j] == before.inputs@[j],
{
}

/// A drafted surface publishes on the bus exactly where an entry of its publish list covers the
/// name, lowering derived it, it is the configured error channel, or it is the surface's own
/// geometry or status channel.
pub proof fn a_drafted_surface_may_publish_where_it_should(
    config: ParticipantsConfig,
    durable: Seq<ChannelEntry>,
    ephemeral: Seq<ChannelEntry>,
    draft: MessagingDraft,
    i: int,
    name: Seq<char>,
)
    requires
        draft_of(config, durable, ephemeral, draft),
        0 <= i < config.surfaces@.len(),
    ensures
        draft.surfaces@[i].policy@.publishes_brenn(name) <==> {
            let raw = config.surfaces@[i];
            let derived = config.auto_wiring.grants@;
            ||| policy::lists_name(raw.publish_acl@, name)
            ||| surface_outcomes::derived_entry(
                derived,
                derived.len(),
                raw.slug@,
                AppCapability::MessagingPublish,
                name,
            )
            ||| config.surface_error_channel matches Some(address) && address@ == "brenn:"@ + name
                && name.len() > 0
            ||| name == config.description_prefix@ + ".surface."@ + raw.slug@ + ".geometry"@
            ||| name == config.description_prefix@ + ".surface."@ + raw.slug@ + ".status"@
        },
{
    let raw = config.surfaces@[i];
    let derived = config.auto_wiring.grants@;
    let base = surfaces::surface_policy(raw, config.auto_wiring);
    assert(draft.surfaces@[i].policy@ == planned_policy(config, i));
    substrate_rights_are_exact(
        base,
        raw.slug@,
        error_channel(config),
        config.description_prefix@,
        name,
    );
    surface_outcomes::derived_rights_are_the_surfaces_own(
        surface_scene::authored_policy(raw),
        derived,
        raw.slug@,
        derived.len(),
        AppCapability::MessagingPublish,
        name,
    );
    policy::a_list_covers_what_its_entries_name(raw.publish_acl@, name);
    if let Some(address) = config.surface_error_channel {
        channels::only_durable_addresses_have_a_bare_name(name);
        address::a_known_scheme_stands_in_front(address@);
    }
}

/// A refused output is one that the policy its surface ends up with does not cover.
pub proof fn a_refused_output_is_not_covered(
    config: ParticipantsConfig,
    durable: Seq<ChannelEntry>,
    ephemeral: Seq<ChannelEntry>,
    declared: Map<Seq<char>, MqttClient>,
    output: UncoveredOutput,
)
    requires
        drafting_outcome(
            config,
            durable,
            ephemeral,
            declared,
            Err(MessagingFault::Output(output)),
        ),
    ensures
        output.surface < config.surfaces@.len(),
        !surface_grants::publish_covered(
            planned_policy(config, output.surface as int),
            planned_scene(config, durable + ephemeral, output.surface as int).output(
                output.output as int,
            ).channel_address@,
        ),
{
    let entries = durable + ephemeral;
    let checks = planned_surface_covers(config, entries);
    model::first_fault_is_first(checks, config.surfaces@.len());
    let i = output.surface as int;
    let scene = planned_scene(config, entries, i);
    model::first_fault_is_first(planned_covers(config, entries, i), scene.outs().len());
    assert(checks(i) is Some);
    assert(planned_covers(config, entries, i)(output.output as int) is Some);
}

/// Kept subscriptions and inbox channels come in the order of what they come from: one more adds
/// at most one, behind the others.
pub proof fn kept_subscriptions_and_inboxes_keep_their_order(
    wires: Seq<ResolvedSurfaceSubscription>,
    wire: ResolvedSurfaceSubscription,
    inboxes: Seq<ToolInbox>,
    n: nat,
)
    requires
        n < inboxes.len(),
    ensures
        durable_wires(wires).is_prefix_of(durable_wires(wires.push(wire))),
        durable_wires(wires.push(wire)).len() == durable_wires(wires).len() + (
        if "brenn:"@.is_prefix_of(wire.subscription.channel_address@) {
            1int
        } else {
            0int
        }),
        inbox_entries(inboxes, n).is_prefix_of(inbox_entries(inboxes, n + 1)),
        inbox_entries(inboxes, n + 1).len() == inbox_entries(inboxes, n).len() + (
        if inboxes[n as int].tools@.len() > 0 {
            1int
        } else {
            0int
        }),
{
    assert(wires.push(wire).drop_last() =~= wires);
}

} // verus!
