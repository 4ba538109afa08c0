//! What a resolved surface says, in the operator's own words, and why one is refused.

use vstd::prelude::*;

use crate::address;
use crate::address::ChannelScheme;
use crate::directory;
use crate::directory::ChannelEntry;
use crate::model;
use crate::model::{Depth, NoiseLevel, Urgency};
use crate::policy;
use crate::policy::{AppCapability, PolicyView};
use crate::surface_model::{
    Abi, AttachSendBudget, AutoGrant, AutoPort, AutoWiring, MessagingGlobalConfig,
    ResolvedComponent, ResolvedSurface, ResolvedSurfaceSubscription, SurfaceComponentRaw,
    SurfaceConfigRaw, SurfaceFault, SurfaceFaultKind, SurfaceGrant, SurfaceLimits,
    SurfaceSubscriptionRaw,
};
use crate::surface_rules;
use crate::surface_scene;
use crate::surface_scene::Scene;
use crate::surfaces;

verus! {

/// A surface holds the capability of each grant the operator lists and no other.
pub proof fn listed_grants_are_held(raw: SurfaceConfigRaw)
    ensures
        surface_scene::authored_policy(raw).grants.contains(AppCapability::MessagingSubscribe)
            <==> raw.grants@.contains(SurfaceGrant::Subscribe),
        surface_scene::authored_policy(raw).grants.contains(AppCapability::MessagingPublish)
            <==> raw.grants@.contains(SurfaceGrant::Publish),
        surface_scene::authored_policy(raw).grants.contains(AppCapability::EphemeralSubscribe)
            <==> raw.grants@.contains(SurfaceGrant::EphemeralSubscribe),
        surface_scene::authored_policy(raw).grants.contains(AppCapability::EphemeralPublish)
            <==> raw.grants@.contains(SurfaceGrant::EphemeralPublish),
        surface_scene::authored_policy(raw).grants.contains(AppCapability::SurfaceTakeover)
            <==> raw.grants@.contains(SurfaceGrant::Takeover),
        surface_scene::authored_policy(raw).grants.contains(AppCapability::SurfaceAlert)
            <==> raw.grants@.contains(SurfaceGrant::Alert),
        !surface_scene::authored_policy(raw).grants.contains(AppCapability::MqttSubscribe),
        !surface_scene::authored_policy(raw).grants.contains(AppCapability::MqttPublish),
        !surface_scene::authored_policy(raw).grants.contains(AppCapability::Webhook),
{
    a_listed_grant_is_held(raw, SurfaceGrant::Subscribe);
    a_listed_grant_is_held(raw, SurfaceGrant::Publish);
    a_listed_grant_is_held(raw, SurfaceGrant::EphemeralSubscribe);
    a_listed_grant_is_held(raw, SurfaceGrant::EphemeralPublish);
    a_listed_grant_is_held(raw, SurfaceGrant::Takeover);
    a_listed_grant_is_held(raw, SurfaceGrant::Alert);
}

proof fn a_listed_grant_is_held(raw: SurfaceConfigRaw, grant: SurfaceGrant)
    ensures
        surface_scene::capabilities(raw.grants@).contains(grant.as_capability())
            <==> raw.grants@.contains(grant),
{
    if raw.grants@.contains(grant) {
        let i = choose|i: int| 0 <= i < raw.grants@.len() && raw.grants@[i] == grant;
        assert(raw.grants@[i].as_capability() == grant.as_capability());
    }
    if surface_scene::capabilities(raw.grants@).contains(grant.as_capability()) {
        let i = choose|i: int|
            0 <= i < raw.grants@.len() && (#[trigger] raw.grants@[i]).as_capability()
                == grant.as_capability();
        assert(raw.grants@[i] == grant);
    }
}

/// Each of the four authored lists decides its own direction: a surface publishes on a durable or
/// an ephemeral channel, or receives on one, exactly where the operator lists the grant for it
/// and an entry of the list for it covers the name.
pub proof fn each_authored_list_decides_its_own_direction(raw: SurfaceConfigRaw, name: Seq<char>)
    ensures
        surface_scene::authored_policy(raw).publishes_brenn(name) <==> raw.grants@.contains(
            SurfaceGrant::Publish,
        ) && policy::lists_name(raw.publish_acl@, name),
        surface_scene::authored_policy(raw).publishes_ephemeral(name) <==> raw.grants@.contains(
            SurfaceGrant::EphemeralPublish,
        ) && policy::lists_name(raw.ephemeral_publish_acl@, name),
        surface_scene::authored_policy(raw).delivers_on("brenn:"@ + name) <==> raw.grants@.contains(
            SurfaceGrant::Subscribe,
        ) && policy::lists_name(raw.subscribe_acl@, name),
        surface_scene::authored_policy(raw).delivers_on("ephemeral:"@ + name)
            <==> raw.grants@.contains(SurfaceGrant::EphemeralSubscribe) && policy::lists_name(
            raw.ephemeral_subscribe_acl@,
            name,
        ),
        !surface_scene::authored_policy(raw).delivers_on("mqtt:"@ + name),
        !surface_scene::authored_policy(raw).delivers_on("webhook:"@ + name),
        !surface_scene::authored_policy(raw).delivers_on("local:"@ + name),
        surface_scene::authored_policy(raw).tool_grants.len() == 0,
{
    address::an_address_is_its_prefix_and_its_name(name);
    listed_grants_are_held(raw);
    policy::a_list_covers_what_its_entries_name(raw.publish_acl@, name);
    policy::a_list_covers_what_its_entries_name(raw.ephemeral_publish_acl@, name);
    policy::a_list_covers_what_its_entries_name(raw.subscribe_acl@, name);
    policy::a_list_covers_what_its_entries_name(raw.ephemeral_subscribe_acl@, name);
}

/// Whether one of the first `n` derived rights is `capability` for the surface `slug`.
pub open spec fn derived_right(
    grants: Seq<AutoGrant>,
    n: nat,
    slug: Seq<char>,
    capability: AppCapability,
) -> bool {
    exists|i: int|
        0 <= i < n && (#[trigger] grants[i]).slug@ == slug && grants[i].capability == capability
}

/// Whether one of the first `n` derived rights is `capability` on `name` for the surface `slug`.
pub open spec fn derived_entry(
    grants: Seq<AutoGrant>,
    n: nat,
    slug: Seq<char>,
    capability: AppCapability,
    name: Seq<char>,
) -> bool {
    exists|i: int|
        0 <= i < n && (#[trigger] grants[i]).slug@ == slug && grants[i].capability == capability
            && grants[i].name@ == name
}

/// What lowering derives for a surface adds the derived right and opens the derived name in its
/// own direction; what it derives for other surfaces adds nothing.
pub proof fn derived_rights_are_the_surfaces_own(
    base: PolicyView,
    grants: Seq<AutoGrant>,
    slug: Seq<char>,
    n: nat,
    capability: AppCapability,
    name: Seq<char>,
)
    requires
        n <= grants.len(),
    ensures
        surface_scene::with_auto_grants(base, grants, slug, n).grants.contains(capability)
            <==> base.grants.contains(capability) || derived_right(grants, n, slug, capability),
        policy::covered(
            surface_scene::with_auto_grants(base, grants, slug, n).brenn_subscribe,
            name,
        ) <==> policy::covered(base.brenn_subscribe, name) || derived_entry(
            grants,
            n,
            slug,
            AppCapability::MessagingSubscribe,
            name,
        ),
        policy::covered(
            surface_scene::with_auto_grants(base, grants, slug, n).brenn_publish,
            name,
        ) <==> policy::covered(base.brenn_publish, name) || derived_entry(
            grants,
            n,
            slug,
            AppCapability::MessagingPublish,
            name,
        ),
        policy::covered(
            surface_scene::with_auto_grants(base, grants, slug, n).ephemeral_subscribe,
            name,
        ) <==> policy::covered(base.ephemeral_subscribe, name) || derived_entry(
            grants,
            n,
            slug,
            AppCapability::EphemeralSubscribe,
            name,
        ),
        policy::covered(
            surface_scene::with_auto_grants(base, grants, slug, n).ephemeral_publish,
            name,
        ) <==> policy::covered(base.ephemeral_publish, name) || derived_entry(
            grants,
            n,
            slug,
            AppCapability::EphemeralPublish,
            name,
        ),
        surface_scene::with_auto_grants(base, grants, slug, n).mqtt_publish == base.mqtt_publish,
        surface_scene::with_auto_grants(base, grants, slug, n).mqtt_covered == base.mqtt_covered,
        surface_scene::with_auto_grants(base, grants, slug, n).webhook == base.webhook,
        surface_scene::with_auto_grants(base, grants, slug, n).tool_grants == base.tool_grants,
    decreases n,
{
    if n > 0 {
        let m = (n - 1) as nat;
        let last = grants[n - 1];
        derived_rights_are_the_surfaces_own(base, grants, slug, m, capability, name);
        one_more_right(grants, n, slug, capability);
        one_more_derived(grants, n, slug, AppCapability::MessagingSubscribe, name);
        one_more_derived(grants, n, slug, AppCapability::MessagingPublish, name);
        one_more_derived(grants, n, slug, AppCapability::EphemeralSubscribe, name);
        one_more_derived(grants, n, slug, AppCapability::EphemeralPublish, name);
        policy::a_grant_opens_one_name_in_one_direction(
            surface_scene::with_auto_grants(base, grants, slug, m),
            last.capability,
            last.name@,
            name,
        );
    }
}

proof fn one_more_right(grants: Seq<AutoGrant>, n: nat, slug: Seq<char>, capability: AppCapability)
    requires
        0 < n <= grants.len(),
    ensures
        derived_right(grants, n, slug, capability) <==> derived_right(
            grants,
            (n - 1) as nat,
            slug,
            capability,
        ) || (grants[n - 1].slug@ == slug && grants[n - 1].capability == capability),
{
    if derived_right(grants, n, slug, capability) {
        let i = choose|i: int|
            0 <= i < n && (#[trigger] grants[i]).slug@ == slug && grants[i].capability
                == capability;
        if i < n - 1 {
            assert(grants[i].slug@ == slug);
        }
    }
}

proof fn one_more_derived(
    grants: Seq<AutoGrant>,
    n: nat,
    slug: Seq<char>,
    capability: AppCapability,
    name: Seq<char>,
)
    requires
        0 < n <= grants.len(),
    ensures
        derived_entry(grants, n, slug, capability, name) <==> derived_entry(
            grants,
            (n - 1) as nat,
            slug,
            capability,
            name,
        ) || (grants[n - 1].slug@ == slug && grants[n - 1].capability == capability && grants[n
            - 1].name@ == name),
{
    if derived_entry(grants, n, slug, capability, name) {
        let i = choose|i: int|
            0 <= i < n && (#[trigger] grants[i]).slug@ == slug && grants[i].capability == capability
                && grants[i].name@ == name;
        if i < n - 1 {
            assert(grants[i].slug@ == slug);
        }
    }
}

/// With what lowering derived, a surface publishes or receives on a name exactly where a grant
/// for the direction is listed or derived for it, and the name is listed or derived for it.
pub proof fn a_surface_may_what_is_listed_or_derived(
    raw: SurfaceConfigRaw,
    auto_wiring: AutoWiring,
    name: Seq<char>,
)
    ensures
        ({
            let derived = auto_wiring.grants@;
            let n = derived.len();
            let own = surfaces::surface_policy(raw, auto_wiring);
            &&& own.publishes_brenn(name) <==> (raw.grants@.contains(SurfaceGrant::Publish)
                || derived_right(derived, n, raw.slug@, AppCapability::MessagingPublish)) && (
            policy::lists_name(raw.publish_acl@, name) || derived_entry(
                derived,
                n,
                raw.slug@,
                AppCapability::MessagingPublish,
                name,
            ))
            &&& own.publishes_ephemeral(name) <==> (raw.grants@.contains(
                SurfaceGrant::EphemeralPublish,
            ) || derived_right(derived, n, raw.slug@, AppCapability::EphemeralPublish)) && (
            policy::lists_name(raw.ephemeral_publish_acl@, name) || derived_entry(
                derived,
                n,
                raw.slug@,
                AppCapability::EphemeralPublish,
                name,
            ))
            &&& own.delivers_on("brenn:"@ + name) <==> (raw.grants@.contains(
                SurfaceGrant::Subscribe,
            ) || derived_right(derived, n, raw.slug@, AppCapability::MessagingSubscribe)) && (
            policy::lists_name(raw.subscribe_acl@, name) || derived_entry(
                derived,
                n,
                raw.slug@,
                AppCapability::MessagingSubscribe,
                name,
            ))
            &&& own.delivers_on("ephemeral:"@ + name) <==> (raw.grants@.contains(
                SurfaceGrant::EphemeralSubscribe,
            ) || derived_right(derived, n, raw.slug@, AppCapability::EphemeralSubscribe)) && (
            policy::lists_name(raw.ephemeral_subscribe_acl@, name) || derived_entry(
                derived,
                n,
                raw.slug@,
                AppCapability::EphemeralSubscribe,
                name,
            ))
        }),
{
    let derived = auto_wiring.grants@;
    let base = surface_scene::authored_policy(raw);
    address::an_address_is_its_prefix_and_its_name(name);
    listed_grants_are_held(raw);
    policy::a_list_covers_what_its_entries_name(raw.publish_acl@, name);
    policy::a_list_covers_what_its_entries_name(raw.ephemeral_publish_acl@, name);
    policy::a_list_covers_what_its_entries_name(raw.subscribe_acl@, name);
    policy::a_list_covers_what_its_entries_name(raw.ephemeral_subscribe_acl@, name);
    let n = derived.len();
    let slug = raw.slug@;
    let c = AppCapability::MessagingPublish;
    derived_rights_are_the_surfaces_own(base, derived, slug, n, c, name);
    let c = AppCapability::EphemeralPublish;
    derived_rights_are_the_surfaces_own(base, derived, slug, n, c, name);
    let c = AppCapability::MessagingSubscribe;
    derived_rights_are_the_surfaces_own(base, derived, slug, n, c, name);
    let c = AppCapability::EphemeralSubscribe;
    derived_rights_are_the_surfaces_own(base, derived, slug, n, c, name);
}

/// A port is on the address that the first derived wire for its surface, instance and port gives
/// it; where none is for all three, lowering gives it no address.
pub proof fn the_first_derived_wire_counts(
    ports: Seq<AutoPort>,
    slug: Seq<char>,
    instance: Seq<char>,
    port: Seq<char>,
)
    ensures
        match surface_scene::assigned(ports, slug, instance, port) {
            None => forall|i: int|
                0 <= i < ports.len() ==> !((#[trigger] ports[i]).slug@ == slug
                    && ports[i].instance@ == instance && ports[i].port@ == port),
            Some(address) => exists|i: int|
                {
                    &&& 0 <= i < ports.len()
                    &&& (#[trigger] ports[i]).address == address
                    &&& ports[i].slug@ == slug && ports[i].instance@ == instance && ports[i].port@
                        == port
                    &&& forall|d: int|
                        0 <= d < i ==> !((#[trigger] ports[d]).slug@ == slug && ports[d].instance@
                            == instance && ports[d].port@ == port)
                },
        },
    decreases ports.len(),
{
    if ports.len() > 0 {
        let first = ports[0];
        let rest = ports.drop_first();
        if first.slug@ == slug && first.instance@ == instance && first.port@ == port {
            assert(ports[0].address == first.address);
        } else {
            the_first_derived_wire_counts(rest, slug, instance, port);
            assert forall|i: int| 0 <= i < rest.len() implies #[trigger] rest[i] == ports[i + 1] by {}
            assert forall|i: int| 1 <= i < ports.len() implies #[trigger] ports[i] == rest[i - 1] by {}
            match surface_scene::assigned(rest, slug, instance, port) {
                None => {},
                Some(address) => {
                    let i = choose|i: int|
                        {
                            &&& 0 <= i < rest.len()
                            &&& (#[trigger] rest[i]).address == address
                            &&& rest[i].slug@ == slug && rest[i].instance@ == instance
                                && rest[i].port@ == port
                            &&& forall|d: int|
                                0 <= d < i ==> !((#[trigger] rest[d]).slug@ == slug
                                    && rest[d].instance@ == instance && rest[d].port@ == port)
                        };
                    assert(ports[i + 1].address == address);
                },
            }
        }
    }
}

/// A resolved component is as the operator wrote it: its kind, its chrome flag and its static
/// map. Its instance id is its own or else its kind, its ABI the one it names, its send budget
/// its own knob by knob or else the default, and eight flushes are parked for it where it states
/// no number.
pub proof fn resolved_components_are_as_written(
    component: SurfaceComponentRaw,
    limits: SurfaceLimits,
    resolved: ResolvedComponent,
)
    requires
        surfaces::component_resolved(component, limits, resolved),
    ensures
        component.instance matches Some(id) ==> resolved.instance@ == id@,
        component.instance is None ==> resolved.instance@ == component.kind@,
        resolved.kind@ == component.kind@,
        resolved.abi == Abi::Dom <==> component.abi@ == "dom"@,
        resolved.abi == Abi::Processor <==> component.abi@ == "processor"@,
        resolved.abi == Abi::Dom || resolved.abi == Abi::Processor,
        component.config matches Some(map) ==> resolved.config@ == map@,
        component.config is None ==> resolved.config@.len() == 0,
        component.send_burst matches Some(burst) ==> resolved.send_budget.burst == burst,
        component.send_burst is None ==> resolved.send_budget.burst == limits.default_send.burst,
        component.send_refill_secs matches Some(secs) ==> resolved.send_budget.refill_secs == secs,
        component.send_refill_secs is None ==> resolved.send_budget.refill_secs
            == limits.default_send.refill_secs,
        resolved.send_budget.burst >= 256,
        resolved.send_budget.refill_secs >= 1,
        component.parked_batch_depth matches Some(depth) ==> depth == Depth::Bounded(
            resolved.parked_batch_depth,
        ),
        component.parked_batch_depth is None ==> resolved.parked_batch_depth == 8,
        resolved.parked_batch_depth >= 1,
        resolved.chrome == component.chrome,
{
    reveal_strlit("dom");
    reveal_strlit("processor");
    assert("dom"@.len() == 3 && "processor"@.len() == 9);
}

/// The rest of a resolved surface is as the operator wrote it: slug and users. The skin is the
/// operator's or else `bench`, the two publish knobs the operator's or else the default, and
/// there is one resolved component, input and output for each declared one, an io port counting
/// as both.
pub proof fn resolved_surfaces_are_as_written(
    raw: SurfaceConfigRaw,
    entries: Seq<ChannelEntry>,
    globals: MessagingGlobalConfig,
    auto_wiring: AutoWiring,
    limits: SurfaceLimits,
    resolved: ResolvedSurface,
)
    requires
        surfaces::surface_shaped(raw, entries, globals, auto_wiring, limits, resolved),
    ensures
        resolved.slug@ == raw.slug@,
        raw.skin matches Some(skin) ==> resolved.skin@ == skin@,
        raw.skin is None ==> resolved.skin@ == "bench"@,
        resolved.allowed_users@.len() == raw.allowed_users@.len(),
        forall|i: int|
            0 <= i < raw.allowed_users@.len() ==> (#[trigger] resolved.allowed_users@[i])@
                == raw.allowed_users@[i]@,
        raw.publish_burst matches Some(burst) ==> resolved.publish_burst == burst,
        raw.publish_burst is None ==> resolved.publish_burst == limits.default_publish_burst,
        raw.publish_per_sec matches Some(rate) ==> resolved.publish_per_sec == rate,
        raw.publish_per_sec is None ==> resolved.publish_per_sec == limits.default_publish_per_sec,
        resolved.components@.len() == raw.components@.len(),
        forall|j: int|
            0 <= j < raw.components@.len() ==> surfaces::component_resolved(
                raw.components@[j],
                limits,
                #[trigger] resolved.components@[j],
            ),
        resolved.subscriptions@.len() == raw.subscriptions@.len() + raw.io_ports@.len(),
        resolved.outputs@.len() == raw.outputs@.len() + raw.io_ports@.len(),
{
    assert(policy::texts(resolved.allowed_users@).len() == resolved.allowed_users@.len());
    assert(policy::texts(raw.allowed_users@).len() == raw.allowed_users@.len());
    assert forall|i: int| 0 <= i < raw.allowed_users@.len() implies (
    #[trigger] resolved.allowed_users@[i])@ == raw.allowed_users@[i]@ by {
        assert(policy::texts(resolved.allowed_users@)[i] == policy::texts(raw.allowed_users@)[i]);
    }
}

proof fn output_is_as_written(scene: Scene, j: int)
    requires
        0 <= j < scene.raw.outputs@.len(),
        scene.out_fault(j) is None,
    ensures
        scene.output(j).instance@ == scene.raw.outputs@[j].instance@,
        scene.output(j).port@ == scene.raw.outputs@[j].port@,
        scene.raw.outputs@[j].channel matches Some(channel) ==> scene.output(j).channel_address@
            == channel@,
        scene.raw.outputs@[j].channel is None ==> surface_scene::assigned(
            scene.ports,
            scene.raw.slug@,
            scene.raw.outputs@[j].instance@,
            scene.raw.outputs@[j].port@,
        ) == Some(scene.output(j).channel_address),
        scene.raw.outputs@[j].urgency matches Some(u) ==> scene.output(j).default_urgency == u,
        scene.raw.outputs@[j].urgency is None ==> scene.output(j).default_urgency
            == Urgency::Normal,
        scene.raw.outputs@[j].publish_per_activation_mt matches Some(mt) ==> scene.output(
            j,
        ).budget.fill_mt == mt,
        scene.raw.outputs@[j].publish_per_activation_mt is None ==> scene.output(j).budget.fill_mt
            == 1000,
        scene.raw.outputs@[j].publish_capacity_mt matches Some(mt) ==> scene.output(
            j,
        ).budget.capacity_mt == mt,
        scene.raw.outputs@[j].publish_capacity_mt is None ==> scene.output(j).budget.capacity_mt
            == 1000,
{
}

/// Every output of a resolved surface is that of the declared output in its place: instance,
/// port, channel where one is written, urgency and budget, with a normal urgency and one publish
/// where the operator states nothing.
pub proof fn resolved_surface_outputs_are_as_written(
    raw: SurfaceConfigRaw,
    entries: Seq<ChannelEntry>,
    globals: MessagingGlobalConfig,
    auto_wiring: AutoWiring,
    limits: SurfaceLimits,
    resolved: ResolvedSurface,
    j: int,
)
    requires
        surfaces::surface_fault(raw, entries, globals, auto_wiring, limits) is None,
        surfaces::surface_shaped(raw, entries, globals, auto_wiring, limits, resolved),
        0 <= j < raw.outputs@.len(),
    ensures
        resolved.outputs@[j].instance@ == raw.outputs@[j].instance@,
        resolved.outputs@[j].port@ == raw.outputs@[j].port@,
        raw.outputs@[j].channel matches Some(channel) ==> resolved.outputs@[j].channel_address@
            == channel@,
        raw.outputs@[j].channel is None ==> surface_scene::assigned(
            auto_wiring.ports@,
            raw.slug@,
            raw.outputs@[j].instance@,
            raw.outputs@[j].port@,
        ) == Some(resolved.outputs@[j].channel_address),
        raw.outputs@[j].urgency matches Some(u) ==> resolved.outputs@[j].default_urgency == u,
        raw.outputs@[j].urgency is None ==> resolved.outputs@[j].default_urgency
            == Urgency::Normal,
        raw.outputs@[j].publish_per_activation_mt matches Some(mt) ==> resolved.outputs@[j].budget.fill_mt == mt,
        raw.outputs@[j].publish_per_activation_mt is None ==> resolved.outputs@[j].budget.fill_mt
            == 1000,
        raw.outputs@[j].publish_capacity_mt matches Some(mt) ==> resolved.outputs@[j].budget.capacity_mt == mt,
        raw.outputs@[j].publish_capacity_mt is None ==> resolved.outputs@[j].budget.capacity_mt
            == 1000,
{
    let scene = surfaces::scene_of(raw, entries, globals, auto_wiring);
    accepted_bindings_pass(raw, entries, globals, auto_wiring, limits);
    output_is_as_written(scene, j);
    assert(resolved.outputs@[j] == scene.output(j));
}

proof fn io_port_is_as_written(scene: Scene, i: int)
    requires
        0 <= i < scene.raw.io_ports@.len(),
        scene.out_fault(scene.raw.outputs@.len() + i) is None,
        scene.sub_fault(scene.raw.subscriptions@.len() + i) is None,
    ensures
        ({
            let port = scene.raw.io_ports@[i];
            let output = scene.output(scene.raw.outputs@.len() + i);
            let input = scene.binding(scene.raw.subscriptions@.len() + i);
            &&& input.channel_address == output.channel_address
            &&& surface_scene::assigned(
                scene.ports,
                scene.raw.slug@,
                port.instance@,
                port.port@,
            ) == Some(output.channel_address)
            &&& input.instance@ == port.instance@ && output.instance@ == port.instance@
            &&& input.port@ == port.port@ && output.port@ == port.port@
            &&& port.urgency matches Some(u) ==> output.default_urgency == u
            &&& port.urgency is None ==> output.default_urgency == Urgency::Normal
            &&& port.publish_per_activation_mt matches Some(mt) ==> output.budget.fill_mt == mt
            &&& port.publish_per_activation_mt is None ==> output.budget.fill_mt == 1000
            &&& port.publish_capacity_mt matches Some(mt) ==> output.budget.capacity_mt == mt
            &&& port.publish_capacity_mt is None ==> output.budget.capacity_mt == 1000
            &&& port.push_depth matches Some(depth) ==> depth == Depth::Bounded(input.push_depth)
            &&& port.noise matches Some(noise) ==> input.noise == noise
        }),
{
    reveal(Scene::input_of);
    let k = scene.raw.subscriptions@.len() + i;
    assert(scene.subs()[k] == surface_rules::io_subscription(scene.raw.io_ports@[i]));
    assert(scene.outs()[scene.raw.outputs@.len() + i] == surface_rules::io_output(
        scene.raw.io_ports@[i],
    ));
}

/// Both halves of an io port are on the one address that lowering gave the port, under its
/// instance and port names; the writing half has the port's urgency and budget.
pub proof fn both_halves_of_an_io_port_share_its_address(
    raw: SurfaceConfigRaw,
    entries: Seq<ChannelEntry>,
    globals: MessagingGlobalConfig,
    auto_wiring: AutoWiring,
    limits: SurfaceLimits,
    resolved: ResolvedSurface,
    i: int,
)
    requires
        surfaces::surface_fault(raw, entries, globals, auto_wiring, limits) is None,
        surfaces::surface_shaped(raw, entries, globals, auto_wiring, limits, resolved),
        0 <= i < raw.io_ports@.len(),
    ensures
        ({
            let port = raw.io_ports@[i];
            let output = resolved.outputs@[raw.outputs@.len() + i];
            let input = resolved.subscriptions@[raw.subscriptions@.len() + i];
            &&& input.channel_address == output.channel_address
            &&& surface_scene::assigned(
                auto_wiring.ports@,
                raw.slug@,
                port.instance@,
                port.port@,
            ) == Some(output.channel_address)
            &&& input.instance@ == port.instance@ && output.instance@ == port.instance@
            &&& input.port@ == port.port@ && output.port@ == port.port@
            &&& port.urgency matches Some(u) ==> output.default_urgency == u
            &&& port.urgency is None ==> output.default_urgency == Urgency::Normal
            &&& port.publish_per_activation_mt matches Some(mt) ==> output.budget.fill_mt == mt
            &&& port.publish_per_activation_mt is None ==> output.budget.fill_mt == 1000
            &&& port.publish_capacity_mt matches Some(mt) ==> output.budget.capacity_mt == mt
            &&& port.publish_capacity_mt is None ==> output.budget.capacity_mt == 1000
            &&& port.push_depth matches Some(depth) ==> depth == Depth::Bounded(input.push_depth)
            &&& port.noise matches Some(noise) ==> input.noise == noise
        }),
{
    let scene = surfaces::scene_of(raw, entries, globals, auto_wiring);
    accepted_bindings_pass(raw, entries, globals, auto_wiring, limits);
    io_port_is_as_written(scene, i);
    assert(resolved.outputs@[raw.outputs@.len() + i] == scene.output(raw.outputs@.len() + i));
    assert(resolved.subscriptions@[raw.subscriptions@.len() + i] == scene.binding(
        raw.subscriptions@.len() + i,
    ));
}

proof fn input_is_as_written(scene: Scene, j: int)
    requires
        0 <= j < scene.raw.subscriptions@.len(),
        scene.sub_fault(j) is None,
    ensures
        ({
            let sub = scene.raw.subscriptions@[j];
            let input = scene.binding(j);
            &&& input.instance@ == sub.instance@
            &&& input.port@ == sub.port@
            &&& sub.channel matches Some(channel) ==> input.channel_address@ == channel@
            &&& sub.channel is None ==> surface_scene::assigned(
                scene.ports,
                scene.raw.slug@,
                sub.instance@,
                sub.port@,
            ) == Some(input.channel_address)
            &&& sub.wake_min is None
            &&& sub.push_depth matches Some(depth) ==> depth == Depth::Bounded(input.push_depth)
            &&& sub.noise matches Some(noise) ==> input.noise == noise
        }),
        "local:"@.is_prefix_of(scene.binding(j).channel_address@) ==> {
            let sub = scene.raw.subscriptions@[j];
            let input = scene.binding(j);
            &&& sub.push_depth is None ==> scene.globals.default_push_depth == Depth::Bounded(
                input.push_depth,
            )
            &&& sub.noise is None ==> input.noise == scene.globals.default_noise
            &&& match address::reserved_plane(input.channel_address@) {
                Some(plane) => sub.retain_depth is None && input.retain_depth == plane.ring_depth,
                None => match sub.retain_depth {
                    None => input.retain_depth == 1,
                    Some(Depth::Unbounded) => false,
                    Some(Depth::Bounded(n)) => input.retain_depth >= 1 && input.retain_depth >= n
                        && (input.retain_depth == n || n == 0),
                },
            }
        },
        !"local:"@.is_prefix_of(scene.binding(j).channel_address@) ==> {
            let sub = scene.raw.subscriptions@[j];
            let input = scene.binding(j);
            &&& directory::channel_at(scene.entries, input.channel_address@) matches Some(entry)
            &&& sub.push_depth is None ==> entry.resolved_channel.push_depth == Depth::Bounded(
                input.push_depth,
            )
            &&& sub.retain_depth matches Some(depth) ==> depth == Depth::Bounded(input.retain_depth)
            &&& sub.retain_depth is None ==> entry.resolved_channel.retain_depth == Depth::Bounded(
                input.retain_depth,
            )
            &&& sub.noise is None ==> input.noise == entry.resolved_channel.noise
        },
{
    reveal(Scene::input_of);
}

/// Every accepted input is that of the declared input in its place: instance, port, channel where
/// one is written, and the depth, context and noise the operator states. What they do not state
/// is the channel's own on the bus; in the page the queue and the noise are the global ones, and
/// the context is one message, or the plane's ring.
pub proof fn accepted_inputs_are_as_written(
    raw: SurfaceConfigRaw,
    entries: Seq<ChannelEntry>,
    globals: MessagingGlobalConfig,
    auto_wiring: AutoWiring,
    limits: SurfaceLimits,
    resolved: ResolvedSurface,
    j: int,
)
    requires
        surfaces::surface_fault(raw, entries, globals, auto_wiring, limits) is None,
        surfaces::surface_shaped(raw, entries, globals, auto_wiring, limits, resolved),
        0 <= j < raw.subscriptions@.len(),
    ensures
        ({
            let sub = raw.subscriptions@[j];
            let input = resolved.subscriptions@[j];
            &&& input.instance@ == sub.instance@
            &&& input.port@ == sub.port@
            &&& sub.channel matches Some(channel) ==> input.channel_address@ == channel@
            &&& sub.channel is None ==> surface_scene::assigned(
                auto_wiring.ports@,
                raw.slug@,
                sub.instance@,
                sub.port@,
            ) == Some(input.channel_address)
            &&& sub.wake_min is None
            &&& sub.push_depth matches Some(depth) ==> depth == Depth::Bounded(input.push_depth)
            &&& sub.noise matches Some(noise) ==> input.noise == noise
        }),
        "local:"@.is_prefix_of(resolved.subscriptions@[j].channel_address@) ==> {
            let sub = raw.subscriptions@[j];
            let input = resolved.subscriptions@[j];
            &&& sub.push_depth is None ==> globals.default_push_depth == Depth::Bounded(
                input.push_depth,
            )
            &&& sub.noise is None ==> input.noise == globals.default_noise
            &&& match address::reserved_plane(input.channel_address@) {
                Some(plane) => sub.retain_depth is None && input.retain_depth == plane.ring_depth,
                None => match sub.retain_depth {
                    None => input.retain_depth == 1,
                    Some(Depth::Unbounded) => false,
                    Some(Depth::Bounded(n)) => input.retain_depth >= 1 && input.retain_depth >= n
                        && (input.retain_depth == n || n == 0),
                },
            }
        },
        !"local:"@.is_prefix_of(resolved.subscriptions@[j].channel_address@) ==> {
            let sub = raw.subscriptions@[j];
            let input = resolved.subscriptions@[j];
            &&& directory::channel_at(entries, input.channel_address@) matches Some(entry)
            &&& sub.push_depth is None ==> entry.resolved_channel.push_depth == Depth::Bounded(
                input.push_depth,
            )
            &&& sub.retain_depth matches Some(depth) ==> depth == Depth::Bounded(input.retain_depth)
            &&& sub.retain_depth is None ==> entry.resolved_channel.retain_depth == Depth::Bounded(
                input.retain_depth,
            )
            &&& sub.noise is None ==> input.noise == entry.resolved_channel.noise
        },
{
    let scene = surfaces::scene_of(raw, entries, globals, auto_wiring);
    accepted_bindings_pass(raw, entries, globals, auto_wiring, limits);
    input_is_as_written(scene, j);
    assert(resolved.subscriptions@[j] == scene.binding(j));
}

proof fn accepted_bindings_pass(
    raw: SurfaceConfigRaw,
    entries: Seq<ChannelEntry>,
    globals: MessagingGlobalConfig,
    auto_wiring: AutoWiring,
    limits: SurfaceLimits,
)
    requires
        surfaces::surface_fault(raw, entries, globals, auto_wiring, limits) is None,
    ensures
        ({
            let scene = surfaces::scene_of(raw, entries, globals, auto_wiring);
            &&& forall|j: int|
                0 <= j < scene.subs().len() ==> (#[trigger] scene.sub_fault(j)) is None
            &&& forall|j: int|
                0 <= j < scene.outs().len() ==> (#[trigger] scene.out_fault(j)) is None
        }),
{
    let scene = surfaces::scene_of(raw, entries, globals, auto_wiring);
    model::first_fault_is_first(scene.sub_faults(), scene.subs().len());
    model::first_fault_is_first(scene.out_faults(), scene.outs().len());
    assert forall|j: int| 0 <= j < scene.subs().len() implies (#[trigger] scene.sub_fault(j)) is None by {
        assert(scene.sub_faults()(j) is None);
    }
    assert forall|j: int| 0 <= j < scene.outs().len() implies (#[trigger] scene.out_fault(j)) is None by {
        assert(scene.out_faults()(j) is None);
    }
}

/// The subscription that an accepted bus input installs is on the input's own channel, with the
/// channel's uuid and wake threshold and the input's own windows and noise; a page-local input
/// installs none.
pub proof fn accepted_inputs_install_their_own_windows(scene: Scene, j: int)
    requires
        0 <= j < scene.subs().len(),
        scene.sub_fault(j) is None,
    ensures
        "local:"@.is_prefix_of(scene.binding(j).channel_address@) ==> scene.wire_at(j) is None,
        !"local:"@.is_prefix_of(scene.binding(j).channel_address@) ==> {
            let input = scene.binding(j);
            &&& scene.wire_at(j) matches Some(wire)
            &&& directory::channel_at(scene.entries, input.channel_address@) matches Some(entry)
            &&& wire.channel_uuid == entry.uuid
            &&& wire.channel_address == entry.address
            &&& wire.wake_min == entry.resolved_channel.wake_min
            &&& wire.push_depth == Depth::Bounded(input.push_depth)
            &&& wire.retain_depth == Depth::Bounded(input.retain_depth)
            &&& wire.noise == input.noise
        },
{
    reveal(Scene::input_of);
}

/// A surface's header is refused exactly where its slug is empty or holds a character that is not
/// unreserved, or it has no component; each fault says which.
pub proof fn each_surface_header_fault_has_its_reason(raw: SurfaceConfigRaw)
    ensures
        surfaces::header_fault(raw) is None <==> raw.slug@.len() > 0 && (forall|i: int|
            0 <= i < raw.slug@.len() ==> address::unreserved(#[trigger] raw.slug@[i]))
            && raw.components@.len() > 0,
        surfaces::header_fault(raw) == Some(SurfaceFaultKind::EmptySlug) <==> raw.slug@.len() == 0,
        surfaces::header_fault(raw) == Some(SurfaceFaultKind::SlugCharset) <==> exists|i: int|
            0 <= i < raw.slug@.len() && !address::unreserved(#[trigger] raw.slug@[i]),
        surfaces::header_fault(raw) == Some(SurfaceFaultKind::NoComponents)
            ==> raw.components@.len() == 0,
        surfaces::header_fault(raw) matches Some(kind) ==> kind == SurfaceFaultKind::EmptySlug
            || kind == SurfaceFaultKind::SlugCharset || kind == SurfaceFaultKind::NoComponents,
{
}

/// A component's names are refused exactly where its kind is empty or badly shaped, its instance
/// id is badly shaped, or an earlier component has the id; what else it states is refused exactly
/// where one of its own knobs is.
pub proof fn each_component_fault_has_its_reason(
    raw: SurfaceConfigRaw,
    limits: SurfaceLimits,
    j: int,
    instance: Seq<char>,
)
    requires
        raw.components@[j].instance matches Some(id) ==> instance == id@,
        raw.components@[j].instance is None ==> instance == raw.components@[j].kind@,
    ensures
        surfaces::component_fault(raw, limits, j) == Some(SurfaceFaultKind::EmptyKind)
            <==> raw.components@[j].kind@.len() == 0,
        surfaces::component_fault(raw, limits, j) == Some(SurfaceFaultKind::KindShape)
            <==> raw.components@[j].kind@.len() > 0 && !address::kind_shaped(
            raw.components@[j].kind@,
        ),
        surfaces::component_fault(raw, limits, j) == Some(SurfaceFaultKind::InstanceShape)
            ==> !address::kind_shaped(instance),
        surfaces::component_fault(raw, limits, j) == Some(SurfaceFaultKind::DuplicateInstance)
            ==> exists|k: int|
            0 <= k < j && surface_rules::instance_of(#[trigger] raw.components@[k])@ == instance,
        surfaces::component_fault(raw, limits, j) is None <==> {
            &&& address::kind_shaped(raw.components@[j].kind@)
            &&& address::kind_shaped(instance)
            &&& forall|k: int|
                0 <= k < j ==> surface_rules::instance_of(#[trigger] raw.components@[k])@
                    != instance
            &&& surface_rules::abi_of(raw.components@[j].abi@) matches Ok(abi)
                && surface_rules::config_fault(abi, raw.components@[j].config) is None
            &&& surface_rules::send_budget_of(
                raw.components@[j].send_burst,
                raw.components@[j].send_refill_secs,
                limits.default_send,
            ) is Ok
            &&& surface_rules::parked_depth_of(raw.components@[j].parked_batch_depth) is Ok
        },
{
}

/// Of the four known ABIs the shell loads two; the other two are refused as unsupported, every
/// other name as unknown.
pub proof fn the_shell_loads_two_abis(name: Seq<char>)
    ensures
        surface_rules::abi_of("dom"@) == Ok::<Abi, SurfaceFaultKind>(Abi::Dom),
        surface_rules::abi_of("processor"@) == Ok::<Abi, SurfaceFaultKind>(Abi::Processor),
        surface_rules::abi_of("dom-ts"@) == Err::<Abi, SurfaceFaultKind>(
            SurfaceFaultKind::UnsupportedAbi,
        ),
        surface_rules::abi_of("html"@) == Err::<Abi, SurfaceFaultKind>(
            SurfaceFaultKind::UnsupportedAbi,
        ),
        name != "dom"@ && name != "processor"@ && name != "dom-ts"@ && name != "html"@
            ==> surface_rules::abi_of(name) == Err::<Abi, SurfaceFaultKind>(
            SurfaceFaultKind::UnknownAbi,
        ),
{
    reveal_strlit("dom");
    reveal_strlit("processor");
    reveal_strlit("dom-ts");
    reveal_strlit("html");
    assert("dom"@.len() == 3 && "processor"@.len() == 9 && "dom-ts"@.len() == 6 && "html"@.len()
        == 4);
}

/// A static map is refused exactly where the component is no processor or a key begins with
/// `brenn.`; no map is never refused.
pub proof fn static_maps_are_for_processors(abi: Abi, map: Vec<(String, String)>)
    ensures
        surface_rules::config_fault(abi, None) is None,
        surface_rules::config_fault(abi, Some(map)) == Some(SurfaceFaultKind::ConfigWithoutReader)
            <==> abi != Abi::Processor,
        surface_rules::config_fault(Abi::Processor, Some(map)) == Some(
            SurfaceFaultKind::ReservedConfigKey,
        ) <==> exists|i: int|
            0 <= i < map@.len() && "brenn."@.is_prefix_of((#[trigger] map@[i]).0@),
        surface_rules::config_fault(Abi::Processor, Some(map)) is None <==> forall|i: int|
            0 <= i < map@.len() ==> !"brenn."@.is_prefix_of((#[trigger] map@[i]).0@),
{
    let entries = surface_rules::config_entries(Some(map));
    assert(entries == map@);
    assert forall|i: int| 0 <= i < map@.len() implies surface_rules::host_key(
        (#[trigger] map@[i]).0@,
    ) == "brenn."@.is_prefix_of(map@[i].0@) by {}
    if exists|i: int| 0 <= i < map@.len() && "brenn."@.is_prefix_of((#[trigger] map@[i]).0@) {
        let i = choose|i: int|
            0 <= i < map@.len() && "brenn."@.is_prefix_of((#[trigger] map@[i]).0@);
        assert(surface_rules::host_key(entries[i].0@));
    }
}

/// A send budget is refused exactly where its burst is zero, does not hold one maximal flush of
/// 256 publishes, or never refills; each fault says which.
pub proof fn each_send_budget_fault_has_its_reason(
    burst: Option<u32>,
    refill: Option<u64>,
    default: AttachSendBudget,
    settled: AttachSendBudget,
)
    requires
        burst matches Some(b) ==> settled.burst == b,
        burst is None ==> settled.burst == default.burst,
        refill matches Some(s) ==> settled.refill_secs == s,
        refill is None ==> settled.refill_secs == default.refill_secs,
    ensures
        surface_rules::send_budget_of(burst, refill, default) == (if settled.burst == 0 {
            Err(SurfaceFaultKind::ZeroSendBurst)
        } else if settled.burst < 256 {
            Err(SurfaceFaultKind::SendBurstBelowFlush)
        } else if settled.refill_secs == 0 {
            Err(SurfaceFaultKind::ZeroSendRefill)
        } else {
            Ok(settled)
        }),
{
}

/// A number of parked flushes is refused exactly where it is unbounded or zero; each fault says
/// which.
pub proof fn each_parking_fault_has_its_reason(depth: u64)
    ensures
        surface_rules::parked_depth_of(None) == Ok::<u64, SurfaceFaultKind>(8),
        surface_rules::parked_depth_of(Some(Depth::Unbounded)) == Err::<u64, SurfaceFaultKind>(
            SurfaceFaultKind::UnboundedParkedBatches,
        ),
        surface_rules::parked_depth_of(Some(Depth::Bounded(0))) == Err::<u64, SurfaceFaultKind>(
            SurfaceFaultKind::ZeroParkedBatches,
        ),
        depth > 0 ==> surface_rules::parked_depth_of(Some(Depth::Bounded(depth))) == Ok::<
            u64,
            SurfaceFaultKind,
        >(depth),
{
}

/// A user is refused exactly where the name is empty or listed before; each fault says which.
pub proof fn each_user_fault_has_its_reason(users: Seq<String>, j: int)
    ensures
        surfaces::user_fault(users, j) == Some(SurfaceFaultKind::EmptyUser) <==> users[j]@.len()
            == 0,
        surfaces::user_fault(users, j) is None <==> users[j]@.len() > 0 && forall|k: int|
            0 <= k < j ==> (#[trigger] users[k])@ != users[j]@,
        surfaces::user_fault(users, j) matches Some(kind) ==> kind == SurfaceFaultKind::EmptyUser
            || kind == SurfaceFaultKind::DuplicateUser,
{
}

/// A surface's publish budget is refused exactly where the send rate is not per second, a knob is
/// zero, or a knob is above what one sender may do; each fault says which.
pub proof fn each_publish_budget_fault_has_its_reason(
    raw: SurfaceConfigRaw,
    globals: MessagingGlobalConfig,
    limits: SurfaceLimits,
    burst: u32,
    rate: u32,
)
    requires
        raw.publish_burst matches Some(b) ==> burst == b,
        raw.publish_burst is None ==> burst == limits.default_publish_burst,
        raw.publish_per_sec matches Some(r) ==> rate == r,
        raw.publish_per_sec is None ==> rate == limits.default_publish_per_sec,
    ensures
        surfaces::budget_fault(raw, globals, limits) is None <==> {
            &&& globals.default_send_rate.refill_interval_secs == 1
            &&& 1 <= burst <= globals.default_send_rate.burst
            &&& 1 <= rate <= globals.default_send_rate.refill
        },
        surfaces::budget_fault(raw, globals, limits) == Some(SurfaceFaultKind::SendRateInterval)
            <==> globals.default_send_rate.refill_interval_secs != 1,
        surfaces::budget_fault(raw, globals, limits) == Some(SurfaceFaultKind::ZeroPublishBurst)
            ==> burst == 0,
        surfaces::budget_fault(raw, globals, limits) == Some(SurfaceFaultKind::ZeroPublishPerSec)
            ==> rate == 0,
        surfaces::budget_fault(raw, globals, limits) == Some(SurfaceFaultKind::PublishBurstCeiling)
            ==> burst > globals.default_send_rate.burst,
        surfaces::budget_fault(raw, globals, limits) == Some(SurfaceFaultKind::PublishPerSecCeiling)
            ==> rate > globals.default_send_rate.refill,
        surfaces::budget_fault(raw, globals, limits) matches Some(kind) ==> kind
            == SurfaceFaultKind::SendRateInterval || kind == SurfaceFaultKind::ZeroPublishBurst
            || kind == SurfaceFaultKind::ZeroPublishPerSec || kind
            == SurfaceFaultKind::PublishBurstCeiling || kind
            == SurfaceFaultKind::PublishPerSecCeiling,
{
}

/// The names a binding uses are refused exactly where no component has its instance id, its port
/// is empty or badly spelt, its bus channel is unknown or of another transport, its page-local
/// channel has no name, names no plane of the reserved namespace or is badly spelt, or the
/// channel is of no transport a page can be on; each fault says which.
pub proof fn each_binding_name_fault_has_its_reason(
    scene: Scene,
    name: Seq<char>,
    instance: Seq<char>,
    port: Seq<char>,
)
    ensures
        scene.shape_fault(name, instance, port) == Some(SurfaceFaultKind::UndeclaredInstance)
            <==> !scene.declares(instance),
        scene.shape_fault(name, instance, port) == Some(SurfaceFaultKind::EmptyPort)
            <==> scene.declares(instance) && port.len() == 0,
        scene.shape_fault(name, instance, port) == Some(SurfaceFaultKind::PortCharset)
            <==> scene.declares(instance) && exists|i: int|
            0 <= i < port.len() && !address::unreserved(#[trigger] port[i]),
        scene.declares(instance) && port.len() > 0 && address::all_unreserved(port) ==> {
            &&& scene.shape_fault("brenn:"@ + name, instance, port) == (match directory::channel_at(
                scene.entries,
                "brenn:"@ + name,
            ) {
                None => Some(SurfaceFaultKind::UnknownChannel),
                Some(entry) => if entry.transport_type == ChannelScheme::Brenn {
                    None
                } else {
                    Some(SurfaceFaultKind::WrongTransport)
                },
            })
            &&& scene.shape_fault("ephemeral:"@ + name, instance, port) == (
            match directory::channel_at(scene.entries, "ephemeral:"@ + name) {
                None => Some(SurfaceFaultKind::UnknownChannel),
                Some(entry) => if entry.transport_type == ChannelScheme::Ephemeral {
                    None
                } else {
                    Some(SurfaceFaultKind::WrongTransport)
                },
            })
            &&& scene.shape_fault("mqtt:"@ + name, instance, port) == Some(
                SurfaceFaultKind::SchemeRefused,
            )
            &&& scene.shape_fault("webhook:"@ + name, instance, port) == Some(
                SurfaceFaultKind::SchemeRefused,
            )
            &&& address::scheme_of(name) is None ==> scene.shape_fault(name, instance, port)
                == Some(SurfaceFaultKind::SchemeRefused)
            &&& scene.shape_fault("local:"@ + name, instance, port) == Some(
                SurfaceFaultKind::EmptyLocalName,
            ) <==> name.len() == 0
            &&& name.len() > 0 && address::all_unreserved(name) ==> scene.shape_fault(
                "local:"@ + name,
                instance,
                port,
            ) is None
            &&& address::reserved_plane("local:"@ + name) is Some && name.len() > 0
                ==> scene.shape_fault("local:"@ + name, instance, port) is None
            &&& scene.shape_fault("local:"@ + name, instance, port) == Some(
                SurfaceFaultKind::UndefinedPlane,
            ) ==> address::in_reserved_namespace("local:"@ + name) && address::reserved_plane(
                "local:"@ + name,
            ) is None
            &&& scene.shape_fault("local:"@ + name, instance, port) == Some(
                SurfaceFaultKind::LocalCharset,
            ) ==> !address::all_unreserved(name)
            &&& scene.shape_fault("local:"@ + name, instance, port) is None ==> name.len() > 0 && (
            address::reserved_plane("local:"@ + name) is Some || (
            !address::in_reserved_namespace("local:"@ + name) && address::all_unreserved(name)))
        },
{
    address::an_address_is_its_prefix_and_its_name(name);
    address::the_reserved_planes_are_five("local:"@ + name);
    if address::all_unreserved(name) {
        let address = "local:"@ + name;
        assert(ChannelScheme::Local.names(address)) by {
            assert(address.subrange(0, "local:"@.len() as int) =~= "local:"@);
        }
        address::declared_locals_avoid_the_reserved_namespace(address);
    }
}

/// A control plane is refused exactly where it takes the takeover grant and the surface has none,
/// or the binding would publish and only the kernel may; other channels are never refused as
/// planes.
pub proof fn each_plane_fault_has_its_reason(scene: Scene, channel: Seq<char>, is_output: bool)
    ensures
        scene.plane_fault(channel, is_output) == Some(SurfaceFaultKind::TakeoverGrantMissing)
            <==> channel == "local:brenn/takeover"@ && !scene.policy.grants.contains(
            AppCapability::SurfaceTakeover,
        ),
        scene.plane_fault(channel, is_output) == Some(SurfaceFaultKind::KernelPlane)
            <==> is_output && (channel == "local:brenn/link-state"@ || channel
            == "local:brenn/surface-state"@ || channel == "local:brenn/toast"@),
        scene.plane_fault(channel, is_output) matches Some(kind) ==> kind
            == SurfaceFaultKind::TakeoverGrantMissing || kind == SurfaceFaultKind::KernelPlane,
{
    address::the_reserved_planes_are_five(channel);
    reveal_strlit("local:brenn/takeover");
    reveal_strlit("local:brenn/link-state");
    reveal_strlit("local:brenn/surface-state");
    reveal_strlit("local:brenn/toast");
    reveal_strlit("local:brenn/theme");
    assert("local:brenn/theme"@[13] == 'h' && "local:brenn/toast"@[13] == 'o');
    assert("local:brenn/takeover"@.len() == 20 && "local:brenn/link-state"@.len() == 22
        && "local:brenn/surface-state"@.len() == 25 && "local:brenn/toast"@.len() == 17
        && "local:brenn/theme"@.len() == 17);
}

/// A bus input is refused where the policy does not deliver there, where it sets a wake threshold,
/// where the channel keeps nothing, or where its queue or its context is unbounded; else it comes
/// to bounded windows.
pub proof fn each_bus_input_fault_has_its_reason(
    scene: Scene,
    sub: SurfaceSubscriptionRaw,
    channel: Seq<char>,
    entry: ChannelEntry,
    push: Depth,
    retain: Depth,
)
    requires
        !ChannelScheme::Local.names(channel),
        directory::channel_at(scene.entries, channel) == Some(entry),
        sub.push_depth matches Some(d) ==> push == d,
        sub.push_depth is None ==> push == entry.resolved_channel.push_depth,
        sub.retain_depth matches Some(d) ==> retain == d,
        sub.retain_depth is None ==> retain == entry.resolved_channel.retain_depth,
    ensures
        scene.input_of(sub, channel) is Ok <==> {
            &&& scene.policy.delivers_on(channel)
            &&& sub.wake_min is None
            &&& entry.resolved_channel.retain_depth != Depth::Bounded(0)
            &&& push is Bounded
            &&& retain is Bounded
        },
        scene.input_of(sub, channel) == Err::<surface_scene::InputKnobs, SurfaceFaultKind>(
            SurfaceFaultKind::NotAuthorized,
        ) <==> !scene.policy.delivers_on(channel),
        scene.input_of(sub, channel) matches Err(kind) ==> {
            &&& kind == SurfaceFaultKind::WakeMinSet ==> sub.wake_min is Some
            &&& kind == SurfaceFaultKind::ChannelRetainsNothing
                ==> entry.resolved_channel.retain_depth == Depth::Bounded(0)
            &&& kind == SurfaceFaultKind::UnboundedQueue ==> push is Unbounded
            &&& kind == SurfaceFaultKind::UnboundedContext ==> retain is Unbounded
            &&& kind == SurfaceFaultKind::NotAuthorized || kind == SurfaceFaultKind::WakeMinSet
                || kind == SurfaceFaultKind::ChannelRetainsNothing || kind
                == SurfaceFaultKind::UnboundedQueue || kind == SurfaceFaultKind::UnboundedContext
        },
{
    reveal(Scene::input_of);
}

/// A page-local input is refused where it sets a wake threshold, its plane is refused, it states
/// a context on a plane or an unbounded one elsewhere, or its queue is unbounded; else it comes
/// to bounded windows.
pub proof fn each_page_input_fault_has_its_reason(
    scene: Scene,
    sub: SurfaceSubscriptionRaw,
    channel: Seq<char>,
    push: Depth,
)
    requires
        ChannelScheme::Local.names(channel),
        sub.push_depth matches Some(d) ==> push == d,
        sub.push_depth is None ==> push == scene.globals.default_push_depth,
    ensures
        scene.input_of(sub, channel) is Ok <==> {
            &&& sub.wake_min is None
            &&& scene.plane_fault(channel, false) is None
            &&& address::reserved_plane(channel) is Some ==> sub.retain_depth is None
            &&& sub.retain_depth != Some(Depth::Unbounded)
            &&& push is Bounded
        },
        scene.input_of(sub, channel) matches Err(kind) ==> {
            &&& kind == SurfaceFaultKind::WakeMinSet ==> sub.wake_min is Some
            &&& kind == SurfaceFaultKind::PlaneRetainFixed ==> address::reserved_plane(channel)
                is Some && sub.retain_depth is Some
            &&& kind == SurfaceFaultKind::UnboundedRing ==> sub.retain_depth == Some(
                Depth::Unbounded,
            )
            &&& kind == SurfaceFaultKind::UnboundedQueue ==> push is Unbounded
            &&& kind == SurfaceFaultKind::WakeMinSet || kind == SurfaceFaultKind::PlaneRetainFixed
                || kind == SurfaceFaultKind::UnboundedRing || kind
                == SurfaceFaultKind::UnboundedQueue || scene.plane_fault(channel, false) == Some(
                kind,
            )
        },
{
    reveal(Scene::input_of);
}

/// A settled input is refused exactly where it has no queue and states a noise, or has neither a
/// queue nor a context; each fault says which.
pub proof fn each_port_fault_has_its_reason(push: u64, retain: u64, noise: Option<NoiseLevel>)
    ensures
        surface_rules::port_fault(push, retain, noise) == Some(SurfaceFaultKind::NoiseWithoutQueue)
            <==> push == 0 && noise is Some,
        surface_rules::port_fault(push, retain, noise) == Some(SurfaceFaultKind::DeadPort) <==> push
            == 0 && noise is None && retain == 0,
        surface_rules::port_fault(push, retain, noise) is None <==> push > 0 || (noise is None
            && retain > 0),
{
}

/// An input binding is accepted exactly where its port has one channel, its names are in order,
/// no earlier input has its instance and port, it comes to windows, agrees with what its instance
/// has on the channel already, is loud only with the alert grant, and is not dead.
pub proof fn an_input_is_accepted_where_every_check_passes(scene: Scene, j: int)
    ensures
        scene.sub_fault(j) is None <==> {
            &&& scene.sub_channel(j) matches Ok(channel)
            &&& scene.shape_fault(
                channel@,
                scene.subs()[j].instance@,
                scene.subs()[j].port@,
            ) is None
            &&& forall|k: int|
                0 <= k < j ==> (#[trigger] scene.subs()[k]).instance@ != scene.subs()[j].instance@
                    || scene.subs()[k].port@ != scene.subs()[j].port@
            &&& scene.input_of(scene.subs()[j], channel@) matches Ok(knobs)
            &&& !scene.noise_conflict(j)
            &&& (knobs.noise == NoiseLevel::Alarm || knobs.noise == NoiseLevel::Fatal)
                ==> scene.policy.grants.contains(AppCapability::SurfaceAlert)
            &&& knobs.push_depth > 0 || (scene.subs()[j].noise is None && knobs.retain_depth > 0)
        },
{
}

/// An output binding is accepted exactly where its port has one channel, its names are in order,
/// no earlier output has its instance and port, and its plane, if it is on one, is not refused.
pub proof fn an_output_is_accepted_where_every_check_passes(scene: Scene, j: int)
    ensures
        scene.out_fault(j) is None <==> {
            &&& scene.out_channel(j) matches Ok(channel)
            &&& scene.shape_fault(
                channel@,
                scene.outs()[j].instance@,
                scene.outs()[j].port@,
            ) is None
            &&& forall|k: int|
                0 <= k < j ==> (#[trigger] scene.outs()[k]).instance@ != scene.outs()[j].instance@
                    || scene.outs()[k].port@ != scene.outs()[j].port@
            &&& "local:"@.is_prefix_of(channel@) ==> scene.plane_fault(channel@, true) is None
        },
{
}

/// A port has its channel from the operator or from lowering, never from both and never from
/// neither.
pub proof fn a_port_has_one_channel(authored: Option<String>, derived: Option<String>)
    ensures
        surface_rules::bound(authored, derived) is Ok <==> (authored is Some) != (derived is Some),
        authored is Some && derived is Some ==> surface_rules::bound(authored, derived) == Err::<
            String,
            SurfaceFaultKind,
        >(SurfaceFaultKind::PortClaimedTwice),
        authored is None && derived is None ==> surface_rules::bound(authored, derived) == Err::<
            String,
            SurfaceFaultKind,
        >(SurfaceFaultKind::UnboundPort),
        surface_rules::bound(authored, derived) matches Ok(channel) ==> authored == Some(channel)
            || derived == Some(channel),
{
}

/// A surface is accepted exactly where its header, every component, every user and its publish
/// budget are in order, one component is the chrome, its skin is compiled in, every input and
/// every output is accepted, every component with inputs can be activated, and it keeps to the
/// shell's two limits.
pub proof fn a_surface_is_accepted_where_every_check_passes(
    raw: SurfaceConfigRaw,
    entries: Seq<ChannelEntry>,
    globals: MessagingGlobalConfig,
    auto_wiring: AutoWiring,
    limits: SurfaceLimits,
)
    ensures
        surfaces::surface_fault(raw, entries, globals, auto_wiring, limits) is None <==> {
            let scene = surfaces::scene_of(raw, entries, globals, auto_wiring);
            &&& surfaces::header_fault(raw) is None
            &&& forall|j: int|
                0 <= j < raw.components@.len() ==> (#[trigger] surfaces::component_fault(
                    raw,
                    limits,
                    j,
                )) is None
            &&& surface_scene::chrome_count(raw.components@) == 1
            &&& forall|j: int|
                0 <= j < raw.allowed_users@.len() ==> (#[trigger] surfaces::user_fault(
                    raw.allowed_users@,
                    j,
                )) is None
            &&& surfaces::budget_fault(raw, globals, limits) is None
            &&& exists|i: int|
                0 <= i < limits.skins@.len() && (#[trigger] limits.skins@[i])@
                    == surfaces::skin_of(raw)
            &&& forall|j: int|
                0 <= j < scene.subs().len() ==> (#[trigger] scene.sub_fault(j)) is None
            &&& forall|j: int|
                0 <= j < raw.components@.len() ==> (#[trigger] surfaces::activation_fault(
                    scene,
                    j,
                )) is None
            &&& raw.subscriptions@.len() + raw.io_ports@.len() <= limits.max_subscription_bindings
            &&& raw.components@.len() <= limits.max_components
            &&& forall|j: int|
                0 <= j < scene.outs().len() ==> (#[trigger] scene.out_fault(j)) is None
        },
{
    let scene = surfaces::scene_of(raw, entries, globals, auto_wiring);
    let n = raw.components@.len();
    let components = surfaces::component_faults(raw, limits);
    let users = surfaces::user_faults(raw.allowed_users@);
    let activations = surfaces::activation_faults(scene);
    let subs = scene.sub_faults();
    let outs = scene.out_faults();
    model::first_fault_is_first(components, n);
    model::first_fault_is_first(users, raw.allowed_users@.len());
    model::first_fault_is_first(activations, n);
    model::first_fault_is_first(subs, scene.subs().len());
    model::first_fault_is_first(outs, scene.outs().len());
    assert forall|j: int| #[trigger] surfaces::component_fault(raw, limits, j) == components(j) by {}
    assert forall|j: int| #[trigger] surfaces::user_fault(raw.allowed_users@, j) == users(j) by {}
    assert forall|j: int| #[trigger] surfaces::activation_fault(scene, j) == activations(j) by {}
    assert forall|j: int| #[trigger] scene.sub_fault(j) == subs(j) by {}
    assert forall|j: int| #[trigger] scene.out_fault(j) == outs(j) by {}
    assert(scene.subs().len() == raw.subscriptions@.len() + raw.io_ports@.len());
    let skins = policy::texts(limits.skins@);
    let skin = surfaces::skin_of(raw);
    if skins.contains(skin) {
        let i = choose|i: int| 0 <= i < skins.len() && skins[i] == skin;
        assert(limits.skins@[i]@ == skin);
    }
    assert forall|i: int| 0 <= i < limits.skins@.len() && (#[trigger] limits.skins@[i])@
        == skin implies skins.contains(skin) by {
        assert(skins[i] == skin);
    }
}

/// Exactly one component is the chrome where the count is one: some component is, and no other.
pub proof fn one_chrome_is_one_component(components: Seq<SurfaceComponentRaw>)
    ensures
        surface_scene::chrome_count(components) == 0 <==> forall|i: int|
            0 <= i < components.len() ==> !(#[trigger] components[i]).chrome,
        surface_scene::chrome_count(components) == 1 ==> exists|i: int|
            0 <= i < components.len() && (#[trigger] components[i]).chrome && forall|k: int|
                0 <= k < components.len() && k != i ==> !(#[trigger] components[k]).chrome,
        forall|i: int, k: int|
            0 <= i < k < components.len() && (#[trigger] components[i]).chrome && (
            #[trigger] components[k]).chrome ==> surface_scene::chrome_count(components) >= 2,
    decreases components.len(),
{
    if components.len() > 0 {
        let rest = components.drop_last();
        one_chrome_is_one_component(rest);
        assert forall|i: int| 0 <= i < rest.len() implies #[trigger] components[i] == rest[i] by {}
        assert(components.last() == components[components.len() - 1]);
        if surface_scene::chrome_count(components) == 1 && !components.last().chrome {
            let i = choose|i: int|
                0 <= i < rest.len() && (#[trigger] rest[i]).chrome && forall|k: int|
                    0 <= k < rest.len() && k != i ==> !(#[trigger] rest[k]).chrome;
            assert(components[i].chrome);
        }
    }
}

/// An instance can be activated unless it has inputs and none of them has a queue.
pub proof fn inputs_without_a_queue_never_activate(depths: Seq<u64>)
    ensures
        surface_rules::never_activates(depths) <==> depths.len() > 0 && !(exists|i: int|
            0 <= i < depths.len() && #[trigger] depths[i] > 0),
{
    if depths.len() > 0 && !surface_rules::never_activates(depths) {
        let i = choose|i: int| 0 <= i < depths.len() && #[trigger] depths[i] != 0;
        assert(depths[i] > 0);
    }
}

proof fn wire_positions_are_places(
    list: Seq<ResolvedSurfaceSubscription>,
    instance: Seq<char>,
    uuid: u128,
)
    ensures
        0 <= surface_scene::wire_position(list, instance, uuid) <= list.len(),
    decreases list.len(),
{
    if list.len() > 0 {
        wire_positions_are_places(list.drop_first(), instance, uuid);
    }
}

/// A subscription that several bindings of an instance share is on the channel of the first of
/// them: same instance, uuid, address and wake threshold.
pub proof fn shared_subscriptions_keep_their_channel(scene: Scene, n: nat, i: int)
    requires
        n <= scene.subs().len(),
        0 <= i < scene.wires(n).len(),
    ensures
        exists|k: int|
            0 <= k < n && {
                let shared = scene.wires(n)[i];
                &&& (#[trigger] scene.wire_at(k)) matches Some(wire)
                &&& shared.instance@ == scene.subs()[k].instance@
                &&& shared.subscription.channel_uuid == wire.channel_uuid
                &&& shared.subscription.channel_address@ == wire.channel_address@
                &&& shared.subscription.wake_min == wire.wake_min
                &&& shared.subscription.noise == wire.noise
            },
    decreases n,
{
    if n > 0 {
        let m = (n - 1) as nat;
        let before = scene.wires(m);
        let after = scene.wires(n);
        if let Some(wire) = scene.wire_at(n - 1) {
            wire_positions_are_places(before, scene.subs()[n - 1].instance@, wire.channel_uuid);
        }
        if i < before.len() {
            shared_subscriptions_keep_their_channel(scene, m, i);
            let k = choose|k: int|
                0 <= k < m && {
                    let shared = before[i];
                    &&& (#[trigger] scene.wire_at(k)) matches Some(wire)
                    &&& shared.instance@ == scene.subs()[k].instance@
                    &&& shared.subscription.channel_uuid == wire.channel_uuid
                    &&& shared.subscription.channel_address@ == wire.channel_address@
                    &&& shared.subscription.wake_min == wire.wake_min
                    &&& shared.subscription.noise == wire.noise
                };
            assert(after[i].instance == before[i].instance);
            assert(scene.wire_at(k) is Some);
        } else {
            assert(scene.wire_at(n - 1) is Some);
        }
    }
}

/// A binding's context on a page-local channel is the plane's ring on a control plane, else what
/// it states but at least one message.
pub proof fn page_contexts_hold_at_least_one_message(channel: Seq<char>, n: u64)
    ensures
        address::reserved_plane(channel) matches Some(plane) ==> surface_rules::context_depth(
            channel,
            None,
        ) == plane.ring_depth,
        address::reserved_plane(channel) is None ==> surface_rules::context_depth(channel, None)
            == 1,
        address::reserved_plane(channel) is None && n > 0 ==> surface_rules::context_depth(
            channel,
            Some(Depth::Bounded(n)),
        ) == n,
        address::reserved_plane(channel) is None ==> surface_rules::context_depth(
            channel,
            Some(Depth::Bounded(0)),
        ) == 1,
{
}

/// A surface declares an instance exactly where some component states it as its id, or states
/// none and is of that kind.
pub proof fn instances_are_stated_or_kinds(scene: Scene, instance: Seq<char>)
    ensures
        scene.declares(instance) <==> exists|j: int|
            0 <= j < scene.raw.components@.len() && (
            match (#[trigger] scene.raw.components@[j]).instance {
                Some(id) => id@ == instance,
                None => scene.raw.components@[j].kind@ == instance,
            }),
{
    let list = scene.raw.components@;
    if scene.declares(instance) {
        let j = choose|j: int|
            0 <= j < list.len() && surface_rules::instance_of(#[trigger] list[j])@ == instance;
        assert(match list[j].instance {
            Some(id) => id@ == instance,
            None => list[j].kind@ == instance,
        });
    }
}

/// Surfaces are refused as duplicates exactly where two share a slug, and then the later one is
/// reported; else the first surface that is refused is reported with its own fault, and where
/// none is, everyone is resolved.
pub proof fn the_first_refused_surface_is_reported(
    raws: Seq<SurfaceConfigRaw>,
    entries: Seq<ChannelEntry>,
    globals: MessagingGlobalConfig,
    auto_wiring: AutoWiring,
    limits: SurfaceLimits,
    resolved: Result<Vec<ResolvedSurface>, SurfaceFault>,
)
    requires
        surfaces::surfaces_outcome(raws, entries, globals, auto_wiring, limits, resolved),
    ensures
        (exists|a: int, b: int|
            0 <= a < b < raws.len() && (#[trigger] raws[a]).slug@ == (#[trigger] raws[b]).slug@)
            <==> (resolved matches Err(e) && e.kind == SurfaceFaultKind::DuplicateSlug),
        resolved matches Err(e) ==> {
            &&& e.surface < raws.len()
            &&& e.kind == SurfaceFaultKind::DuplicateSlug ==> exists|a: int|
                0 <= a < e.surface && (#[trigger] raws[a]).slug@ == raws[e.surface as int].slug@
            &&& e.kind != SurfaceFaultKind::DuplicateSlug ==> surfaces::surface_fault(
                raws[e.surface as int],
                entries,
                globals,
                auto_wiring,
                limits,
            ) == Some((e.item as nat, e.kind)) && forall|i: int|
                0 <= i < e.surface ==> surfaces::surface_fault(
                    #[trigger] raws[i],
                    entries,
                    globals,
                    auto_wiring,
                    limits,
                ) is None
        },
        resolved matches Ok(list) ==> list@.len() == raws.len() && forall|i: int|
            0 <= i < raws.len() ==> surfaces::surface_fault(
                #[trigger] raws[i],
                entries,
                globals,
                auto_wiring,
                limits,
            ) is None,
{
    let slugs = surfaces::slug_faults(raws);
    let faults = surfaces::surface_faults(raws, entries, globals, auto_wiring, limits);
    model::first_fault_is_first(slugs, raws.len());
    model::first_fault_is_first(faults, raws.len());
    assert forall|i: int| 0 <= i < raws.len() implies faults(i) == surfaces::surface_fault(
        #[trigger] raws[i],
        entries,
        globals,
        auto_wiring,
        limits,
    ) by {}
    if model::first_fault(slugs, raws.len()) is None {
        assert forall|a: int, b: int| 0 <= a < b < raws.len() implies (#[trigger] raws[a]).slug@ != (
        #[trigger] raws[b]).slug@ by {
            assert(slugs(b) is None);
        }
        if let Some(fault) = model::first_fault(faults, raws.len()) {
            no_surface_is_its_own_duplicate(
                raws[fault.0 as int],
                entries,
                globals,
                auto_wiring,
                limits,
            );
        }
    } else {
        let fault = model::first_fault(slugs, raws.len())->0;
        let b = fault.0 as int;
        assert(slugs(b) is Some);
        let a = choose|a: int| 0 <= a < b && (#[trigger] raws[a]).slug@ == raws[b].slug@;
        assert(raws[a].slug@ == raws[b].slug@);
    }
}

proof fn no_input_is_a_duplicate_surface(scene: Scene, j: int)
    ensures
        scene.sub_fault(j) != Some(SurfaceFaultKind::DuplicateSlug),
{
    reveal(Scene::input_of);
}

proof fn no_output_is_a_duplicate_surface(scene: Scene, j: int)
    ensures
        scene.out_fault(j) != Some(SurfaceFaultKind::DuplicateSlug),
{
}

proof fn no_component_is_a_duplicate_surface(
    raw: SurfaceConfigRaw,
    limits: SurfaceLimits,
    j: int,
)
    ensures
        surfaces::component_fault(raw, limits, j) != Some(SurfaceFaultKind::DuplicateSlug),
{
}

proof fn no_binding_is_a_duplicate_surface(scene: Scene, limits: SurfaceLimits)
    ensures
        surfaces::bindings_fault(scene, limits) matches Some(fault) ==> fault.1
            != SurfaceFaultKind::DuplicateSlug,
{
    let subs = scene.sub_faults();
    let outs = scene.out_faults();
    let activations = surfaces::activation_faults(scene);
    let n = scene.raw.components@.len();
    model::first_fault_is_first(subs, scene.subs().len());
    model::first_fault_is_first(outs, scene.outs().len());
    model::first_fault_is_first(activations, n);
    if let Some(fault) = model::first_fault(subs, scene.subs().len()) {
        no_input_is_a_duplicate_surface(scene, fault.0 as int);
        assert(subs(fault.0 as int) == scene.sub_fault(fault.0 as int));
    }
    if let Some(fault) = model::first_fault(outs, scene.outs().len()) {
        no_output_is_a_duplicate_surface(scene, fault.0 as int);
        assert(outs(fault.0 as int) == scene.out_fault(fault.0 as int));
    }
    if let Some(fault) = model::first_fault(activations, n) {
        assert(activations(fault.0 as int) == surfaces::activation_fault(scene, fault.0 as int));
    }
}

proof fn no_surface_is_its_own_duplicate(
    raw: SurfaceConfigRaw,
    entries: Seq<ChannelEntry>,
    globals: MessagingGlobalConfig,
    auto_wiring: AutoWiring,
    limits: SurfaceLimits,
)
    ensures
        surfaces::surface_fault(raw, entries, globals, auto_wiring, limits) matches Some(fault)
            ==> fault.1 != SurfaceFaultKind::DuplicateSlug,
{
    let scene = surfaces::scene_of(raw, entries, globals, auto_wiring);
    let components = surfaces::component_faults(raw, limits);
    let users = surfaces::user_faults(raw.allowed_users@);
    model::first_fault_is_first(components, raw.components@.len());
    model::first_fault_is_first(users, raw.allowed_users@.len());
    if let Some(fault) = model::first_fault(components, raw.components@.len()) {
        no_component_is_a_duplicate_surface(raw, limits, fault.0 as int);
        assert(components(fault.0 as int) == surfaces::component_fault(
            raw,
            limits,
            fault.0 as int,
        ));
    }
    if let Some(fault) = model::first_fault(users, raw.allowed_users@.len()) {
        assert(users(fault.0 as int) == surfaces::user_fault(
            raw.allowed_users@,
            fault.0 as int,
        ));
    }
    no_binding_is_a_duplicate_surface(scene, limits);
}

/// Where a surface has several faults, the one of the earliest check is reported: the header's,
/// then the first component's, then the number of chromes, then the first user's, then the
/// publish budget's, then the skin's, then the first input's.
pub proof fn earlier_surface_checks_speak_first(
    raw: SurfaceConfigRaw,
    entries: Seq<ChannelEntry>,
    globals: MessagingGlobalConfig,
    auto_wiring: AutoWiring,
    limits: SurfaceLimits,
    j: int,
)
    ensures
        ({
            let reported = surfaces::surface_fault(raw, entries, globals, auto_wiring, limits);
            let scene = surfaces::scene_of(raw, entries, globals, auto_wiring);
            let headed = surfaces::header_fault(raw) is None;
            let composed = headed && forall|k: int|
                0 <= k < raw.components@.len() ==> (#[trigger] surfaces::component_fault(
                    raw,
                    limits,
                    k,
                )) is None;
            let chromed = composed && surface_scene::chrome_count(raw.components@) == 1;
            let used = chromed && forall|k: int|
                0 <= k < raw.allowed_users@.len() ==> (#[trigger] surfaces::user_fault(
                    raw.allowed_users@,
                    k,
                )) is None;
            let budgeted = used && surfaces::budget_fault(raw, globals, limits) is None;
            let skinned = budgeted && policy::texts(limits.skins@).contains(surfaces::skin_of(raw));
            &&& surfaces::header_fault(raw) matches Some(kind) ==> reported == Some((0nat, kind))
            &&& headed && 0 <= j < raw.components@.len() && (forall|k: int|
                0 <= k < j ==> (#[trigger] surfaces::component_fault(raw, limits, k)) is None) ==> (
            surfaces::component_fault(raw, limits, j) matches Some(kind) ==> reported == Some(
                (j as nat, kind),
            ))
            &&& composed && !chromed ==> reported == Some((0nat, SurfaceFaultKind::ChromeCount))
            &&& chromed && 0 <= j < raw.allowed_users@.len() && (forall|k: int|
                0 <= k < j ==> (#[trigger] surfaces::user_fault(raw.allowed_users@, k)) is None)
                ==> (surfaces::user_fault(raw.allowed_users@, j) matches Some(kind) ==> reported
                == Some((j as nat, kind)))
            &&& used ==> (surfaces::budget_fault(raw, globals, limits) matches Some(kind)
                ==> reported == Some((0nat, kind)))
            &&& budgeted && !skinned ==> reported == Some((0nat, SurfaceFaultKind::UnknownSkin))
            &&& skinned && 0 <= j < scene.subs().len() && (forall|k: int|
                0 <= k < j ==> (#[trigger] scene.sub_fault(k)) is None) ==> (scene.sub_fault(
                j,
            ) matches Some(kind) ==> reported == Some((j as nat, kind)))
        }),
{
    let scene = surfaces::scene_of(raw, entries, globals, auto_wiring);
    let components = surfaces::component_faults(raw, limits);
    let users = surfaces::user_faults(raw.allowed_users@);
    let subs = scene.sub_faults();
    model::first_fault_is_first(components, raw.components@.len());
    model::first_fault_is_first(users, raw.allowed_users@.len());
    model::first_fault_is_first(subs, scene.subs().len());
    assert forall|k: int| #[trigger] surfaces::component_fault(raw, limits, k) == components(k) by {}
    assert forall|k: int| #[trigger] surfaces::user_fault(raw.allowed_users@, k) == users(k) by {}
    assert forall|k: int| #[trigger] scene.sub_fault(k) == subs(k) by {}
}

} // verus!
