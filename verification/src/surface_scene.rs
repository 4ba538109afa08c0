//! What the bindings of one surface mean, stated once for the resolver and its callers.

use vstd::prelude::*;

use crate::address;
use crate::address::ChannelScheme;
use crate::directory;
use crate::directory::ChannelEntry;
use crate::model;
use crate::model::{Depth, NoiseLevel, Urgency};
use crate::policy;
use crate::policy::{AppCapability, PolicyView};
use crate::surface_model::{
    AutoGrant, AutoPort, MessagingGlobalConfig, ResolvedSubscription, ResolvedSurfaceSubscription,
    SurfaceBinding, SurfaceComponentRaw, SurfaceConfigRaw, SurfaceFaultKind, SurfaceGrant,
    SurfaceOutput, SurfaceOutputRaw, SurfaceSubscriptionRaw,
};
use crate::surface_rules;

verus! {

/// The address lowering gave a port: that of the first entry for it.
pub open spec fn assigned(
    ports: Seq<AutoPort>,
    slug: Seq<char>,
    instance: Seq<char>,
    port: Seq<char>,
) -> Option<String>
    decreases ports.len(),
{
    if ports.len() == 0 {
        None
    } else if ports[0].slug@ == slug && ports[0].instance@ == instance && ports[0].port@ == port {
        Some(ports[0].address)
    } else {
        assigned(ports.drop_first(), slug, instance, port)
    }
}

/// The capabilities a list of grants stands for.
pub open spec fn capabilities(grants: Seq<SurfaceGrant>) -> Set<AppCapability> {
    Set::new(
        |c: AppCapability|
            exists|i: int| 0 <= i < grants.len() && (#[trigger] grants[i]).as_capability() == c,
    )
}

/// The policy the operator wrote for a surface.
pub open spec fn authored_policy(raw: SurfaceConfigRaw) -> PolicyView {
    PolicyView {
        grants: capabilities(raw.grants@),
        brenn_subscribe: policy::matchers(raw.subscribe_acl@),
        brenn_publish: policy::matchers(raw.publish_acl@),
        ephemeral_subscribe: policy::matchers(raw.ephemeral_subscribe_acl@),
        ephemeral_publish: policy::matchers(raw.ephemeral_publish_acl@),
        ..PolicyView::nothing()
    }
}

/// The policy after lowering's first `n` grants: those made for `slug`, in order.
pub open spec fn with_auto_grants(
    base: PolicyView,
    grants: Seq<AutoGrant>,
    slug: Seq<char>,
    n: nat,
) -> PolicyView
    decreases n,
{
    if n == 0 {
        base
    } else {
        let before = with_auto_grants(base, grants, slug, (n - 1) as nat);
        if grants[n - 1].slug@ == slug {
            before.granted(grants[n - 1].capability, grants[n - 1].name@)
        } else {
            before
        }
    }
}

/// The number in a bounded depth.
pub open spec fn count_of(depth: Depth) -> u64 {
    match depth {
        Depth::Bounded(n) => n,
        Depth::Unbounded => 0,
    }
}

/// What an input binding comes to: its queue, its context, its loudness, and the subscription it
/// installs where its channel is on the bus.
#[derive(Debug)]
pub struct InputKnobs {
    pub push_depth: u64,
    pub retain_depth: u64,
    pub noise: NoiseLevel,
    pub wire: Option<ResolvedSubscription>,
}

/// One surface with everything its bindings are resolved against.
pub struct Scene {
    pub raw: SurfaceConfigRaw,
    pub entries: Seq<ChannelEntry>,
    pub globals: MessagingGlobalConfig,
    pub ports: Seq<AutoPort>,
    pub policy: PolicyView,
}

/// Where a list of subscriptions has the one of `instance` on the channel `uuid`, or the list's
/// length where it has none.
pub open spec fn wire_position(
    list: Seq<ResolvedSurfaceSubscription>,
    instance: Seq<char>,
    uuid: u128,
) -> int
    decreases list.len(),
{
    if list.len() == 0 {
        0
    } else if list[0].instance@ == instance && list[0].subscription.channel_uuid == uuid {
        0
    } else {
        1 + wire_position(list.drop_first(), instance, uuid)
    }
}

/// A shared subscription that also covers `other`.
pub open spec fn covering(
    shared: ResolvedSurfaceSubscription,
    other: ResolvedSubscription,
) -> ResolvedSurfaceSubscription {
    ResolvedSurfaceSubscription {
        instance: shared.instance,
        subscription: ResolvedSubscription {
            push_depth: shared.subscription.push_depth.wider(other.push_depth),
            retain_depth: shared.subscription.retain_depth.wider(other.retain_depth),
            ..shared.subscription
        },
    }
}

/// The queue depths of the bindings of one instance, in order.
pub open spec fn depths_of(bindings: Seq<SurfaceBinding>, instance: Seq<char>) -> Seq<u64>
    decreases bindings.len(),
{
    if bindings.len() == 0 {
        Seq::empty()
    } else {
        let before = depths_of(bindings.drop_last(), instance);
        if bindings.last().instance@ == instance {
            before.push(bindings.last().push_depth)
        } else {
            before
        }
    }
}

/// How many of the components are the chrome.
pub open spec fn chrome_count(components: Seq<SurfaceComponentRaw>) -> nat
    decreases components.len(),
{
    if components.len() == 0 {
        0
    } else if components.last().chrome {
        chrome_count(components.drop_last()) + 1
    } else {
        chrome_count(components.drop_last())
    }
}

impl Scene {
    /// Every input binding: the declared ones, then the reading half of each io port.
    pub open spec fn subs(self) -> Seq<SurfaceSubscriptionRaw> {
        self.raw.subscriptions@ + Seq::new(
            self.raw.io_ports@.len(),
            |i: int| surface_rules::io_subscription(self.raw.io_ports@[i]),
        )
    }

    /// Every output binding: the declared ones, then the writing half of each io port.
    pub open spec fn outs(self) -> Seq<SurfaceOutputRaw> {
        self.raw.outputs@ + Seq::new(
            self.raw.io_ports@.len(),
            |i: int| surface_rules::io_output(self.raw.io_ports@[i]),
        )
    }

    /// Whether the surface declares a component with this instance id.
    pub open spec fn declares(self, instance: Seq<char>) -> bool {
        exists|j: int|
            0 <= j < self.raw.components@.len() && surface_rules::instance_of(
                #[trigger] self.raw.components@[j],
            )@ == instance
    }

    /// What is wrong with the names a binding uses.
    pub open spec fn shape_fault(
        self,
        channel: Seq<char>,
        instance: Seq<char>,
        port: Seq<char>,
    ) -> Option<SurfaceFaultKind> {
        if !self.declares(instance) {
            Some(SurfaceFaultKind::UndeclaredInstance)
        } else if port.len() == 0 {
            Some(SurfaceFaultKind::EmptyPort)
        } else if !address::all_unreserved(port) {
            Some(SurfaceFaultKind::PortCharset)
        } else {
            match address::scheme_of(channel) {
                Some(ChannelScheme::Brenn) => self.transport_fault(channel, ChannelScheme::Brenn),
                Some(ChannelScheme::Ephemeral) => self.transport_fault(
                    channel,
                    ChannelScheme::Ephemeral,
                ),
                Some(ChannelScheme::Local) => {
                    let name = ChannelScheme::Local.name_in(channel);
                    if name.len() == 0 {
                        Some(SurfaceFaultKind::EmptyLocalName)
                    } else if address::in_reserved_namespace(channel) {
                        model::unless(
                            address::reserved_plane(channel) is Some,
                            SurfaceFaultKind::UndefinedPlane,
                        )
                    } else {
                        model::unless(
                            address::all_unreserved(name),
                            SurfaceFaultKind::LocalCharset,
                        )
                    }
                },
                Some(ChannelScheme::Mqtt) | Some(ChannelScheme::Webhook) | None => Some(
                    SurfaceFaultKind::SchemeRefused,
                ),
            }
        }
    }

    /// What is wrong with a bus channel: it is declared nowhere, or its entry has another
    /// transport than its address names.
    pub open spec fn transport_fault(self, channel: Seq<char>, scheme: ChannelScheme) -> Option<
        SurfaceFaultKind,
    > {
        match directory::channel_at(self.entries, channel) {
            None => Some(SurfaceFaultKind::UnknownChannel),
            Some(entry) => model::unless(
                entry.transport_type == scheme,
                SurfaceFaultKind::WrongTransport,
            ),
        }
    }

    /// What is wrong with binding a control plane.
    pub open spec fn plane_fault(self, channel: Seq<char>, is_output: bool) -> Option<
        SurfaceFaultKind,
    > {
        match address::reserved_plane(channel) {
            None => None,
            Some(plane) => if plane.requires_takeover_grant && !self.policy.grants.contains(
                AppCapability::SurfaceTakeover,
            ) {
                Some(SurfaceFaultKind::TakeoverGrantMissing)
            } else if is_output && plane.kernel_publish_only {
                Some(SurfaceFaultKind::KernelPlane)
            } else {
                None
            },
        }
    }

    /// What an input binding on `channel` comes to.
    #[verifier::opaque]
    pub open spec fn input_of(self, sub: SurfaceSubscriptionRaw, channel: Seq<char>) -> Result<
        InputKnobs,
        SurfaceFaultKind,
    > {
        let local = ChannelScheme::Local.names(channel);
        if !local && !self.policy.delivers_on(channel) {
            Err(SurfaceFaultKind::NotAuthorized)
        } else if sub.wake_min is Some {
            Err(SurfaceFaultKind::WakeMinSet)
        } else if local {
            match self.plane_fault(channel, false) {
                Some(fault) => Err(fault),
                None => match surface_rules::ring_ask(channel, sub.retain_depth) {
                    Err(fault) => Err(fault),
                    Ok(depth) => match surface_rules::queue_depth(
                        sub.push_depth,
                        Some(self.globals.default_push_depth),
                    ) {
                        Err(fault) => Err(fault),
                        Ok(push) => Ok(
                            InputKnobs {
                                push_depth: push,
                                retain_depth: depth,
                                noise: model::or_rung(sub.noise, self.globals.default_noise),
                                wire: None,
                            },
                        ),
                    },
                },
            }
        } else {
            match directory::channel_at(self.entries, channel) {
                None => Err(SurfaceFaultKind::UnknownChannel),
                Some(entry) => match surface_rules::wire_subscription(
                    entry,
                    sub.push_depth,
                    sub.retain_depth,
                    sub.noise,
                ) {
                    Err(fault) => Err(fault),
                    Ok(wire) => Ok(
                        InputKnobs {
                            push_depth: count_of(wire.push_depth),
                            retain_depth: count_of(wire.retain_depth),
                            noise: wire.noise,
                            wire: Some(wire),
                        },
                    ),
                },
            }
        }
    }

    /// The channel of input binding `j`.
    pub open spec fn sub_channel(self, j: int) -> Result<String, SurfaceFaultKind> {
        let sub = self.subs()[j];
        surface_rules::bound(
            sub.channel,
            assigned(self.ports, self.raw.slug@, sub.instance@, sub.port@),
        )
    }

    /// What input binding `j` comes to.
    pub open spec fn knobs(self, j: int) -> Result<InputKnobs, SurfaceFaultKind> {
        match self.sub_channel(j) {
            Err(fault) => Err(fault),
            Ok(channel) => self.input_of(self.subs()[j], channel@),
        }
    }

    /// The subscription input binding `j` installs.
    pub open spec fn wire_at(self, j: int) -> Option<ResolvedSubscription> {
        match self.knobs(j) {
            Ok(knobs) => knobs.wire,
            Err(_) => None,
        }
    }

    /// The subscriptions the first `n` input bindings install: one for each instance and channel,
    /// in the order in which they first come up, wide enough for every binding on it.
    pub open spec fn wires(self, n: nat) -> Seq<ResolvedSurfaceSubscription>
        decreases n,
    {
        if n == 0 {
            Seq::empty()
        } else {
            let before = self.wires((n - 1) as nat);
            match self.wire_at(n - 1) {
                None => before,
                Some(wire) => {
                    let instance = self.subs()[n - 1].instance;
                    let i = wire_position(before, instance@, wire.channel_uuid);
                    if i < before.len() {
                        before.update(i, covering(before[i], wire))
                    } else {
                        before.push(ResolvedSurfaceSubscription { instance, subscription: wire })
                    }
                },
            }
        }
    }

    /// Whether binding `j` wants its shared subscription at another loudness than it has.
    pub open spec fn noise_conflict(self, j: int) -> bool {
        match self.wire_at(j) {
            None => false,
            Some(wire) => {
                let before = self.wires(j as nat);
                let i = wire_position(before, self.subs()[j].instance@, wire.channel_uuid);
                i < before.len() && before[i].subscription.noise != wire.noise
            },
        }
    }

    /// Whether an earlier input binding has the instance and port of binding `j`.
    pub open spec fn sub_repeats(self, j: int) -> bool {
        exists|k: int|
            0 <= k < j && (#[trigger] self.subs()[k]).instance@ == self.subs()[j].instance@
                && self.subs()[k].port@ == self.subs()[j].port@
    }

    /// What is wrong with input binding `j`.
    pub open spec fn sub_fault(self, j: int) -> Option<SurfaceFaultKind> {
        let sub = self.subs()[j];
        match self.sub_channel(j) {
            Err(fault) => Some(fault),
            Ok(channel) => model::first_of(
                self.shape_fault(channel@, sub.instance@, sub.port@),
                model::first_of(
                    model::unless(!self.sub_repeats(j), SurfaceFaultKind::DuplicateBinding),
                    match self.knobs(j) {
                        Err(fault) => Some(fault),
                        Ok(knobs) => model::first_of(
                            model::unless(
                                !self.noise_conflict(j),
                                SurfaceFaultKind::ConflictingNoise,
                            ),
                            model::first_of(
                                model::unless(
                                    !knobs.noise.loud() || self.policy.grants.contains(
                                        AppCapability::SurfaceAlert,
                                    ),
                                    SurfaceFaultKind::AlertGrantMissing,
                                ),
                                surface_rules::port_fault(
                                    knobs.push_depth,
                                    knobs.retain_depth,
                                    sub.noise,
                                ),
                            ),
                        ),
                    },
                ),
            ),
        }
    }

    /// The check of one input binding.
    pub open spec fn sub_faults(self) -> spec_fn(int) -> Option<SurfaceFaultKind> {
        |j: int| self.sub_fault(j)
    }

    /// Input binding `j` as boot resolves it.
    pub open spec fn binding(self, j: int) -> SurfaceBinding {
        let sub = self.subs()[j];
        let knobs = self.knobs(j)->Ok_0;
        SurfaceBinding {
            channel_address: self.sub_channel(j)->Ok_0,
            instance: sub.instance,
            port: sub.port,
            push_depth: knobs.push_depth,
            retain_depth: knobs.retain_depth,
            noise: knobs.noise,
        }
    }

    /// The first `n` input bindings as boot resolves them.
    pub open spec fn bindings(self, n: nat) -> Seq<SurfaceBinding> {
        Seq::new(n, |j: int| self.binding(j))
    }

    /// What the first `n` input bindings ask of the page-local rings.
    pub open spec fn sub_asks(self, n: nat) -> Seq<(Seq<char>, u64)>
        decreases n,
    {
        if n == 0 {
            Seq::empty()
        } else {
            let before = self.sub_asks((n - 1) as nat);
            match self.sub_channel(n - 1) {
                Ok(channel) if ChannelScheme::Local.names(channel@) => before.push(
                    (
                        channel@,
                        surface_rules::context_depth(channel@, self.subs()[n - 1].retain_depth),
                    ),
                ),
                _ => before,
            }
        }
    }

    /// The channel of output binding `j`.
    pub open spec fn out_channel(self, j: int) -> Result<String, SurfaceFaultKind> {
        let out = self.outs()[j];
        surface_rules::bound(
            out.channel,
            assigned(self.ports, self.raw.slug@, out.instance@, out.port@),
        )
    }

    /// Whether an earlier output binding has the instance and port of binding `j`.
    pub open spec fn out_repeats(self, j: int) -> bool {
        exists|k: int|
            0 <= k < j && (#[trigger] self.outs()[k]).instance@ == self.outs()[j].instance@
                && self.outs()[k].port@ == self.outs()[j].port@
    }

    /// What is wrong with output binding `j`.
    pub open spec fn out_fault(self, j: int) -> Option<SurfaceFaultKind> {
        let out = self.outs()[j];
        match self.out_channel(j) {
            Err(fault) => Some(fault),
            Ok(channel) => model::first_of(
                self.shape_fault(channel@, out.instance@, out.port@),
                model::first_of(
                    model::unless(!self.out_repeats(j), SurfaceFaultKind::DuplicateBinding),
                    if ChannelScheme::Local.names(channel@) {
                        self.plane_fault(channel@, true)
                    } else {
                        None
                    },
                ),
            ),
        }
    }

    /// The check of one output binding.
    pub open spec fn out_faults(self) -> spec_fn(int) -> Option<SurfaceFaultKind> {
        |j: int| self.out_fault(j)
    }

    /// Output binding `j` as boot resolves it.
    pub open spec fn output(self, j: int) -> SurfaceOutput {
        let out = self.outs()[j];
        SurfaceOutput {
            channel_address: self.out_channel(j)->Ok_0,
            instance: out.instance,
            port: out.port,
            default_urgency: model::or_rung(out.urgency, Urgency::Normal),
            budget: model::budget_of(out.publish_per_activation_mt, out.publish_capacity_mt),
        }
    }

    /// The first `n` output bindings as boot resolves them.
    pub open spec fn outputs(self, n: nat) -> Seq<SurfaceOutput> {
        Seq::new(n, |j: int| self.output(j))
    }

    /// What the first `n` output bindings ask of the page-local rings.
    pub open spec fn out_asks(self, n: nat) -> Seq<(Seq<char>, u64)>
        decreases n,
    {
        if n == 0 {
            Seq::empty()
        } else {
            let before = self.out_asks((n - 1) as nat);
            match self.out_channel(n - 1) {
                Ok(channel) if ChannelScheme::Local.names(channel@) => before.push(
                    (channel@, surface_rules::context_depth(channel@, None)),
                ),
                _ => before,
            }
        }
    }
}

} // verus!
