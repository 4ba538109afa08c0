//! Resolving the bindings of one surface, one after the other.

use indexmap::IndexMap;
use vstd::prelude::*;
use vstd::string::*;

use crate::address;
use crate::address::{
    is_reserved_local_namespace, is_unreserved, reserved_local_channel, ChannelScheme,
};
use crate::directory::MessagingDirectory;
use crate::model;
use crate::model::{Depth, NoiseLevel, Urgency};
use crate::policy::{AppCapability, AppPolicy};
use crate::rings;
use crate::rings::no_rings;
use crate::surface_model::{
    AutoPort, AutoWiring, MessagingGlobalConfig, ResolvedSubscription,
    ResolvedSurfaceSubscription, SurfaceBinding, SurfaceComponentRaw, SurfaceConfigRaw,
    SurfaceFaultKind, SurfaceOutput, SurfaceOutputRaw, SurfaceSubscriptionRaw,
};
use crate::surface_rules;
use crate::surface_rules::{
    accumulate_local_ring_depth, assert_page_queue_deliverable, bound_channel, local_context_depth,
    resolve_output_budget, resolve_page_queue_depth, resolve_wire_subscription,
};
use crate::surface_scene;
use crate::surface_scene::{InputKnobs, Scene};
use crate::text::{has_prefix, same_text};

verus! {

impl AutoWiring {
    /// The address lowering gave a port of a surface.
    pub fn surface_channel(&self, slug: &str, instance: &str, port: &str) -> (address: Option<
        &String,
    >)
        ensures
            surface_scene::assigned(self.ports@, slug@, instance@, port@) == (match address {
                Some(a) => Some(*a),
                None => None,
            }),
    {
        let n: usize = self.ports.len();
        let mut i: usize = 0;
        assert(self.ports@.skip(0) =~= self.ports@);
        while i < n
            invariant
                i <= n,
                n == self.ports@.len(),
                surface_scene::assigned(self.ports@, slug@, instance@, port@)
                    == surface_scene::assigned(
                    self.ports@.skip(i as int),
                    slug@,
                    instance@,
                    port@,
                ),
            decreases n - i,
        {
            let entry: &AutoPort = &self.ports[i];
            if same_text(entry.slug.as_str(), slug) && same_text(entry.instance.as_str(), instance)
                && same_text(entry.port.as_str(), port) {
                return Some(&entry.address);
            }
            assert(self.ports@.skip(i as int).drop_first() =~= self.ports@.skip(i as int + 1));
            i = i + 1;
        }
        None
    }

    /// Give `policy` the rights lowering derived for the surface.
    pub fn inject_surface_grants(&self, slug: &str, policy: &mut AppPolicy)
        ensures
            final(policy)@ == surface_scene::with_auto_grants(
                old(policy)@,
                self.grants@,
                slug@,
                self.grants@.len(),
            ),
    {
        let n: usize = self.grants.len();
        let ghost base = policy@;
        let mut i: usize = 0;
        while i < n
            invariant
                i <= n,
                n == self.grants@.len(),
                policy@ == surface_scene::with_auto_grants(base, self.grants@, slug@, i as nat),
            decreases n - i,
        {
            if same_text(self.grants[i].slug.as_str(), slug) {
                policy.grant(self.grants[i].capability, self.grants[i].name.as_str());
            }
            i = i + 1;
        }
    }
}

/// One surface with everything its bindings are resolved against.
pub struct Wiring<'a> {
    pub raw: &'a SurfaceConfigRaw,
    pub directory: &'a MessagingDirectory,
    pub globals: &'a MessagingGlobalConfig,
    pub auto_wiring: &'a AutoWiring,
    pub policy: &'a AppPolicy,
}

/// The bindings resolved so far on the reading side.
pub struct Inputs {
    pub bindings: Vec<SurfaceBinding>,
    pub wires: Vec<ResolvedSurfaceSubscription>,
    pub rings: IndexMap<String, u64>,
}

/// The bindings resolved so far on the writing side.
pub struct Outputs {
    pub outputs: Vec<SurfaceOutput>,
    pub rings: IndexMap<String, u64>,
}

fn find_wire(wires: &Vec<ResolvedSurfaceSubscription>, instance: &str, uuid: u128) -> (at: usize)
    ensures
        at == surface_scene::wire_position(wires@, instance@, uuid),
        at <= wires@.len(),
{
    let n: usize = wires.len();
    let mut i: usize = 0;
    assert(wires@.skip(0) =~= wires@);
    while i < n
        invariant
            i <= n,
            n == wires@.len(),
            surface_scene::wire_position(wires@, instance@, uuid) == i
                + surface_scene::wire_position(wires@.skip(i as int), instance@, uuid),
        decreases n - i,
    {
        if same_text(wires[i].instance.as_str(), instance) && wires[i].subscription.channel_uuid
            == uuid {
            return i;
        }
        assert(wires@.skip(i as int).drop_first() =~= wires@.skip(i as int + 1));
        i = i + 1;
    }
    n
}

impl<'a> Wiring<'a> {
    /// What the wiring says.
    pub open spec fn scene(&self) -> Scene {
        Scene {
            raw: *self.raw,
            entries: self.directory.entries@,
            globals: *self.globals,
            ports: self.auto_wiring.ports@,
            policy: self.policy@,
        }
    }

    fn declares(&self, instance: &str) -> (declared: bool)
        ensures
            declared == self.scene().declares(instance@),
    {
        let n: usize = self.raw.components.len();
        let mut i: usize = 0;
        while i < n
            invariant
                i <= n,
                n == self.raw.components@.len(),
                forall|j: int|
                    0 <= j < i ==> surface_rules::instance_of(
                        #[trigger] self.raw.components@[j],
                    )@ != instance@,
            decreases n - i,
        {
            let component: &SurfaceComponentRaw = &self.raw.components[i];
            let id: &String = match &component.instance {
                Some(id) => id,
                None => &component.kind,
            };
            if same_text(id.as_str(), instance) {
                assert(surface_rules::instance_of(self.raw.components@[i as int])@ == instance@);
                return true;
            }
            i = i + 1;
        }
        false
    }

    fn check_transport(&self, channel: &str, scheme: ChannelScheme) -> (fault: Option<
        SurfaceFaultKind,
    >)
        ensures
            fault == self.scene().transport_fault(channel@, scheme),
    {
        match self.directory.resolve(channel) {
            None => Some(SurfaceFaultKind::UnknownChannel),
            Some(entry) => if entry.transport_type == scheme {
                None
            } else {
                Some(SurfaceFaultKind::WrongTransport)
            },
        }
    }

    fn validate_binding(&self, channel: &str, instance: &str, port: &str) -> (fault: Option<
        SurfaceFaultKind,
    >)
        ensures
            fault == self.scene().shape_fault(channel@, instance@, port@),
    {
        if !self.declares(instance) {
            return Some(SurfaceFaultKind::UndeclaredInstance);
        }
        if port.unicode_len() == 0 {
            return Some(SurfaceFaultKind::EmptyPort);
        }
        if !is_unreserved(port) {
            return Some(SurfaceFaultKind::PortCharset);
        }
        match ChannelScheme::split(channel) {
            Some((ChannelScheme::Brenn, _name)) => self.check_transport(
                channel,
                ChannelScheme::Brenn,
            ),
            Some((ChannelScheme::Ephemeral, _name)) => self.check_transport(
                channel,
                ChannelScheme::Ephemeral,
            ),
            Some((ChannelScheme::Local, name)) => {
                if name.as_str().unicode_len() == 0 {
                    return Some(SurfaceFaultKind::EmptyLocalName);
                }
                if is_reserved_local_namespace(channel) {
                    if reserved_local_channel(channel).is_some() {
                        None
                    } else {
                        Some(SurfaceFaultKind::UndefinedPlane)
                    }
                } else if is_unreserved(name.as_str()) {
                    None
                } else {
                    Some(SurfaceFaultKind::LocalCharset)
                }
            },
            Some((ChannelScheme::Mqtt, _name)) => Some(SurfaceFaultKind::SchemeRefused),
            Some((ChannelScheme::Webhook, _name)) => Some(SurfaceFaultKind::SchemeRefused),
            None => Some(SurfaceFaultKind::SchemeRefused),
        }
    }

    fn validate_local_binding(&self, channel: &str, is_output: bool) -> (fault: Option<
        SurfaceFaultKind,
    >)
        ensures
            fault == self.scene().plane_fault(channel@, is_output),
    {
        match reserved_local_channel(channel) {
            None => None,
            Some(plane) => {
                if plane.requires_takeover_grant && !self.policy.grants.has(
                    AppCapability::SurfaceTakeover,
                ) {
                    Some(SurfaceFaultKind::TakeoverGrantMissing)
                } else if is_output && plane.kernel_publish_only {
                    Some(SurfaceFaultKind::KernelPlane)
                } else {
                    None
                }
            },
        }
    }

    fn resolve_local_input(&self, sub: &SurfaceSubscriptionRaw, channel: &str) -> (knobs: Result<
        InputKnobs,
        SurfaceFaultKind,
    >)
        requires
            ChannelScheme::Local.names(channel@),
            sub.wake_min is None,
        ensures
            knobs == self.scene().input_of(*sub, channel@),
    {
        reveal(Scene::input_of);
        if let Some(fault) = self.validate_local_binding(channel, false) {
            return Err(fault);
        }
        if reserved_local_channel(channel).is_some() {
            if sub.retain_depth.is_some() {
                return Err(SurfaceFaultKind::PlaneRetainFixed);
            }
        } else if let Some(Depth::Unbounded) = sub.retain_depth {
            return Err(SurfaceFaultKind::UnboundedRing);
        }
        let retain_depth: u64 = local_context_depth(channel, sub.retain_depth);
        let push_depth: u64 = match resolve_page_queue_depth(
            sub.push_depth,
            Some(self.globals.default_push_depth),
        ) {
            Ok(push) => push,
            Err(fault) => {
                return Err(fault);
            },
        };
        let noise: NoiseLevel = match sub.noise {
            Some(noise) => noise,
            None => self.globals.default_noise,
        };
        Ok(InputKnobs { push_depth, retain_depth, noise, wire: None })
    }

    fn resolve_input(&self, sub: &SurfaceSubscriptionRaw, channel: &str) -> (knobs: Result<
        InputKnobs,
        SurfaceFaultKind,
    >)
        ensures
            knobs == self.scene().input_of(*sub, channel@),
    {
        reveal(Scene::input_of);
        let local: bool = has_prefix(channel, ChannelScheme::Local.prefix());
        if !local && !self.policy.allows_channel_access(channel) {
            return Err(SurfaceFaultKind::NotAuthorized);
        }
        if sub.wake_min.is_some() {
            return Err(SurfaceFaultKind::WakeMinSet);
        }
        if local {
            return self.resolve_local_input(sub, channel);
        }
        match resolve_wire_subscription(
            channel,
            self.directory,
            sub.push_depth,
            sub.retain_depth,
            sub.noise,
        ) {
            Err(fault) => Err(fault),
            Ok(wire) => {
                let push_depth: u64 = match wire.push_depth {
                    Depth::Bounded(n) => n,
                    Depth::Unbounded => 0,
                };
                let retain_depth: u64 = match wire.retain_depth {
                    Depth::Bounded(n) => n,
                    Depth::Unbounded => 0,
                };
                Ok(InputKnobs { push_depth, retain_depth, noise: wire.noise, wire: Some(wire) })
            },
        }
    }

    fn sub_repeats(&self, subs: &Vec<SurfaceSubscriptionRaw>, j: usize) -> (repeats: bool)
        requires
            subs@ == self.scene().subs(),
            j < subs@.len(),
        ensures
            repeats == self.scene().sub_repeats(j as int),
    {
        let mut k: usize = 0;
        while k < j
            invariant
                k <= j < subs@.len(),
                subs@ == self.scene().subs(),
                forall|m: int|
                    0 <= m < k ==> !((#[trigger] self.scene().subs()[m]).instance@
                        == subs@[j as int].instance@ && self.scene().subs()[m].port@
                        == subs@[j as int].port@),
            decreases j - k,
        {
            if subs[k].instance == subs[j].instance && subs[k].port == subs[j].port {
                assert(self.scene().subs()[k as int].instance@ == subs@[j as int].instance@);
                return true;
            }
            k = k + 1;
        }
        false
    }

    fn out_repeats(&self, outs: &Vec<SurfaceOutputRaw>, j: usize) -> (repeats: bool)
        requires
            outs@ == self.scene().outs(),
            j < outs@.len(),
        ensures
            repeats == self.scene().out_repeats(j as int),
    {
        let mut k: usize = 0;
        while k < j
            invariant
                k <= j < outs@.len(),
                outs@ == self.scene().outs(),
                forall|m: int|
                    0 <= m < k ==> !((#[trigger] self.scene().outs()[m]).instance@
                        == outs@[j as int].instance@ && self.scene().outs()[m].port@
                        == outs@[j as int].port@),
            decreases j - k,
        {
            if outs[k].instance == outs[j].instance && outs[k].port == outs[j].port {
                assert(self.scene().outs()[k as int].instance@ == outs@[j as int].instance@);
                return true;
            }
            k = k + 1;
        }
        false
    }

    /// Whether the inputs are what the first `n` bindings come to.
    pub open spec fn inputs_at(&self, inputs: Inputs, n: nat) -> bool {
        &&& inputs.bindings@ == self.scene().bindings(n)
        &&& inputs.wires@ == self.scene().wires(n)
        &&& rings::ring_list(inputs.rings) == rings::rings_of(self.scene().sub_asks(n))
    }

    /// Fold the subscription of binding `j` into the ones there are.
    fn fold_wire(
        &self,
        wires: &mut Vec<ResolvedSurfaceSubscription>,
        instance: &String,
        wire: ResolvedSubscription,
        Ghost(j): Ghost<int>,
    ) -> (fault: Option<SurfaceFaultKind>)
        requires
            0 <= j < self.scene().subs().len(),
            *instance == self.scene().subs()[j].instance,
            self.scene().wire_at(j) == Some(wire),
            old(wires)@ == self.scene().wires(j as nat),
        ensures
            fault == model::unless(
                !self.scene().noise_conflict(j),
                SurfaceFaultKind::ConflictingNoise,
            ),
            fault is None ==> final(wires)@ == self.scene().wires((j + 1) as nat),
    {
        let at: usize = find_wire(wires, instance.as_str(), wire.channel_uuid);
        if at < wires.len() {
            if wires[at].subscription.noise != wire.noise {
                return Some(SurfaceFaultKind::ConflictingNoise);
            }
            let shared: &ResolvedSurfaceSubscription = &wires[at];
            let wider = ResolvedSurfaceSubscription {
                instance: shared.instance.clone(),
                subscription: ResolvedSubscription {
                    channel_uuid: shared.subscription.channel_uuid,
                    channel_address: shared.subscription.channel_address.clone(),
                    push_depth: shared.subscription.push_depth.widened_by(wire.push_depth),
                    retain_depth: shared.subscription.retain_depth.widened_by(wire.retain_depth),
                    noise: shared.subscription.noise,
                    wake_min: shared.subscription.wake_min,
                },
            };
            wires.set(at, wider);
        } else {
            wires.push(
                ResolvedSurfaceSubscription { instance: instance.clone(), subscription: wire },
            );
        }
        None
    }

    /// Resolve input binding `j` on top of the ones before it.
    fn bind_input(&self, subs: &Vec<SurfaceSubscriptionRaw>, j: usize, inputs: &mut Inputs) -> (fault:
        Option<SurfaceFaultKind>)
        requires
            subs@ == self.scene().subs(),
            j < subs@.len(),
            self.inputs_at(*old(inputs), j as nat),
        ensures
            fault == self.scene().sub_fault(j as int),
            fault is None ==> self.inputs_at(*final(inputs), (j + 1) as nat),
    {
        let sub: &SurfaceSubscriptionRaw = &subs[j];
        let channel: String = match bound_channel(
            &sub.channel,
            self.auto_wiring.surface_channel(
                self.raw.slug.as_str(),
                sub.instance.as_str(),
                sub.port.as_str(),
            ),
        ) {
            Ok(channel) => channel,
            Err(fault) => {
                return Some(fault);
            },
        };
        assert(self.scene().sub_channel(j as int) == Ok::<String, SurfaceFaultKind>(channel));
        if let Some(fault) = self.validate_binding(
            channel.as_str(),
            sub.instance.as_str(),
            sub.port.as_str(),
        ) {
            return Some(fault);
        }
        if self.sub_repeats(subs, j) {
            return Some(SurfaceFaultKind::DuplicateBinding);
        }
        let knobs: InputKnobs = match self.resolve_input(sub, channel.as_str()) {
            Ok(knobs) => knobs,
            Err(fault) => {
                return Some(fault);
            },
        };
        let ghost scene = self.scene();
        assert(scene.knobs(j as int) == Ok::<InputKnobs, SurfaceFaultKind>(knobs));
        let push_depth: u64 = knobs.push_depth;
        let retain_depth: u64 = knobs.retain_depth;
        let noise: NoiseLevel = knobs.noise;
        match knobs.wire {
            Some(wire) => {
                assert(scene.wire_at(j as int) == Some(wire));
                if let Some(fault) = self.fold_wire(
                    &mut inputs.wires,
                    &sub.instance,
                    wire,
                    Ghost(j as int),
                ) {
                    return Some(fault);
                }
            },
            None => {
                assert(scene.wire_at(j as int) is None);
                assert(inputs.wires@ == scene.wires((j + 1) as nat));
            },
        }
        if noise.alerts() && !self.policy.grants.has(AppCapability::SurfaceAlert) {
            return Some(SurfaceFaultKind::AlertGrantMissing);
        }
        if let Err(fault) = assert_page_queue_deliverable(push_depth, retain_depth, sub.noise) {
            return Some(fault);
        }
        if has_prefix(channel.as_str(), ChannelScheme::Local.prefix()) {
            let outcome: Result<(), SurfaceFaultKind> = accumulate_local_ring_depth(
                &mut inputs.rings,
                channel.as_str(),
                sub.retain_depth,
            );
            assert(outcome is Ok) by {
                reveal(Scene::input_of);
            }
            let ghost asks = scene.sub_asks(j as nat);
            assert(scene.sub_asks((j + 1) as nat).drop_last() =~= asks);
            proof {
                inputs_ask_planes_alike(scene, j as nat);
                if address::reserved_plane(channel@) is Some {
                    rings::equal_asks_keep_their_depth(
                        asks,
                        channel@,
                        surface_rules::context_depth(channel@, sub.retain_depth),
                    );
                }
            }
        }
        inputs.bindings.push(
            SurfaceBinding {
                channel_address: channel,
                instance: sub.instance.clone(),
                port: sub.port.clone(),
                push_depth,
                retain_depth,
                noise,
            },
        );
        assert(inputs.bindings@ =~= scene.bindings((j + 1) as nat));
        None
    }

    /// Resolve every input binding, or find the first that is refused.
    pub(crate) fn resolve_inputs(&self, subs: &Vec<SurfaceSubscriptionRaw>) -> (resolved: Result<
        Inputs,
        (usize, SurfaceFaultKind),
    >)
        requires
            subs@ == self.scene().subs(),
        ensures
            match model::first_fault(self.scene().sub_faults(), subs@.len()) {
                Some(fault) => resolved matches Err(e) && e.0 == fault.0 && e.1 == fault.1,
                None => resolved matches Ok(inputs) && self.inputs_at(inputs, subs@.len()),
            },
    {
        let mut inputs = Inputs { bindings: Vec::new(), wires: Vec::new(), rings: no_rings() };
        let n: usize = subs.len();
        let mut j: usize = 0;
        assert(inputs.bindings@ =~= self.scene().bindings(0));
        while j < n
            invariant
                j <= n,
                n == subs@.len(),
                subs@ == self.scene().subs(),
                self.inputs_at(inputs, j as nat),
                model::first_fault(self.scene().sub_faults(), j as nat) is None,
            decreases n - j,
        {
            let fault: Option<SurfaceFaultKind> = self.bind_input(subs, j, &mut inputs);
            if let Some(kind) = fault {
                proof {
                    model::fault_stands(self.scene().sub_faults(), (j + 1) as nat, n as nat);
                }
                return Err((j, kind));
            }
            j = j + 1;
        }
        Ok(inputs)
    }

    /// Whether the outputs are what the first `n` bindings come to, with the rings the inputs
    /// asked for underneath.
    pub open spec fn outputs_at(&self, outputs: Outputs, n: nat) -> bool {
        &&& outputs.outputs@ == self.scene().outputs(n)
        &&& rings::ring_list(outputs.rings) == rings::rings_of(
            self.scene().sub_asks(self.scene().subs().len()) + self.scene().out_asks(n),
        )
    }

    /// Resolve output binding `j` on top of the ones before it.
    fn bind_output(&self, outs: &Vec<SurfaceOutputRaw>, j: usize, outputs: &mut Outputs) -> (fault:
        Option<SurfaceFaultKind>)
        requires
            outs@ == self.scene().outs(),
            j < outs@.len(),
            self.outputs_at(*old(outputs), j as nat),
        ensures
            fault == self.scene().out_fault(j as int),
            fault is None ==> self.outputs_at(*final(outputs), (j + 1) as nat),
    {
        let out: &SurfaceOutputRaw = &outs[j];
        let channel: String = match bound_channel(
            &out.channel,
            self.auto_wiring.surface_channel(
                self.raw.slug.as_str(),
                out.instance.as_str(),
                out.port.as_str(),
            ),
        ) {
            Ok(channel) => channel,
            Err(fault) => {
                return Some(fault);
            },
        };
        let ghost scene = self.scene();
        assert(scene.out_channel(j as int) == Ok::<String, SurfaceFaultKind>(channel));
        if let Some(fault) = self.validate_binding(
            channel.as_str(),
            out.instance.as_str(),
            out.port.as_str(),
        ) {
            return Some(fault);
        }
        if self.out_repeats(outs, j) {
            return Some(SurfaceFaultKind::DuplicateBinding);
        }
        if has_prefix(channel.as_str(), ChannelScheme::Local.prefix()) {
            if let Some(fault) = self.validate_local_binding(channel.as_str(), true) {
                return Some(fault);
            }
            let outcome: Result<(), SurfaceFaultKind> = accumulate_local_ring_depth(
                &mut outputs.rings,
                channel.as_str(),
                None,
            );
            assert(outcome is Ok);
            let ghost asks = scene.sub_asks(scene.subs().len());
            let ghost all = asks + scene.out_asks(j as nat);
            assert((asks + scene.out_asks((j + 1) as nat)).drop_last() =~= all);
            proof {
                inputs_ask_planes_alike(scene, scene.subs().len());
                outputs_ask_planes_alike(scene, j as nat);
                if address::reserved_plane(channel@) is Some {
                    rings::equal_asks_keep_their_depth(
                        all,
                        channel@,
                        surface_rules::context_depth(channel@, None),
                    );
                }
            }
        }
        outputs.outputs.push(
            SurfaceOutput {
                channel_address: channel,
                instance: out.instance.clone(),
                port: out.port.clone(),
                default_urgency: match out.urgency {
                    Some(urgency) => urgency,
                    None => Urgency::Normal,
                },
                budget: resolve_output_budget(out),
            },
        );
        assert(outputs.outputs@ =~= scene.outputs((j + 1) as nat));
        None
    }

    /// Resolve every output binding, or find the first that is refused.
    pub(crate) fn resolve_outputs(
        &self,
        outs: &Vec<SurfaceOutputRaw>,
        rings: IndexMap<String, u64>,
    ) -> (resolved: Result<Outputs, (usize, SurfaceFaultKind)>)
        requires
            outs@ == self.scene().outs(),
            rings::ring_list(rings) == rings::rings_of(
                self.scene().sub_asks(self.scene().subs().len()),
            ),
        ensures
            match model::first_fault(self.scene().out_faults(), outs@.len()) {
                Some(fault) => resolved matches Err(e) && e.0 == fault.0 && e.1 == fault.1,
                None => resolved matches Ok(outputs) && self.outputs_at(outputs, outs@.len()),
            },
    {
        let mut outputs = Outputs { outputs: Vec::new(), rings };
        let n: usize = outs.len();
        let mut j: usize = 0;
        assert(outputs.outputs@ =~= self.scene().outputs(0));
        assert(self.scene().sub_asks(self.scene().subs().len()) + self.scene().out_asks(0)
            =~= self.scene().sub_asks(self.scene().subs().len()));
        while j < n
            invariant
                j <= n,
                n == outs@.len(),
                outs@ == self.scene().outs(),
                self.outputs_at(outputs, j as nat),
                model::first_fault(self.scene().out_faults(), j as nat) is None,
            decreases n - j,
        {
            let fault: Option<SurfaceFaultKind> = self.bind_output(outs, j, &mut outputs);
            if let Some(kind) = fault {
                proof {
                    model::fault_stands(self.scene().out_faults(), (j + 1) as nat, n as nat);
                }
                return Err((j, kind));
            }
            j = j + 1;
        }
        Ok(outputs)
    }
}

/// Whether every ask on a control plane is for the plane's own depth.
spec fn planes_alike(asks: Seq<(Seq<char>, u64)>) -> bool {
    forall|k: int|
        0 <= k < asks.len() ==> (address::reserved_plane((#[trigger] asks[k]).0) matches Some(plane)
            ==> asks[k].1 == plane.ring_depth)
}

proof fn inputs_ask_planes_alike(scene: Scene, n: nat)
    ensures
        planes_alike(scene.sub_asks(n)),
    decreases n,
{
    if n > 0 {
        inputs_ask_planes_alike(scene, (n - 1) as nat);
    }
}

proof fn outputs_ask_planes_alike(scene: Scene, n: nat)
    ensures
        planes_alike(scene.out_asks(n)),
    decreases n,
{
    if n > 0 {
        outputs_ask_planes_alike(scene, (n - 1) as nat);
    }
}

} // verus!
