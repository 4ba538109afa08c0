//! The rules for one component or one binding of a surface.

use indexmap::IndexMap;
use vstd::prelude::*;
use vstd::string::*;

use crate::address;
use crate::address::reserved_local_channel;
use crate::directory;
use crate::directory::{ChannelEntry, MessagingDirectory};
use crate::model;
use crate::model::{Depth, NoiseLevel, SinkBudget, MAX_PUBLISHES_PER_ACTIVATION};
use crate::rings;
use crate::rings::{keep_depth, widen_ring};
use crate::surface_model::{
    Abi, AttachSendBudget, ResolvedSubscription, SurfaceComponentRaw, SurfaceFaultKind,
    SurfaceIoPortRaw, SurfaceOutputRaw, SurfaceSubscriptionRaw,
};
use crate::text;
use crate::text::{copy_entries, has_prefix, same_text};

verus! {

/// The larger of the two numbers.
pub open spec fn larger(a: u64, b: u64) -> u64 {
    if a < b {
        b
    } else {
        a
    }
}

/// How deep one page-local binding reads into its channel's ring: a control plane's depth is
/// fixed, any other ring is read as deep as the binding asks and at least one message deep.
pub open spec fn context_depth(channel: Seq<char>, retain_depth: Option<Depth>) -> u64 {
    match address::reserved_plane(channel) {
        Some(plane) => plane.ring_depth,
        None => match retain_depth {
            Some(Depth::Bounded(n)) => larger(n, 1),
            _ => 1,
        },
    }
}

/// What one page-local binding asks of its channel's ring.
pub open spec fn ring_ask(channel: Seq<char>, retain_depth: Option<Depth>) -> Result<
    u64,
    SurfaceFaultKind,
> {
    if address::reserved_plane(channel) is Some {
        if retain_depth is Some {
            Err(SurfaceFaultKind::PlaneRetainFixed)
        } else {
            Ok(context_depth(channel, retain_depth))
        }
    } else if retain_depth == Some(Depth::Unbounded) {
        Err(SurfaceFaultKind::UnboundedRing)
    } else {
        Ok(context_depth(channel, retain_depth))
    }
}

/// How deep one page-local binding reads into its channel's ring.
pub(crate) fn local_context_depth(channel: &str, retain_depth: Option<Depth>) -> (depth: u64)
    requires
        address::reserved_plane(channel@) is Some || retain_depth != Some(Depth::Unbounded),
    ensures
        depth == context_depth(channel@, retain_depth),
{
    if let Some(plane) = reserved_local_channel(channel) {
        return plane.ring_depth;
    }
    match retain_depth {
        Some(Depth::Bounded(n)) => if n < 1 {
            1
        } else {
            n
        },
        _ => 1,
    }
}

/// The rings after one more page-local binding: a control plane's ring has its fixed depth,
/// any other covers the deepest binding on its channel.
pub open spec fn ring_taken(list: Seq<(Seq<char>, u64)>, channel: Seq<char>, depth: u64) -> Seq<
    (Seq<char>, u64),
> {
    if address::reserved_plane(channel) is Some {
        rings::with_ring(list, channel, depth)
    } else {
        rings::widened(list, channel, depth)
    }
}

/// Take one page-local binding into the rings. A refused binding leaves them as they are.
pub fn accumulate_local_ring_depth(
    depths: &mut IndexMap<String, u64>,
    channel: &str,
    retain_depth: Option<Depth>,
) -> (outcome: Result<(), SurfaceFaultKind>)
    ensures
        match ring_ask(channel@, retain_depth) {
            Ok(depth) => outcome is Ok && rings::ring_list(*final(depths)) == ring_taken(
                rings::ring_list(*old(depths)),
                channel@,
                depth,
            ),
            Err(fault) => outcome == Err::<(), SurfaceFaultKind>(fault) && *final(depths) == *old(
                depths,
            ),
        },
{
    if let Some(plane) = reserved_local_channel(channel) {
        if retain_depth.is_some() {
            return Err(SurfaceFaultKind::PlaneRetainFixed);
        }
        keep_depth(depths, channel.to_owned(), plane.ring_depth);
        return Ok(());
    }
    if let Some(Depth::Unbounded) = retain_depth {
        return Err(SurfaceFaultKind::UnboundedRing);
    }
    let depth: u64 = local_context_depth(channel, retain_depth);
    widen_ring(depths, channel, depth);
    Ok(())
}

/// The depth of a binding's page queue: what the binding states, else the rung it falls back on;
/// page memory has to be bounded.
pub open spec fn queue_depth(push_depth: Option<Depth>, rung: Option<Depth>) -> Result<
    u64,
    SurfaceFaultKind,
> {
    match (match push_depth {
        Some(d) => Some(d),
        None => rung,
    }) {
        None => Err(SurfaceFaultKind::UnstatedQueue),
        Some(Depth::Unbounded) => Err(SurfaceFaultKind::UnboundedQueue),
        Some(Depth::Bounded(n)) => Ok(n),
    }
}

/// Resolve the depth of a binding's page queue.
pub fn resolve_page_queue_depth(push_depth: Option<Depth>, channel_rung: Option<Depth>) -> (depth:
    Result<u64, SurfaceFaultKind>)
    ensures
        depth == queue_depth(push_depth, channel_rung),
{
    let resolved: Option<Depth> = match push_depth {
        Some(d) => Some(d),
        None => channel_rung,
    };
    match resolved {
        None => Err(SurfaceFaultKind::UnstatedQueue),
        Some(Depth::Unbounded) => Err(SurfaceFaultKind::UnboundedQueue),
        Some(Depth::Bounded(n)) => Ok(n),
    }
}

/// The depth of a binding's retained context: what the binding states, else its channel's.
pub open spec fn ring_depth(retain_depth: Option<Depth>, channel_default: Depth) -> Result<
    u64,
    SurfaceFaultKind,
> {
    match model::or_rung(retain_depth, channel_default) {
        Depth::Unbounded => Err(SurfaceFaultKind::UnboundedContext),
        Depth::Bounded(n) => Ok(n),
    }
}

/// Resolve the depth of a binding's retained context.
pub fn resolve_context_ring_depth(retain_depth: Option<Depth>, channel_default: Depth) -> (depth:
    Result<u64, SurfaceFaultKind>)
    ensures
        depth == ring_depth(retain_depth, channel_default),
{
    let resolved: Depth = match retain_depth {
        Some(d) => d,
        None => channel_default,
    };
    match resolved {
        Depth::Unbounded => Err(SurfaceFaultKind::UnboundedContext),
        Depth::Bounded(n) => Ok(n),
    }
}

/// What is wrong with a port of these depths: without a queue, a noise level has nothing to
/// speak of, and without context either the port is dead.
pub open spec fn port_fault(push_depth: u64, retain_depth: u64, noise: Option<NoiseLevel>) -> Option<
    SurfaceFaultKind,
> {
    if push_depth >= 1 {
        None
    } else if noise is Some {
        Some(SurfaceFaultKind::NoiseWithoutQueue)
    } else if retain_depth == 0 {
        Some(SurfaceFaultKind::DeadPort)
    } else {
        None
    }
}

/// Refuse a port that can neither activate its component nor carry context, or that states a
/// noise level without a queue that could overflow.
pub fn assert_page_queue_deliverable(
    push_depth: u64,
    retain_depth: u64,
    noise: Option<NoiseLevel>,
) -> (outcome: Result<(), SurfaceFaultKind>)
    ensures
        match port_fault(push_depth, retain_depth, noise) {
            None => outcome is Ok,
            Some(fault) => outcome == Err::<(), SurfaceFaultKind>(fault),
        },
{
    if push_depth >= 1 {
        return Ok(());
    }
    if noise.is_some() {
        return Err(SurfaceFaultKind::NoiseWithoutQueue);
    }
    if retain_depth == 0 {
        return Err(SurfaceFaultKind::DeadPort);
    }
    Ok(())
}

/// A component instance none of whose input bindings can activate it.
#[derive(Debug, PartialEq, Eq)]
pub struct DeadInstance {
    pub slug: String,
    pub instance: String,
    pub bindings: usize,
}

/// Whether bindings of these queue depths leave their component dead: there are some and none of
/// them has a queue.
pub open spec fn never_activates(push_depths: Seq<u64>) -> bool {
    &&& push_depths.len() > 0
    &&& forall|i: int| 0 <= i < push_depths.len() ==> #[trigger] push_depths[i] == 0
}

/// Refuse a component instance that has input bindings but none that can activate it. An
/// instance without input bindings is not judged.
pub fn assert_instance_can_activate(slug: &str, instance: &str, push_depths: &[u64]) -> (outcome:
    Result<(), DeadInstance>)
    ensures
        outcome is Err <==> never_activates(push_depths@),
        outcome matches Err(dead) ==> dead.slug@ == slug@ && dead.instance@ == instance@
            && dead.bindings == push_depths@.len(),
{
    let n: usize = push_depths.len();
    if n == 0 {
        return Ok(());
    }
    let mut i: usize = 0;
    while i < n
        invariant
            i <= n,
            n == push_depths@.len(),
            forall|k: int| 0 <= k < i ==> #[trigger] push_depths@[k] == 0,
        decreases n - i,
    {
        if push_depths[i] >= 1 {
            return Ok(());
        }
        i = i + 1;
    }
    Err(DeadInstance { slug: slug.to_owned(), instance: instance.to_owned(), bindings: n })
}

/// The ABI a name stands for.
pub open spec fn abi_named(name: Seq<char>) -> Option<Abi> {
    if name == "dom"@ {
        Some(Abi::Dom)
    } else if name == "processor"@ {
        Some(Abi::Processor)
    } else if name == "dom-ts"@ {
        Some(Abi::DomTs)
    } else if name == "html"@ {
        Some(Abi::Html)
    } else {
        None
    }
}

/// The ABI of a component that declares `name`: the shell loads two of the known ones.
pub open spec fn abi_of(name: Seq<char>) -> Result<Abi, SurfaceFaultKind> {
    match abi_named(name) {
        None => Err(SurfaceFaultKind::UnknownAbi),
        Some(Abi::DomTs) | Some(Abi::Html) => Err(SurfaceFaultKind::UnsupportedAbi),
        Some(abi) => Ok(abi),
    }
}

/// Resolve a component's declared ABI.
pub fn resolve_abi(name: &str) -> (abi: Result<Abi, SurfaceFaultKind>)
    ensures
        abi == abi_of(name@),
{
    if same_text(name, "dom") {
        return Ok(Abi::Dom);
    }
    if same_text(name, "processor") {
        return Ok(Abi::Processor);
    }
    if same_text(name, "dom-ts") || same_text(name, "html") {
        return Err(SurfaceFaultKind::UnsupportedAbi);
    }
    Err(SurfaceFaultKind::UnknownAbi)
}

/// Refuse a burst that one maximal activation flush would not fit in.
pub fn assert_backstop_covers_a_maximal_flush(burst: u32) -> (outcome: Result<
    (),
    SurfaceFaultKind,
>)
    ensures
        outcome is Ok <==> burst >= MAX_PUBLISHES_PER_ACTIVATION,
        outcome matches Err(fault) ==> fault == SurfaceFaultKind::SendBurstBelowFlush,
{
    if burst >= MAX_PUBLISHES_PER_ACTIVATION {
        Ok(())
    } else {
        Err(SurfaceFaultKind::SendBurstBelowFlush)
    }
}

/// A component's send budget: each knob it states over the defaults.
pub open spec fn send_budget_of(
    send_burst: Option<u32>,
    send_refill_secs: Option<u64>,
    default: AttachSendBudget,
) -> Result<AttachSendBudget, SurfaceFaultKind> {
    let burst = model::or_rung(send_burst, default.burst);
    let refill_secs = model::or_rung(send_refill_secs, default.refill_secs);
    if burst == 0 {
        Err(SurfaceFaultKind::ZeroSendBurst)
    } else if burst < MAX_PUBLISHES_PER_ACTIVATION {
        Err(SurfaceFaultKind::SendBurstBelowFlush)
    } else if refill_secs == 0 {
        Err(SurfaceFaultKind::ZeroSendRefill)
    } else {
        Ok(AttachSendBudget { burst, refill_secs })
    }
}

/// Resolve a component's send budget.
pub fn resolve_send_budget(
    send_burst: Option<u32>,
    send_refill_secs: Option<u64>,
    default: AttachSendBudget,
) -> (budget: Result<AttachSendBudget, SurfaceFaultKind>)
    ensures
        budget == send_budget_of(send_burst, send_refill_secs, default),
{
    let burst: u32 = match send_burst {
        Some(b) => b,
        None => default.burst,
    };
    if burst == 0 {
        return Err(SurfaceFaultKind::ZeroSendBurst);
    }
    if let Err(fault) = assert_backstop_covers_a_maximal_flush(burst) {
        return Err(fault);
    }
    let refill_secs: u64 = match send_refill_secs {
        Some(s) => s,
        None => default.refill_secs,
    };
    if refill_secs == 0 {
        return Err(SurfaceFaultKind::ZeroSendRefill);
    }
    Ok(AttachSendBudget { burst, refill_secs })
}

/// How many activation flushes are parked for a component that states no depth.
pub const DEFAULT_PARKED_BATCH_DEPTH: u64 = 8;

/// How many activation flushes are parked for a component while its link is down.
pub open spec fn parked_depth_of(parked_batch_depth: Option<Depth>) -> Result<
    u64,
    SurfaceFaultKind,
> {
    match model::or_rung(parked_batch_depth, Depth::Bounded(DEFAULT_PARKED_BATCH_DEPTH)) {
        Depth::Unbounded => Err(SurfaceFaultKind::UnboundedParkedBatches),
        Depth::Bounded(n) => if n == 0 {
            Err(SurfaceFaultKind::ZeroParkedBatches)
        } else {
            Ok(n)
        },
    }
}

/// Resolve how many activation flushes are parked for a component.
pub fn resolve_parked_batch_depth(parked_batch_depth: Option<Depth>) -> (depth: Result<
    u64,
    SurfaceFaultKind,
>)
    ensures
        depth == parked_depth_of(parked_batch_depth),
{
    let resolved: Depth = match parked_batch_depth {
        Some(d) => d,
        None => Depth::Bounded(DEFAULT_PARKED_BATCH_DEPTH),
    };
    match resolved {
        Depth::Unbounded => Err(SurfaceFaultKind::UnboundedParkedBatches),
        Depth::Bounded(n) => if n == 0 {
            Err(SurfaceFaultKind::ZeroParkedBatches)
        } else {
            Ok(n)
        },
    }
}

/// The prefix of configuration keys that belong to the host.
pub open spec fn host_key(key: Seq<char>) -> bool {
    text::begins_with(key, "brenn."@)
}

/// The entries of a component's static map.
pub open spec fn config_entries(config: Option<Vec<(String, String)>>) -> Seq<(String, String)> {
    match config {
        Some(map) => map@,
        None => Seq::empty(),
    }
}

/// What is wrong with a component's static map: only a processor reads one, and the host's own
/// keys are not the operator's to set.
pub open spec fn config_fault(abi: Abi, config: Option<Vec<(String, String)>>) -> Option<
    SurfaceFaultKind,
> {
    if config is None {
        None
    } else if abi != Abi::Processor {
        Some(SurfaceFaultKind::ConfigWithoutReader)
    } else if exists|i: int|
        0 <= i < config_entries(config).len() && host_key((#[trigger] config_entries(config)[i]).0@) {
        Some(SurfaceFaultKind::ReservedConfigKey)
    } else {
        None
    }
}

/// Resolve a component's static map.
pub fn resolve_component_config(abi: Abi, config: &Option<Vec<(String, String)>>) -> (resolved:
    Result<Vec<(String, String)>, SurfaceFaultKind>)
    ensures
        match config_fault(abi, *config) {
            Some(fault) => resolved == Err::<Vec<(String, String)>, SurfaceFaultKind>(fault),
            None => resolved matches Ok(map) && map@ == config_entries(*config),
        },
{
    let map: &Vec<(String, String)> = match config {
        Some(map) => map,
        None => {
            return Ok(Vec::new());
        },
    };
    if abi != Abi::Processor {
        return Err(SurfaceFaultKind::ConfigWithoutReader);
    }
    let n: usize = map.len();
    let mut i: usize = 0;
    while i < n
        invariant
            i <= n,
            n == map@.len(),
            *config == Some(*map),
            abi == Abi::Processor,
            forall|k: int| 0 <= k < i ==> !host_key((#[trigger] map@[k]).0@),
        decreases n - i,
    {
        if has_prefix(map[i].0.as_str(), "brenn.") {
            assert(host_key(config_entries(*config)[i as int].0@));
            return Err(SurfaceFaultKind::ReservedConfigKey);
        }
        i = i + 1;
    }
    Ok(copy_entries(map))
}

/// The instance id of a component: its own, or its kind where it states none.
pub open spec fn instance_of(component: SurfaceComponentRaw) -> String {
    match component.instance {
        Some(instance) => instance,
        None => component.kind,
    }
}

/// The budget of an output binding.
pub fn resolve_output_budget(out: &SurfaceOutputRaw) -> (budget: SinkBudget)
    ensures
        budget == model::budget_of(out.publish_per_activation_mt, out.publish_capacity_mt),
{
    model::resolve_sink_budget(out.publish_per_activation_mt, out.publish_capacity_mt)
}

/// The subscription one transportable binding installs on its channel.
pub open spec fn wire_subscription(
    entry: ChannelEntry,
    push_depth: Option<Depth>,
    retain_depth: Option<Depth>,
    noise: Option<NoiseLevel>,
) -> Result<ResolvedSubscription, SurfaceFaultKind> {
    let channel = entry.resolved_channel;
    if channel.retain_depth == Depth::Bounded(0) {
        Err(SurfaceFaultKind::ChannelRetainsNothing)
    } else {
        match queue_depth(push_depth, Some(channel.push_depth)) {
            Err(fault) => Err(fault),
            Ok(push) => match ring_depth(retain_depth, channel.retain_depth) {
                Err(fault) => Err(fault),
                Ok(retain) => Ok(
                    ResolvedSubscription {
                        channel_uuid: entry.uuid,
                        channel_address: entry.address,
                        push_depth: Depth::Bounded(push),
                        retain_depth: Depth::Bounded(retain),
                        noise: model::or_rung(noise, channel.noise),
                        wake_min: channel.wake_min,
                    },
                ),
            },
        }
    }
}

/// Resolve the subscription a transportable binding installs: every knob is the binding's own or
/// its channel's.
pub fn resolve_wire_subscription(
    channel: &str,
    directory: &MessagingDirectory,
    push_depth: Option<Depth>,
    retain_depth: Option<Depth>,
    noise: Option<NoiseLevel>,
) -> (subscription: Result<ResolvedSubscription, SurfaceFaultKind>)
    ensures
        subscription == (match directory::channel_at(directory.entries@, channel@) {
            None => Err(SurfaceFaultKind::UnknownChannel),
            Some(entry) => wire_subscription(entry, push_depth, retain_depth, noise),
        }),
{
    let entry: &ChannelEntry = match directory.resolve(channel) {
        Some(entry) => entry,
        None => {
            return Err(SurfaceFaultKind::UnknownChannel);
        },
    };
    if entry.resolved_channel.retain_depth == Depth::Bounded(0) {
        return Err(SurfaceFaultKind::ChannelRetainsNothing);
    }
    let push: u64 = match resolve_page_queue_depth(
        push_depth,
        Some(entry.resolved_channel.push_depth),
    ) {
        Ok(push) => push,
        Err(fault) => {
            return Err(fault);
        },
    };
    let retain: u64 = match resolve_context_ring_depth(
        retain_depth,
        entry.resolved_channel.retain_depth,
    ) {
        Ok(retain) => retain,
        Err(fault) => {
            return Err(fault);
        },
    };
    Ok(
        ResolvedSubscription {
            channel_uuid: entry.uuid,
            channel_address: entry.address.clone(),
            push_depth: Depth::Bounded(push),
            retain_depth: Depth::Bounded(retain),
            noise: match noise {
                Some(n) => n,
                None => entry.resolved_channel.noise,
            },
            wake_min: entry.resolved_channel.wake_min,
        },
    )
}

/// The channel a port is bound to: the one the operator wrote or the one lowering assigned, and
/// never both.
pub open spec fn bound(authored: Option<String>, assigned: Option<String>) -> Result<
    String,
    SurfaceFaultKind,
> {
    match (authored, assigned) {
        (Some(_), Some(_)) => Err(SurfaceFaultKind::PortClaimedTwice),
        (Some(channel), None) => Ok(channel),
        (None, Some(channel)) => Ok(channel),
        (None, None) => Err(SurfaceFaultKind::UnboundPort),
    }
}

/// The channel a port is bound to.
pub fn bound_channel(authored: &Option<String>, assigned: Option<&String>) -> (channel: Result<
    String,
    SurfaceFaultKind,
>)
    ensures
        channel == bound(
            *authored,
            match assigned {
                Some(a) => Some(*a),
                None => None,
            },
        ),
{
    match (authored, assigned) {
        (Some(_), Some(_)) => Err(SurfaceFaultKind::PortClaimedTwice),
        (Some(channel), None) => Ok(channel.clone()),
        (None, Some(channel)) => Ok(channel.clone()),
        (None, None) => Err(SurfaceFaultKind::UnboundPort),
    }
}

/// The reading half of an io port.
pub open spec fn io_subscription(port: SurfaceIoPortRaw) -> SurfaceSubscriptionRaw {
    SurfaceSubscriptionRaw {
        channel: None,
        instance: port.instance,
        port: port.port,
        push_depth: port.push_depth,
        retain_depth: port.retain_depth,
        noise: port.noise,
        wake_min: None,
    }
}

/// The writing half of an io port.
pub open spec fn io_output(port: SurfaceIoPortRaw) -> SurfaceOutputRaw {
    SurfaceOutputRaw {
        instance: port.instance,
        port: port.port,
        channel: None,
        urgency: port.urgency,
        publish_per_activation_mt: port.publish_per_activation_mt,
        publish_capacity_mt: port.publish_capacity_mt,
    }
}

/// The reading halves of the io ports and the writing halves, each in declaration order. Neither
/// half names a channel of its own, so both take the one lowering assigned.
pub fn surface_io_bindings(io_ports: &Vec<SurfaceIoPortRaw>) -> (halves: (
    Vec<SurfaceSubscriptionRaw>,
    Vec<SurfaceOutputRaw>,
))
    ensures
        halves.0@ == Seq::new(io_ports@.len(), |i: int| io_subscription(io_ports@[i])),
        halves.1@ == Seq::new(io_ports@.len(), |i: int| io_output(io_ports@[i])),
{
    let n: usize = io_ports.len();
    let mut subs: Vec<SurfaceSubscriptionRaw> = Vec::new();
    let mut outs: Vec<SurfaceOutputRaw> = Vec::new();
    let mut i: usize = 0;
    while i < n
        invariant
            i <= n,
            n == io_ports@.len(),
            subs@ == Seq::new(i as nat, |k: int| io_subscription(io_ports@[k])),
            outs@ == Seq::new(i as nat, |k: int| io_output(io_ports@[k])),
        decreases n - i,
    {
        let port: &SurfaceIoPortRaw = &io_ports[i];
        subs.push(
            SurfaceSubscriptionRaw {
                channel: None,
                instance: port.instance.clone(),
                port: port.port.clone(),
                push_depth: port.push_depth,
                retain_depth: port.retain_depth,
                noise: port.noise,
                wake_min: None,
            },
        );
        outs.push(
            SurfaceOutputRaw {
                instance: port.instance.clone(),
                port: port.port.clone(),
                channel: None,
                urgency: port.urgency,
                publish_per_activation_mt: port.publish_per_activation_mt,
                publish_capacity_mt: port.publish_capacity_mt,
            },
        );
        i = i + 1;
    }
    (subs, outs)
}

} // verus!
