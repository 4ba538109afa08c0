//! Surfaces as the operator writes them and as boot resolves them.

use vstd::prelude::*;
use vstd::string::*;

use crate::model::{Depth, NoiseLevel, Sink, SinkBudget, Urgency, WakeMin};
use crate::policy::{AppCapability, AppPolicy, ChannelMatcher};
use crate::rings::ResolvedLocalChannel;

verus! {

/// The default rate at which one sender may publish on one channel.
#[derive(Clone, Copy, Debug, PartialEq, Eq, Structural)]
pub struct SendRate {
    pub burst: u32,
    pub refill: u32,
    pub refill_interval_secs: u64,
}

/// The messaging knobs every channel and binding can fall back on.
#[derive(Clone, Copy, Debug, PartialEq, Eq, Structural)]
pub struct MessagingGlobalConfig {
    pub default_push_depth: Depth,
    pub default_retain_depth: Depth,
    pub default_standing_retain_depth: Depth,
    pub default_noise: NoiseLevel,
    pub default_sink: Sink,
    pub default_wake_min: WakeMin,
    pub default_send_budget: u32,
    pub default_send_rate: SendRate,
}

/// A token bucket: how many publishes it holds and how long it takes to gain one.
#[derive(Clone, Copy, Debug, PartialEq, Eq, Structural)]
pub struct AttachSendBudget {
    pub burst: u32,
    pub refill_secs: u64,
}

/// The bounds and defaults the surface shell was built with.
#[derive(Debug)]
pub struct SurfaceLimits {
    pub max_subscription_bindings: usize,
    pub max_components: usize,
    pub default_publish_burst: u32,
    pub default_publish_per_sec: u32,
    pub default_send: AttachSendBudget,
    /// The names of the skins that are compiled in.
    pub skins: Vec<String>,
}

/// The artifact shape behind a component.
#[derive(Clone, Copy, Debug, PartialEq, Eq, Structural)]
pub enum Abi {
    Dom,
    Processor,
    DomTs,
    Html,
}

/// A right the operator can give a surface.
#[derive(Clone, Copy, Debug, PartialEq, Eq, Structural)]
pub enum SurfaceGrant {
    Subscribe,
    Publish,
    EphemeralSubscribe,
    EphemeralPublish,
    Takeover,
    Alert,
}

impl SurfaceGrant {
    /// The capability the grant stands for.
    pub open spec fn as_capability(self) -> AppCapability {
        match self {
            SurfaceGrant::Subscribe => AppCapability::MessagingSubscribe,
            SurfaceGrant::Publish => AppCapability::MessagingPublish,
            SurfaceGrant::EphemeralSubscribe => AppCapability::EphemeralSubscribe,
            SurfaceGrant::EphemeralPublish => AppCapability::EphemeralPublish,
            SurfaceGrant::Takeover => AppCapability::SurfaceTakeover,
            SurfaceGrant::Alert => AppCapability::SurfaceAlert,
        }
    }

    /// The capability the grant stands for.
    pub fn capability(self) -> (capability: AppCapability)
        ensures
            capability == self.as_capability(),
    {
        match self {
            SurfaceGrant::Subscribe => AppCapability::MessagingSubscribe,
            SurfaceGrant::Publish => AppCapability::MessagingPublish,
            SurfaceGrant::EphemeralSubscribe => AppCapability::EphemeralSubscribe,
            SurfaceGrant::EphemeralPublish => AppCapability::EphemeralPublish,
            SurfaceGrant::Takeover => AppCapability::SurfaceTakeover,
            SurfaceGrant::Alert => AppCapability::SurfaceAlert,
        }
    }
}

/// A component as the operator declares it.
#[derive(Debug)]
pub struct SurfaceComponentRaw {
    pub kind: String,
    pub instance: Option<String>,
    pub abi: String,
    pub send_burst: Option<u32>,
    pub send_refill_secs: Option<u64>,
    pub parked_batch_depth: Option<Depth>,
    /// The component's static map, in key order.
    pub config: Option<Vec<(String, String)>>,
    pub chrome: bool,
}

/// An input binding as the operator declares it.
#[derive(Debug, PartialEq, Eq)]
pub struct SurfaceSubscriptionRaw {
    pub channel: Option<String>,
    pub instance: String,
    pub port: String,
    pub push_depth: Option<Depth>,
    pub retain_depth: Option<Depth>,
    pub noise: Option<NoiseLevel>,
    pub wake_min: Option<WakeMin>,
}

/// An output binding as the operator declares it; the budget knobs are in thousandths of a
/// publish.
#[derive(Debug, PartialEq, Eq)]
pub struct SurfaceOutputRaw {
    pub instance: String,
    pub port: String,
    pub channel: Option<String>,
    pub urgency: Option<Urgency>,
    pub publish_per_activation_mt: Option<u64>,
    pub publish_capacity_mt: Option<u64>,
}

/// A port that both reads and writes one channel, as the operator declares it.
#[derive(Debug, PartialEq, Eq)]
pub struct SurfaceIoPortRaw {
    pub instance: String,
    pub port: String,
    pub channel: Option<String>,
    pub push_depth: Option<Depth>,
    pub retain_depth: Option<Depth>,
    pub noise: Option<NoiseLevel>,
    pub urgency: Option<Urgency>,
    pub publish_per_activation_mt: Option<u64>,
    pub publish_capacity_mt: Option<u64>,
}

/// A surface as the operator declares it.
#[derive(Debug)]
pub struct SurfaceConfigRaw {
    pub slug: String,
    pub grants: Vec<SurfaceGrant>,
    pub subscribe_acl: Vec<ChannelMatcher>,
    pub publish_acl: Vec<ChannelMatcher>,
    pub ephemeral_subscribe_acl: Vec<ChannelMatcher>,
    pub ephemeral_publish_acl: Vec<ChannelMatcher>,
    pub components: Vec<SurfaceComponentRaw>,
    pub subscriptions: Vec<SurfaceSubscriptionRaw>,
    pub outputs: Vec<SurfaceOutputRaw>,
    pub io_ports: Vec<SurfaceIoPortRaw>,
    pub skin: Option<String>,
    pub allowed_users: Vec<String>,
    pub publish_burst: Option<u32>,
    pub publish_per_sec: Option<u32>,
}

/// The address that connection lowering gave one port of a surface.
#[derive(Debug)]
pub struct AutoPort {
    pub slug: String,
    pub instance: String,
    pub port: String,
    pub address: String,
}

/// A right that connection lowering derived for a surface, with the channel it is for.
#[derive(Debug)]
pub struct AutoGrant {
    pub slug: String,
    pub capability: AppCapability,
    pub name: String,
}

/// What lowering the operator's connections gave the surfaces.
#[derive(Debug)]
pub struct AutoWiring {
    pub ports: Vec<AutoPort>,
    pub grants: Vec<AutoGrant>,
}

/// A component as boot resolves it.
#[derive(Debug, PartialEq, Eq)]
pub struct ResolvedComponent {
    pub instance: String,
    pub kind: String,
    pub abi: Abi,
    pub config: Vec<(String, String)>,
    pub send_budget: AttachSendBudget,
    pub parked_batch_depth: u64,
    pub chrome: bool,
}

/// A subscription as the directory keeps it.
#[derive(Debug, PartialEq, Eq)]
pub struct ResolvedSubscription {
    pub channel_uuid: u128,
    pub channel_address: String,
    pub push_depth: Depth,
    pub retain_depth: Depth,
    pub noise: NoiseLevel,
    pub wake_min: WakeMin,
}

impl Clone for ResolvedSubscription {
    fn clone(&self) -> (copy: ResolvedSubscription)
        ensures
            copy == *self,
    {
        ResolvedSubscription {
            channel_uuid: self.channel_uuid,
            channel_address: self.channel_address.clone(),
            push_depth: self.push_depth,
            retain_depth: self.retain_depth,
            noise: self.noise,
            wake_min: self.wake_min,
        }
    }
}

/// The subscription of one component instance of a surface.
#[derive(Debug, PartialEq, Eq)]
pub struct ResolvedSurfaceSubscription {
    pub instance: String,
    pub subscription: ResolvedSubscription,
}

/// An input binding as boot resolves it.
#[derive(Debug, PartialEq, Eq)]
pub struct SurfaceBinding {
    pub channel_address: String,
    pub instance: String,
    pub port: String,
    pub push_depth: u64,
    pub retain_depth: u64,
    pub noise: NoiseLevel,
}

/// An output binding as boot resolves it.
#[derive(Debug, PartialEq, Eq)]
pub struct SurfaceOutput {
    pub channel_address: String,
    pub instance: String,
    pub port: String,
    pub default_urgency: Urgency,
    pub budget: SinkBudget,
}

/// A surface as boot resolves it.
#[derive(Debug)]
pub struct ResolvedSurface {
    pub slug: String,
    pub skin: String,
    pub components: Vec<ResolvedComponent>,
    pub subscriptions: Vec<SurfaceBinding>,
    pub wire_subscriptions: Vec<ResolvedSurfaceSubscription>,
    pub local_channels: Vec<ResolvedLocalChannel>,
    pub outputs: Vec<SurfaceOutput>,
    pub policy: AppPolicy,
    pub allowed_users: Vec<String>,
    pub publish_burst: u32,
    pub publish_per_sec: u32,
}

/// Why a surface is refused.
#[derive(Clone, Copy, Debug, PartialEq, Eq, Structural)]
pub enum SurfaceFaultKind {
    DuplicateSlug,
    EmptySlug,
    SlugCharset,
    NoComponents,
    EmptyKind,
    KindShape,
    InstanceShape,
    DuplicateInstance,
    UnknownAbi,
    UnsupportedAbi,
    ConfigWithoutReader,
    ReservedConfigKey,
    ZeroSendBurst,
    SendBurstBelowFlush,
    ZeroSendRefill,
    UnboundedParkedBatches,
    ZeroParkedBatches,
    ChromeCount,
    EmptyUser,
    DuplicateUser,
    SendRateInterval,
    ZeroPublishBurst,
    ZeroPublishPerSec,
    PublishBurstCeiling,
    PublishPerSecCeiling,
    UnknownSkin,
    UnboundPort,
    PortClaimedTwice,
    UndeclaredInstance,
    EmptyPort,
    PortCharset,
    UnknownChannel,
    WrongTransport,
    EmptyLocalName,
    UndefinedPlane,
    LocalCharset,
    SchemeRefused,
    DuplicateBinding,
    NotAuthorized,
    WakeMinSet,
    TakeoverGrantMissing,
    KernelPlane,
    PlaneRetainFixed,
    UnboundedRing,
    UnstatedQueue,
    UnboundedQueue,
    ChannelRetainsNothing,
    UnboundedContext,
    ConflictingNoise,
    AlertGrantMissing,
    NoiseWithoutQueue,
    DeadPort,
    CannotActivate,
    TooManySubscriptions,
    TooManyComponents,
}

/// Why surfaces are refused: the place of the surface, the place of the component, user or
/// binding within it, and what is wrong there.
#[derive(Clone, Copy, Debug, PartialEq, Eq, Structural)]
pub struct SurfaceFault {
    pub surface: usize,
    pub item: usize,
    pub kind: SurfaceFaultKind,
}

} // verus!
