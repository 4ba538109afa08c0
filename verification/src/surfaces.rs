//! Resolving the operator's surfaces against the channel directory.

use vstd::prelude::*;
use vstd::string::*;

use crate::address;
use crate::address::{is_unreserved, is_valid_kind};
use crate::directory::{ChannelEntry, MessagingDirectory};
use crate::model;
use crate::policy;
use crate::policy::{contains_text, AclSet, AppCapability, AppPolicy, GrantSet, PolicyView};
use crate::rings;
use crate::rings::list_rings;
use crate::surface_bindings::{Inputs, Outputs, Wiring};
use crate::surface_model::{
    AutoWiring, MessagingGlobalConfig, ResolvedComponent, ResolvedSurface,
    ResolvedSurfaceSubscription, SurfaceBinding, SurfaceComponentRaw, SurfaceConfigRaw,
    SurfaceFault, SurfaceFaultKind, SurfaceLimits, SurfaceOutputRaw, SurfaceSubscriptionRaw,
};
use crate::surface_rules;
use crate::surface_rules::{
    assert_instance_can_activate, resolve_abi, resolve_component_config,
    resolve_parked_batch_depth, resolve_send_budget, surface_io_bindings,
};
use crate::surface_scene;
use crate::surface_scene::Scene;
use crate::text::same_text;

verus! {

/// The skin of a surface that states none.
pub const DEFAULT_SKIN: &'static str = "bench";

/// The policy of a surface: what the operator wrote and what lowering derived.
pub open spec fn surface_policy(raw: SurfaceConfigRaw, auto_wiring: AutoWiring) -> PolicyView {
    surface_scene::with_auto_grants(
        surface_scene::authored_policy(raw),
        auto_wiring.grants@,
        raw.slug@,
        auto_wiring.grants@.len(),
    )
}

/// One surface with everything its bindings are resolved against.
pub open spec fn scene_of(
    raw: SurfaceConfigRaw,
    entries: Seq<ChannelEntry>,
    globals: MessagingGlobalConfig,
    auto_wiring: AutoWiring,
) -> Scene {
    Scene {
        raw,
        entries,
        globals,
        ports: auto_wiring.ports@,
        policy: surface_policy(raw, auto_wiring),
    }
}

/// What is wrong with component `j` of a surface.
pub open spec fn component_fault(raw: SurfaceConfigRaw, limits: SurfaceLimits, j: int) -> Option<
    SurfaceFaultKind,
> {
    let component = raw.components@[j];
    let instance = surface_rules::instance_of(component)@;
    if component.kind@.len() == 0 {
        Some(SurfaceFaultKind::EmptyKind)
    } else if !address::kind_shaped(component.kind@) {
        Some(SurfaceFaultKind::KindShape)
    } else if !address::kind_shaped(instance) {
        Some(SurfaceFaultKind::InstanceShape)
    } else if exists|k: int|
        0 <= k < j && surface_rules::instance_of(#[trigger] raw.components@[k])@ == instance {
        Some(SurfaceFaultKind::DuplicateInstance)
    } else {
        match surface_rules::abi_of(component.abi@) {
            Err(fault) => Some(fault),
            Ok(abi) => model::first_of(
                surface_rules::config_fault(abi, component.config),
                match surface_rules::send_budget_of(
                    component.send_burst,
                    component.send_refill_secs,
                    limits.default_send,
                ) {
                    Err(fault) => Some(fault),
                    Ok(_) => match surface_rules::parked_depth_of(component.parked_batch_depth) {
                        Err(fault) => Some(fault),
                        Ok(_) => None,
                    },
                },
            ),
        }
    }
}

/// The check of one component.
pub open spec fn component_faults(raw: SurfaceConfigRaw, limits: SurfaceLimits) -> spec_fn(
    int,
) -> Option<SurfaceFaultKind> {
    |j: int| component_fault(raw, limits, j)
}

/// Whether `resolved` is what `component` comes to.
pub open spec fn component_resolved(
    component: SurfaceComponentRaw,
    limits: SurfaceLimits,
    resolved: ResolvedComponent,
) -> bool {
    &&& resolved.instance == surface_rules::instance_of(component)
    &&& resolved.kind == component.kind
    &&& surface_rules::abi_of(component.abi@) == Ok::<_, SurfaceFaultKind>(resolved.abi)
    &&& resolved.config@ == surface_rules::config_entries(component.config)
    &&& surface_rules::send_budget_of(
        component.send_burst,
        component.send_refill_secs,
        limits.default_send,
    ) == Ok::<_, SurfaceFaultKind>(resolved.send_budget)
    &&& surface_rules::parked_depth_of(component.parked_batch_depth) == Ok::<_, SurfaceFaultKind>(
        resolved.parked_batch_depth,
    )
    &&& resolved.chrome == component.chrome
}

/// What is wrong with allowed user `j`.
pub open spec fn user_fault(users: Seq<String>, j: int) -> Option<SurfaceFaultKind> {
    if users[j]@.len() == 0 {
        Some(SurfaceFaultKind::EmptyUser)
    } else if exists|k: int| 0 <= k < j && (#[trigger] users[k])@ == users[j]@ {
        Some(SurfaceFaultKind::DuplicateUser)
    } else {
        None
    }
}

/// The check of one allowed user.
pub open spec fn user_faults(users: Seq<String>) -> spec_fn(int) -> Option<SurfaceFaultKind> {
    |j: int| user_fault(users, j)
}

/// What is wrong with the surface's own name and shape.
pub open spec fn header_fault(raw: SurfaceConfigRaw) -> Option<SurfaceFaultKind> {
    if raw.slug@.len() == 0 {
        Some(SurfaceFaultKind::EmptySlug)
    } else if !address::all_unreserved(raw.slug@) {
        Some(SurfaceFaultKind::SlugCharset)
    } else {
        model::unless(raw.components@.len() > 0, SurfaceFaultKind::NoComponents)
    }
}

/// The publish bucket of one connection of the surface.
pub open spec fn publish_burst_of(raw: SurfaceConfigRaw, limits: SurfaceLimits) -> u32 {
    model::or_rung(raw.publish_burst, limits.default_publish_burst)
}

/// The sustained publish rate of one connection of the surface.
pub open spec fn publish_per_sec_of(raw: SurfaceConfigRaw, limits: SurfaceLimits) -> u32 {
    model::or_rung(raw.publish_per_sec, limits.default_publish_per_sec)
}

/// What is wrong with the surface's publish budget: the connection's bucket must hold something
/// and must run dry no later than the bus's own.
pub open spec fn budget_fault(
    raw: SurfaceConfigRaw,
    globals: MessagingGlobalConfig,
    limits: SurfaceLimits,
) -> Option<SurfaceFaultKind> {
    if globals.default_send_rate.refill_interval_secs != 1 {
        Some(SurfaceFaultKind::SendRateInterval)
    } else if publish_burst_of(raw, limits) == 0 {
        Some(SurfaceFaultKind::ZeroPublishBurst)
    } else if publish_per_sec_of(raw, limits) == 0 {
        Some(SurfaceFaultKind::ZeroPublishPerSec)
    } else if publish_burst_of(raw, limits) > globals.default_send_rate.burst {
        Some(SurfaceFaultKind::PublishBurstCeiling)
    } else {
        model::unless(
            publish_per_sec_of(raw, limits) <= globals.default_send_rate.refill,
            SurfaceFaultKind::PublishPerSecCeiling,
        )
    }
}

/// The skin of a surface.
pub open spec fn skin_of(raw: SurfaceConfigRaw) -> Seq<char> {
    match raw.skin {
        Some(skin) => skin@,
        None => DEFAULT_SKIN@,
    }
}

/// Whether component `j` has input bindings but none that could activate it.
pub open spec fn activation_fault(scene: Scene, j: int) -> Option<SurfaceFaultKind> {
    model::unless(
        !surface_rules::never_activates(
            surface_scene::depths_of(
                scene.bindings(scene.subs().len()),
                surface_rules::instance_of(scene.raw.components@[j])@,
            ),
        ),
        SurfaceFaultKind::CannotActivate,
    )
}

/// The check of one component's bindings.
pub open spec fn activation_faults(scene: Scene) -> spec_fn(int) -> Option<SurfaceFaultKind> {
    |j: int| activation_fault(scene, j)
}

/// A fault of the surface as a whole, placed at its first item.
pub open spec fn at_front(fault: Option<SurfaceFaultKind>) -> Option<(nat, SurfaceFaultKind)> {
    match fault {
        Some(kind) => Some((0nat, kind)),
        None => None,
    }
}

/// The first thing that is wrong with a surface: its name and shape, its components, its users,
/// its budget and skin, its inputs, its size, its outputs, in this order.
pub open spec fn surface_fault(
    raw: SurfaceConfigRaw,
    entries: Seq<ChannelEntry>,
    globals: MessagingGlobalConfig,
    auto_wiring: AutoWiring,
    limits: SurfaceLimits,
) -> Option<(nat, SurfaceFaultKind)> {
    let scene = scene_of(raw, entries, globals, auto_wiring);
    let n = raw.components@.len();
    model::first_of(
        at_front(header_fault(raw)),
        model::first_of(
            model::first_fault(component_faults(raw, limits), n),
            model::first_of(
                at_front(
                    model::unless(
                        surface_scene::chrome_count(raw.components@) == 1,
                        SurfaceFaultKind::ChromeCount,
                    ),
                ),
                model::first_of(
                    model::first_fault(
                        user_faults(raw.allowed_users@),
                        raw.allowed_users@.len(),
                    ),
                    model::first_of(
                        at_front(budget_fault(raw, globals, limits)),
                        model::first_of(
                            at_front(
                                model::unless(
                                    policy::texts(limits.skins@).contains(skin_of(raw)),
                                    SurfaceFaultKind::UnknownSkin,
                                ),
                            ),
                            bindings_fault(scene, limits),
                        ),
                    ),
                ),
            ),
        ),
    )
}

/// The first thing that is wrong with a surface's bindings.
pub open spec fn bindings_fault(scene: Scene, limits: SurfaceLimits) -> Option<
    (nat, SurfaceFaultKind),
> {
    model::first_of(
        model::first_fault(scene.sub_faults(), scene.subs().len()),
        model::first_of(
            model::first_fault(activation_faults(scene), scene.raw.components@.len()),
            model::first_of(
                at_front(
                    model::unless(
                        scene.subs().len() <= limits.max_subscription_bindings,
                        SurfaceFaultKind::TooManySubscriptions,
                    ),
                ),
                model::first_of(
                    at_front(
                        model::unless(
                            scene.raw.components@.len() <= limits.max_components,
                            SurfaceFaultKind::TooManyComponents,
                        ),
                    ),
                    model::first_fault(scene.out_faults(), scene.outs().len()),
                ),
            ),
        ),
    )
}

/// Whether `resolved` lists what the components come to, in order.
pub open spec fn components_resolved(
    raw: SurfaceConfigRaw,
    limits: SurfaceLimits,
    resolved: Seq<ResolvedComponent>,
) -> bool {
    &&& resolved.len() == raw.components@.len()
    &&& forall|j: int|
        0 <= j < resolved.len() ==> component_resolved(
            raw.components@[j],
            limits,
            #[trigger] resolved[j],
        )
}

/// Whether `resolved` is what the surface `raw` resolves to, its policy aside.
pub open spec fn surface_shaped(
    raw: SurfaceConfigRaw,
    entries: Seq<ChannelEntry>,
    globals: MessagingGlobalConfig,
    auto_wiring: AutoWiring,
    limits: SurfaceLimits,
    resolved: ResolvedSurface,
) -> bool {
    let scene = scene_of(raw, entries, globals, auto_wiring);
    &&& resolved.slug == raw.slug
    &&& resolved.skin@ == skin_of(raw)
    &&& components_resolved(raw, limits, resolved.components@)
    &&& resolved.subscriptions@ == scene.bindings(scene.subs().len())
    &&& resolved.wire_subscriptions@ == scene.wires(scene.subs().len())
    &&& rings::lists_rings(
        resolved.local_channels@,
        rings::rings_of(scene.sub_asks(scene.subs().len()) + scene.out_asks(scene.outs().len())),
    )
    &&& resolved.outputs@ == scene.outputs(scene.outs().len())
    &&& policy::texts(resolved.allowed_users@) == policy::texts(raw.allowed_users@)
    &&& resolved.publish_burst == publish_burst_of(raw, limits)
    &&& resolved.publish_per_sec == publish_per_sec_of(raw, limits)
}

/// Whether `resolved` is what a surface comes to.
pub open spec fn surface_resolved(
    raw: SurfaceConfigRaw,
    entries: Seq<ChannelEntry>,
    globals: MessagingGlobalConfig,
    auto_wiring: AutoWiring,
    limits: SurfaceLimits,
    resolved: ResolvedSurface,
) -> bool {
    &&& surface_shaped(raw, entries, globals, auto_wiring, limits, resolved)
    &&& resolved.policy@ == surface_policy(raw, auto_wiring)
}

/// Whether an earlier surface has the slug of surface `i`.
pub open spec fn slug_fault(raws: Seq<SurfaceConfigRaw>, i: int) -> Option<SurfaceFaultKind> {
    model::unless(
        !exists|k: int| 0 <= k < i && (#[trigger] raws[k]).slug@ == raws[i].slug@,
        SurfaceFaultKind::DuplicateSlug,
    )
}

/// The check of one slug.
pub open spec fn slug_faults(raws: Seq<SurfaceConfigRaw>) -> spec_fn(int) -> Option<
    SurfaceFaultKind,
> {
    |i: int| slug_fault(raws, i)
}

/// The check of one surface.
pub open spec fn surface_faults(
    raws: Seq<SurfaceConfigRaw>,
    entries: Seq<ChannelEntry>,
    globals: MessagingGlobalConfig,
    auto_wiring: AutoWiring,
    limits: SurfaceLimits,
) -> spec_fn(int) -> Option<(nat, SurfaceFaultKind)> {
    |i: int| surface_fault(raws[i], entries, globals, auto_wiring, limits)
}

/// Whether `fault` reports that `kind` is wrong at an item of a surface.
pub open spec fn reports(fault: SurfaceFault, surface: nat, item: nat, kind: SurfaceFaultKind) -> bool {
    fault.surface == surface && fault.item == item && fault.kind == kind
}

/// Whether nothing is wrong with any of the surfaces.
pub open spec fn all_surfaces_resolve(
    raws: Seq<SurfaceConfigRaw>,
    entries: Seq<ChannelEntry>,
    globals: MessagingGlobalConfig,
    auto_wiring: AutoWiring,
    limits: SurfaceLimits,
) -> bool {
    &&& model::first_fault(slug_faults(raws), raws.len()) is None
    &&& model::first_fault(
        surface_faults(raws, entries, globals, auto_wiring, limits),
        raws.len(),
    ) is None
}

/// What resolving the surfaces comes to: a slug used twice, else the first fault of the first
/// surface that has one, else every surface resolved in declaration order.
pub open spec fn surfaces_outcome(
    raws: Seq<SurfaceConfigRaw>,
    entries: Seq<ChannelEntry>,
    globals: MessagingGlobalConfig,
    auto_wiring: AutoWiring,
    limits: SurfaceLimits,
    resolved: Result<Vec<ResolvedSurface>, SurfaceFault>,
) -> bool {
    match model::first_fault(slug_faults(raws), raws.len()) {
        Some(fault) => resolved matches Err(e) && reports(e, fault.0, 0, fault.1),
        None => match model::first_fault(
            surface_faults(raws, entries, globals, auto_wiring, limits),
            raws.len(),
        ) {
            Some(fault) => resolved matches Err(e) && reports(e, fault.0, fault.1.0, fault.1.1),
            None => {
                &&& resolved matches Ok(list)
                &&& list@.len() == raws.len()
                &&& forall|i: int|
                    0 <= i < list@.len() ==> surface_resolved(
                        raws[i],
                        entries,
                        globals,
                        auto_wiring,
                        limits,
                        #[trigger] list@[i],
                    )
            },
        },
    }
}

fn resolve_component(raw: &SurfaceConfigRaw, limits: &SurfaceLimits, j: usize) -> (resolved: Result<
    ResolvedComponent,
    SurfaceFaultKind,
>)
    requires
        j < raw.components@.len(),
    ensures
        match component_fault(*raw, *limits, j as int) {
            Some(fault) => resolved == Err::<ResolvedComponent, SurfaceFaultKind>(fault),
            None => resolved matches Ok(r) && component_resolved(
                raw.components@[j as int],
                *limits,
                r,
            ),
        },
{
    let component: &SurfaceComponentRaw = &raw.components[j];
    if component.kind.as_str().unicode_len() == 0 {
        return Err(SurfaceFaultKind::EmptyKind);
    }
    if !is_valid_kind(component.kind.as_str()) {
        return Err(SurfaceFaultKind::KindShape);
    }
    let instance: String = match &component.instance {
        Some(instance) => instance.clone(),
        None => component.kind.clone(),
    };
    if !is_valid_kind(instance.as_str()) {
        return Err(SurfaceFaultKind::InstanceShape);
    }
    let mut k: usize = 0;
    while k < j
        invariant
            k <= j < raw.components@.len(),
            instance == surface_rules::instance_of(raw.components@[j as int]),
            address::kind_shaped(instance@),
            address::kind_shaped(raw.components@[j as int].kind@),
            raw.components@[j as int].kind@.len() > 0,
            forall|m: int|
                0 <= m < k ==> surface_rules::instance_of(#[trigger] raw.components@[m])@
                    != instance@,
        decreases j - k,
    {
        let other: &SurfaceComponentRaw = &raw.components[k];
        let id: &String = match &other.instance {
            Some(id) => id,
            None => &other.kind,
        };
        if *id == instance {
            assert(surface_rules::instance_of(raw.components@[k as int])@ == instance@);
            return Err(SurfaceFaultKind::DuplicateInstance);
        }
        k = k + 1;
    }
    let abi = match resolve_abi(component.abi.as_str()) {
        Ok(abi) => abi,
        Err(fault) => {
            return Err(fault);
        },
    };
    let config: Vec<(String, String)> = match resolve_component_config(abi, &component.config) {
        Ok(config) => config,
        Err(fault) => {
            return Err(fault);
        },
    };
    let send_budget = match resolve_send_budget(
        component.send_burst,
        component.send_refill_secs,
        limits.default_send,
    ) {
        Ok(budget) => budget,
        Err(fault) => {
            return Err(fault);
        },
    };
    let parked_batch_depth: u64 = match resolve_parked_batch_depth(component.parked_batch_depth) {
        Ok(depth) => depth,
        Err(fault) => {
            return Err(fault);
        },
    };
    Ok(
        ResolvedComponent {
            instance,
            kind: component.kind.clone(),
            abi,
            config,
            send_budget,
            parked_batch_depth,
            chrome: component.chrome,
        },
    )
}

fn resolve_components(raw: &SurfaceConfigRaw, limits: &SurfaceLimits) -> (resolved: Result<
    Vec<ResolvedComponent>,
    (usize, SurfaceFaultKind),
>)
    ensures
        match model::first_fault(component_faults(*raw, *limits), raw.components@.len()) {
            Some(fault) => resolved matches Err(e) && e.0 == fault.0 && e.1 == fault.1,
            None => resolved matches Ok(list) && components_resolved(*raw, *limits, list@),
        },
{
    let n: usize = raw.components.len();
    let mut list: Vec<ResolvedComponent> = Vec::new();
    let mut j: usize = 0;
    while j < n
        invariant
            j <= n,
            n == raw.components@.len(),
            list@.len() == j,
            forall|k: int|
                0 <= k < j ==> component_resolved(
                    raw.components@[k],
                    *limits,
                    #[trigger] list@[k],
                ),
            model::first_fault(component_faults(*raw, *limits), j as nat) is None,
        decreases n - j,
    {
        match resolve_component(raw, limits, j) {
            Ok(component) => {
                list.push(component);
            },
            Err(kind) => {
                proof {
                    model::fault_stands(component_faults(*raw, *limits), (j + 1) as nat, n as nat);
                }
                return Err((j, kind));
            },
        }
        j = j + 1;
    }
    Ok(list)
}

fn count_chrome(components: &Vec<SurfaceComponentRaw>) -> (count: usize)
    ensures
        count == surface_scene::chrome_count(components@),
{
    let n: usize = components.len();
    let mut count: usize = 0;
    let mut j: usize = 0;
    while j < n
        invariant
            j <= n,
            n == components@.len(),
            count <= j,
            count == surface_scene::chrome_count(components@.take(j as int)),
        decreases n - j,
    {
        assert(components@.take(j as int + 1).drop_last() =~= components@.take(j as int));
        if components[j].chrome {
            count = count + 1;
        }
        j = j + 1;
    }
    assert(components@.take(n as int) =~= components@);
    count
}

fn check_users(users: &Vec<String>) -> (outcome: Result<(), (usize, SurfaceFaultKind)>)
    ensures
        match model::first_fault(user_faults(users@), users@.len()) {
            Some(fault) => outcome matches Err(e) && e.0 == fault.0 && e.1 == fault.1,
            None => outcome is Ok,
        },
{
    let n: usize = users.len();
    let mut j: usize = 0;
    while j < n
        invariant
            j <= n,
            n == users@.len(),
            model::first_fault(user_faults(users@), j as nat) is None,
        decreases n - j,
    {
        let mut fault: Option<SurfaceFaultKind> = None;
        if users[j].as_str().unicode_len() == 0 {
            fault = Some(SurfaceFaultKind::EmptyUser);
        } else {
            let mut k: usize = 0;
            while k < j
                invariant
                    k <= j < users@.len(),
                    users@[j as int]@.len() > 0,
                    fault is None <==> forall|m: int|
                        0 <= m < k ==> (#[trigger] users@[m])@ != users@[j as int]@,
                    fault is Some ==> fault == Some(SurfaceFaultKind::DuplicateUser),
                decreases j - k,
            {
                if users[k] == users[j] {
                    fault = Some(SurfaceFaultKind::DuplicateUser);
                }
                k = k + 1;
            }
        }
        assert(fault == user_fault(users@, j as int));
        if let Some(kind) = fault {
            proof {
                model::fault_stands(user_faults(users@), (j + 1) as nat, n as nat);
            }
            return Err((j, kind));
        }
        j = j + 1;
    }
    Ok(())
}

fn check_header(raw: &SurfaceConfigRaw) -> (fault: Option<SurfaceFaultKind>)
    ensures
        fault == header_fault(*raw),
{
    if raw.slug.as_str().unicode_len() == 0 {
        return Some(SurfaceFaultKind::EmptySlug);
    }
    if !is_unreserved(raw.slug.as_str()) {
        return Some(SurfaceFaultKind::SlugCharset);
    }
    if raw.components.len() == 0 {
        return Some(SurfaceFaultKind::NoComponents);
    }
    None
}

fn check_budget(raw: &SurfaceConfigRaw, globals: &MessagingGlobalConfig, limits: &SurfaceLimits) -> (fault:
    Option<SurfaceFaultKind>)
    ensures
        fault == budget_fault(*raw, *globals, *limits),
{
    let burst: u32 = match raw.publish_burst {
        Some(burst) => burst,
        None => limits.default_publish_burst,
    };
    let per_sec: u32 = match raw.publish_per_sec {
        Some(per_sec) => per_sec,
        None => limits.default_publish_per_sec,
    };
    if globals.default_send_rate.refill_interval_secs != 1 {
        return Some(SurfaceFaultKind::SendRateInterval);
    }
    if burst == 0 {
        return Some(SurfaceFaultKind::ZeroPublishBurst);
    }
    if per_sec == 0 {
        return Some(SurfaceFaultKind::ZeroPublishPerSec);
    }
    if burst > globals.default_send_rate.burst {
        return Some(SurfaceFaultKind::PublishBurstCeiling);
    }
    if per_sec > globals.default_send_rate.refill {
        return Some(SurfaceFaultKind::PublishPerSecCeiling);
    }
    None
}

/// Build the policy the operator wrote for a surface.
pub fn build_surface_policy(raw: &SurfaceConfigRaw) -> (built: AppPolicy)
    ensures
        built@ == surface_scene::authored_policy(*raw),
{
    let mut grants: GrantSet = GrantSet::new();
    let n: usize = raw.grants.len();
    let mut i: usize = 0;
    while i < n
        invariant
            i <= n,
            n == raw.grants@.len(),
            grants@ == surface_scene::capabilities(raw.grants@.take(i as int)),
        decreases n - i,
    {
        let ghost before = raw.grants@.take(i as int);
        let ghost now = raw.grants@.take(i as int + 1);
        grants.insert(raw.grants[i].capability());
        proof {
            let added = raw.grants@[i as int].as_capability();
            assert forall|c: AppCapability|
                surface_scene::capabilities(before).insert(added).contains(c)
                    == surface_scene::capabilities(now).contains(c) by {
                if surface_scene::capabilities(before).contains(c) {
                    let k = choose|k: int|
                        0 <= k < before.len() && (#[trigger] before[k]).as_capability() == c;
                    assert(now[k].as_capability() == c);
                }
                if c == added {
                    assert(now[i as int].as_capability() == c);
                }
                if surface_scene::capabilities(now).contains(c) {
                    let k = choose|k: int|
                        0 <= k < now.len() && (#[trigger] now[k]).as_capability() == c;
                    if k < i {
                        assert(before[k].as_capability() == c);
                    }
                }
            }
            assert(grants@ =~= surface_scene::capabilities(now));
        }
        i = i + 1;
    }
    assert(raw.grants@.take(n as int) =~= raw.grants@);
    let mut acls: AclSet = AclSet::new();
    acls.brenn_subscribe = raw.subscribe_acl.clone();
    acls.brenn_publish = raw.publish_acl.clone();
    acls.ephemeral_subscribe = raw.ephemeral_subscribe_acl.clone();
    acls.ephemeral_publish = raw.ephemeral_publish_acl.clone();
    let built = AppPolicy { grants, acls, tool_grants: Vec::new() };
    assert(built.acls.brenn_subscribe@ =~= raw.subscribe_acl@);
    assert(built.acls.brenn_publish@ =~= raw.publish_acl@);
    assert(built.acls.ephemeral_subscribe@ =~= raw.ephemeral_subscribe_acl@);
    assert(built.acls.ephemeral_publish@ =~= raw.ephemeral_publish_acl@);
    assert(built@ =~= surface_scene::authored_policy(*raw));
    built
}

fn queue_depths(bindings: &Vec<SurfaceBinding>, instance: &str) -> (depths: Vec<u64>)
    ensures
        depths@ == surface_scene::depths_of(bindings@, instance@),
{
    let n: usize = bindings.len();
    let mut depths: Vec<u64> = Vec::new();
    let mut i: usize = 0;
    while i < n
        invariant
            i <= n,
            n == bindings@.len(),
            depths@ == surface_scene::depths_of(bindings@.take(i as int), instance@),
        decreases n - i,
    {
        assert(bindings@.take(i as int + 1).drop_last() =~= bindings@.take(i as int));
        if same_text(bindings[i].instance.as_str(), instance) {
            depths.push(bindings[i].push_depth);
        }
        i = i + 1;
    }
    assert(bindings@.take(n as int) =~= bindings@);
    depths
}

fn check_activation(
    slug: &str,
    components: &Vec<ResolvedComponent>,
    bindings: &Vec<SurfaceBinding>,
    Ghost(scene): Ghost<Scene>,
) -> (outcome: Result<(), (usize, SurfaceFaultKind)>)
    requires
        bindings@ == scene.bindings(scene.subs().len()),
        components@.len() == scene.raw.components@.len(),
        forall|j: int|
            0 <= j < components@.len() ==> (#[trigger] components@[j]).instance
                == surface_rules::instance_of(scene.raw.components@[j]),
    ensures
        match model::first_fault(activation_faults(scene), scene.raw.components@.len()) {
            Some(fault) => outcome matches Err(e) && e.0 == fault.0 && e.1 == fault.1,
            None => outcome is Ok,
        },
{
    let n: usize = components.len();
    let mut j: usize = 0;
    while j < n
        invariant
            j <= n,
            n == components@.len(),
            n == scene.raw.components@.len(),
            bindings@ == scene.bindings(scene.subs().len()),
            forall|k: int|
                0 <= k < components@.len() ==> (#[trigger] components@[k]).instance
                    == surface_rules::instance_of(scene.raw.components@[k]),
            model::first_fault(activation_faults(scene), j as nat) is None,
        decreases n - j,
    {
        let instance: &str = components[j].instance.as_str();
        let depths: Vec<u64> = queue_depths(bindings, instance);
        let outcome = assert_instance_can_activate(slug, instance, depths.as_slice());
        if outcome.is_err() {
            assert(activation_fault(scene, j as int) == Some(SurfaceFaultKind::CannotActivate));
            proof {
                model::fault_stands(activation_faults(scene), (j + 1) as nat, n as nat);
            }
            return Err((j, SurfaceFaultKind::CannotActivate));
        }
        assert(activation_fault(scene, j as int) is None);
        j = j + 1;
    }
    Ok(())
}

fn all_subscriptions(raw: &SurfaceConfigRaw, io: Vec<SurfaceSubscriptionRaw>) -> (subs: Vec<
    SurfaceSubscriptionRaw,
>)
    ensures
        subs@ == raw.subscriptions@ + io@,
{
    let n: usize = raw.subscriptions.len();
    let mut subs: Vec<SurfaceSubscriptionRaw> = Vec::new();
    let mut i: usize = 0;
    while i < n
        invariant
            i <= n,
            n == raw.subscriptions@.len(),
            subs@ == raw.subscriptions@.take(i as int),
        decreases n - i,
    {
        let sub: &SurfaceSubscriptionRaw = &raw.subscriptions[i];
        subs.push(
            SurfaceSubscriptionRaw {
                channel: match &sub.channel {
                    Some(channel) => Some(channel.clone()),
                    None => None,
                },
                instance: sub.instance.clone(),
                port: sub.port.clone(),
                push_depth: sub.push_depth,
                retain_depth: sub.retain_depth,
                noise: sub.noise,
                wake_min: sub.wake_min,
            },
        );
        i = i + 1;
    }
    assert(raw.subscriptions@.take(n as int) =~= raw.subscriptions@);
    let mut rest: Vec<SurfaceSubscriptionRaw> = io;
    subs.append(&mut rest);
    subs
}

fn all_outputs(raw: &SurfaceConfigRaw, io: Vec<SurfaceOutputRaw>) -> (outs: Vec<SurfaceOutputRaw>)
    ensures
        outs@ == raw.outputs@ + io@,
{
    let n: usize = raw.outputs.len();
    let mut outs: Vec<SurfaceOutputRaw> = Vec::new();
    let mut i: usize = 0;
    while i < n
        invariant
            i <= n,
            n == raw.outputs@.len(),
            outs@ == raw.outputs@.take(i as int),
        decreases n - i,
    {
        let out: &SurfaceOutputRaw = &raw.outputs[i];
        outs.push(
            SurfaceOutputRaw {
                instance: out.instance.clone(),
                port: out.port.clone(),
                channel: match &out.channel {
                    Some(channel) => Some(channel.clone()),
                    None => None,
                },
                urgency: out.urgency,
                publish_per_activation_mt: out.publish_per_activation_mt,
                publish_capacity_mt: out.publish_capacity_mt,
            },
        );
        i = i + 1;
    }
    assert(raw.outputs@.take(n as int) =~= raw.outputs@);
    let mut rest: Vec<SurfaceOutputRaw> = io;
    outs.append(&mut rest);
    outs
}

/// The bindings of a surface once they are all resolved.
struct BoundSurface {
    bindings: Vec<SurfaceBinding>,
    wires: Vec<ResolvedSurfaceSubscription>,
    outputs: Outputs,
}

fn resolve_bindings(
    wiring: &Wiring,
    components: &Vec<ResolvedComponent>,
    limits: &SurfaceLimits,
) -> (resolved: Result<BoundSurface, (usize, SurfaceFaultKind)>)
    requires
        components@.len() == wiring.raw.components@.len(),
        forall|j: int|
            0 <= j < components@.len() ==> (#[trigger] components@[j]).instance
                == surface_rules::instance_of(wiring.raw.components@[j]),
    ensures
        match bindings_fault(wiring.scene(), *limits) {
            Some(fault) => resolved matches Err(e) && e.0 == fault.0 && e.1 == fault.1,
            None => resolved matches Ok(bound) && bound.bindings@ == wiring.scene().bindings(
                wiring.scene().subs().len(),
            ) && bound.wires@ == wiring.scene().wires(wiring.scene().subs().len())
                && wiring.outputs_at(bound.outputs, wiring.scene().outs().len()),
        },
{
    let (io_subs, io_outs) = surface_io_bindings(&wiring.raw.io_ports);
    let subs: Vec<SurfaceSubscriptionRaw> = all_subscriptions(wiring.raw, io_subs);
    let outs: Vec<SurfaceOutputRaw> = all_outputs(wiring.raw, io_outs);
    assert(subs@ =~= wiring.scene().subs());
    assert(outs@ =~= wiring.scene().outs());
    let Inputs { bindings, wires, rings } = match wiring.resolve_inputs(&subs) {
        Ok(inputs) => inputs,
        Err(fault) => {
            return Err(fault);
        },
    };
    if let Err(fault) = check_activation(
        wiring.raw.slug.as_str(),
        components,
        &bindings,
        Ghost(wiring.scene()),
    ) {
        return Err(fault);
    }
    if subs.len() > limits.max_subscription_bindings {
        return Err((0, SurfaceFaultKind::TooManySubscriptions));
    }
    if components.len() > limits.max_components {
        return Err((0, SurfaceFaultKind::TooManyComponents));
    }
    match wiring.resolve_outputs(&outs, rings) {
        Ok(outputs) => Ok(BoundSurface { bindings, wires, outputs }),
        Err(fault) => Err(fault),
    }
}

fn copy_texts(list: &Vec<String>) -> (copy: Vec<String>)
    ensures
        copy@ == list@,
{
    let copy: Vec<String> = list.clone();
    assert(copy@ =~= list@);
    copy
}

fn resolve_surface(
    raw: &SurfaceConfigRaw,
    directory: &MessagingDirectory,
    globals: &MessagingGlobalConfig,
    auto_wiring: &AutoWiring,
    limits: &SurfaceLimits,
) -> (resolved: Result<ResolvedSurface, (usize, SurfaceFaultKind)>)
    ensures
        match surface_fault(*raw, directory.entries@, *globals, *auto_wiring, *limits) {
            Some(fault) => resolved matches Err(e) && e.0 == fault.0 && e.1 == fault.1,
            None => resolved matches Ok(surface) && surface_resolved(
                *raw,
                directory.entries@,
                *globals,
                *auto_wiring,
                *limits,
                surface,
            ),
        },
{
    if let Some(kind) = check_header(raw) {
        return Err((0, kind));
    }
    let components: Vec<ResolvedComponent> = match resolve_components(raw, limits) {
        Ok(components) => components,
        Err(fault) => {
            return Err(fault);
        },
    };
    if count_chrome(&raw.components) != 1 {
        return Err((0, SurfaceFaultKind::ChromeCount));
    }
    if let Err(fault) = check_users(&raw.allowed_users) {
        return Err(fault);
    }
    if let Some(kind) = check_budget(raw, globals, limits) {
        return Err((0, kind));
    }
    let skin: String = match &raw.skin {
        Some(skin) => skin.clone(),
        None => DEFAULT_SKIN.to_owned(),
    };
    if !contains_text(&limits.skins, skin.as_str()) {
        return Err((0, SurfaceFaultKind::UnknownSkin));
    }
    let mut policy: AppPolicy = build_surface_policy(raw);
    auto_wiring.inject_surface_grants(raw.slug.as_str(), &mut policy);
    let wiring = Wiring { raw, directory, globals, auto_wiring, policy: &policy };
    assert(wiring.scene() == scene_of(*raw, directory.entries@, *globals, *auto_wiring));
    let bound: BoundSurface = match resolve_bindings(&wiring, &components, limits) {
        Ok(bound) => bound,
        Err(fault) => {
            return Err(fault);
        },
    };
    let BoundSurface { bindings, wires, outputs: Outputs { outputs, rings } } = bound;
    Ok(
        ResolvedSurface {
            slug: raw.slug.clone(),
            skin,
            components,
            subscriptions: bindings,
            wire_subscriptions: wires,
            local_channels: list_rings(&rings),
            outputs,
            policy,
            allowed_users: copy_texts(&raw.allowed_users),
            publish_burst: match raw.publish_burst {
                Some(burst) => burst,
                None => limits.default_publish_burst,
            },
            publish_per_sec: match raw.publish_per_sec {
                Some(per_sec) => per_sec,
                None => limits.default_publish_per_sec,
            },
        },
    )
}

fn check_slugs(raws: &[SurfaceConfigRaw]) -> (outcome: Result<(), usize>)
    ensures
        match model::first_fault(slug_faults(raws@), raws@.len()) {
            Some(fault) => outcome matches Err(i) && i == fault.0 && fault.1
                == SurfaceFaultKind::DuplicateSlug,
            None => outcome is Ok,
        },
{
    let n: usize = raws.len();
    let mut i: usize = 0;
    while i < n
        invariant
            i <= n,
            n == raws@.len(),
            model::first_fault(slug_faults(raws@), i as nat) is None,
        decreases n - i,
    {
        let mut k: usize = 0;
        while k < i
            invariant
                k <= i < n,
                n == raws@.len(),
                model::first_fault(slug_faults(raws@), i as nat) is None,
                forall|m: int| 0 <= m < k ==> (#[trigger] raws@[m]).slug@ != raws@[i as int].slug@,
            decreases i - k,
        {
            if raws[k].slug == raws[i].slug {
                assert(raws@[k as int].slug@ == raws@[i as int].slug@);
                assert(slug_fault(raws@, i as int) == Some(SurfaceFaultKind::DuplicateSlug));
                proof {
                    model::fault_stands(slug_faults(raws@), (i + 1) as nat, n as nat);
                }
                return Err(i);
            }
            k = k + 1;
        }
        assert(slug_fault(raws@, i as int) is None);
        i = i + 1;
    }
    Ok(())
}

/// Resolve the operator's surfaces, in declaration order, or report the first thing that is
/// wrong: a slug used twice, else the first fault of the first surface that has one.
pub fn resolve_surfaces(
    raw_surfaces: &[SurfaceConfigRaw],
    directory: &MessagingDirectory,
    globals: &MessagingGlobalConfig,
    auto_wiring: &AutoWiring,
    limits: &SurfaceLimits,
) -> (resolved: Result<Vec<ResolvedSurface>, SurfaceFault>)
    ensures
        surfaces_outcome(
            raw_surfaces@,
            directory.entries@,
            *globals,
            *auto_wiring,
            *limits,
            resolved,
        ),
{
    if let Err(surface) = check_slugs(raw_surfaces) {
        return Err(SurfaceFault { surface, item: 0, kind: SurfaceFaultKind::DuplicateSlug });
    }
    let n: usize = raw_surfaces.len();
    let ghost faults = surface_faults(
        raw_surfaces@,
        directory.entries@,
        *globals,
        *auto_wiring,
        *limits,
    );
    let mut list: Vec<ResolvedSurface> = Vec::new();
    let mut i: usize = 0;
    while i < n
        invariant
            i <= n,
            n == raw_surfaces@.len(),
            faults == surface_faults(
                raw_surfaces@,
                directory.entries@,
                *globals,
                *auto_wiring,
                *limits,
            ),
            model::first_fault(slug_faults(raw_surfaces@), raw_surfaces@.len()) is None,
            model::first_fault(faults, i as nat) is None,
            list@.len() == i,
            forall|k: int|
                0 <= k < i ==> surface_resolved(
                    raw_surfaces@[k],
                    directory.entries@,
                    *globals,
                    *auto_wiring,
                    *limits,
                    #[trigger] list@[k],
                ),
        decreases n - i,
    {
        match resolve_surface(&raw_surfaces[i], directory, globals, auto_wiring, limits) {
            Ok(surface) => {
                list.push(surface);
            },
            Err((item, kind)) => {
                proof {
                    model::fault_stands(faults, (i + 1) as nat, n as nat);
                }
                return Err(SurfaceFault { surface: i, item, kind });
            },
        }
        i = i + 1;
    }
    Ok(list)
}

} // verus!
