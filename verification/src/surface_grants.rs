//! The rights every surface holds by being one, and the check that its outputs are covered.

use vstd::prelude::*;
use vstd::string::*;

use crate::address;
use crate::address::ChannelScheme;
use crate::model;
use crate::policy;
use crate::policy::{AppCapability, AppPolicy, PolicyView};
use crate::surface_model::{ResolvedSurface, SurfaceOutput};

verus! {

/// Whether `policy` covers publishing on `channel`. A page-local channel needs no cover: its
/// traffic never reaches the bus.
pub open spec fn publish_covered(policy: PolicyView, channel: Seq<char>) -> bool {
    match address::scheme_of(channel) {
        Some(ChannelScheme::Ephemeral) => policy.publishes_ephemeral(
            ChannelScheme::Ephemeral.name_in(channel),
        ),
        Some(ChannelScheme::Brenn) => policy.publishes_brenn(ChannelScheme::Brenn.name_in(channel)),
        Some(ChannelScheme::Local) => true,
        Some(ChannelScheme::Mqtt) | Some(ChannelScheme::Webhook) | None => false,
    }
}

/// The check of one output of a surface.
pub open spec fn cover_faults(surface: ResolvedSurface) -> spec_fn(int) -> Option<()> {
    |j: int|
        model::unless(
            publish_covered(surface.policy@, surface.outputs@[j].channel_address@),
            (),
        )
}

/// The check of one surface's outputs.
pub open spec fn surface_cover_faults(surfaces: Seq<ResolvedSurface>) -> spec_fn(int) -> Option<
    (nat, ()),
> {
    |i: int| model::first_fault(cover_faults(surfaces[i]), surfaces[i].outputs@.len())
}

/// An output its surface may not publish on.
#[derive(Clone, Copy, Debug, PartialEq, Eq, Structural)]
pub struct UncoveredOutput {
    pub surface: usize,
    pub output: usize,
}

fn covers_publish(policy: &AppPolicy, channel: &str) -> (covered: bool)
    ensures
        covered == publish_covered(policy@, channel@),
{
    match ChannelScheme::split(channel) {
        Some((ChannelScheme::Ephemeral, name)) => policy.allows_ephemeral_publish(name.as_str()),
        Some((ChannelScheme::Brenn, name)) => policy.allows_brenn_publish(name.as_str()),
        Some((ChannelScheme::Local, _name)) => true,
        Some((ChannelScheme::Mqtt, _name)) => false,
        Some((ChannelScheme::Webhook, _name)) => false,
        None => false,
    }
}

fn first_uncovered(surface: &ResolvedSurface) -> (at: Option<usize>)
    ensures
        match model::first_fault(cover_faults(*surface), surface.outputs@.len()) {
            Some(fault) => at matches Some(j) && j == fault.0,
            None => at is None,
        },
{
    let n: usize = surface.outputs.len();
    let mut j: usize = 0;
    while j < n
        invariant
            j <= n,
            n == surface.outputs@.len(),
            model::first_fault(cover_faults(*surface), j as nat) is None,
        decreases n - j,
    {
        let output: &SurfaceOutput = &surface.outputs[j];
        if !covers_publish(&surface.policy, output.channel_address.as_str()) {
            proof {
                model::fault_stands(cover_faults(*surface), (j + 1) as nat, n as nat);
            }
            return Some(j);
        }
        j = j + 1;
    }
    None
}

/// Refuse the first output binding whose surface's policy does not let it publish there: it
/// could never publish.
pub fn assert_output_bindings_covered(surfaces: &[ResolvedSurface]) -> (outcome: Result<
    (),
    UncoveredOutput,
>)
    ensures
        match model::first_fault(surface_cover_faults(surfaces@), surfaces@.len()) {
            Some(fault) => outcome matches Err(e) && e.surface == fault.0 && e.output == fault.1.0,
            None => outcome is Ok,
        },
{
    let n: usize = surfaces.len();
    let mut i: usize = 0;
    while i < n
        invariant
            i <= n,
            n == surfaces@.len(),
            model::first_fault(surface_cover_faults(surfaces@), i as nat) is None,
        decreases n - i,
    {
        if let Some(output) = first_uncovered(&surfaces[i]) {
            proof {
                model::fault_stands(surface_cover_faults(surfaces@), (i + 1) as nat, n as nat);
            }
            return Err(UncoveredOutput { surface: i, output });
        }
        i = i + 1;
    }
    Ok(())
}

/// The bare name of a channel derived for one surface.
pub open spec fn derived_name(prefix: Seq<char>, slug: Seq<char>, leaf: Seq<char>) -> Seq<char> {
    prefix + ".surface."@ + slug + leaf
}

/// The bare name of the channel on which a surface reports its geometry.
pub open spec fn geometry_name(prefix: Seq<char>, slug: Seq<char>) -> Seq<char> {
    derived_name(prefix, slug, ".geometry"@)
}

/// The bare name of the channel on which a surface reports its status.
pub open spec fn status_name(prefix: Seq<char>, slug: Seq<char>) -> Seq<char> {
    derived_name(prefix, slug, ".status"@)
}

/// The bare name of the channel on which a surface reads its bindings.
pub open spec fn config_name(prefix: Seq<char>, slug: Seq<char>) -> Seq<char> {
    derived_name(prefix, slug, ".bindings"@)
}

fn derive_name(prefix: &str, slug: &str, leaf: &str) -> (name: String)
    ensures
        name@ == derived_name(prefix@, slug@, leaf@),
{
    let mut name: String = prefix.to_owned();
    name.append(".surface.");
    name.append(slug);
    name.append(leaf);
    name
}

/// The bare name of the channel on which a surface reports its geometry.
pub fn surface_geometry_bare(prefix: &str, slug: &str) -> (name: String)
    ensures
        name@ == geometry_name(prefix@, slug@),
{
    derive_name(prefix, slug, ".geometry")
}

/// The bare name of the channel on which a surface reports its status.
pub fn surface_status_bare(prefix: &str, slug: &str) -> (name: String)
    ensures
        name@ == status_name(prefix@, slug@),
{
    derive_name(prefix, slug, ".status")
}

/// The bare name of the channel on which a surface reads its bindings.
pub fn surface_config_bare(prefix: &str, slug: &str) -> (name: String)
    ensures
        name@ == config_name(prefix@, slug@),
{
    derive_name(prefix, slug, ".bindings")
}

/// Whether `after` is `before` with another policy and nothing else changed.
pub open spec fn only_policy_changed(before: ResolvedSurface, after: ResolvedSurface) -> bool {
    after == (ResolvedSurface { policy: after.policy, ..before })
}

/// Let every surface publish its error reports on the durable channel `bare`.
pub fn inject_surface_error_grant(surfaces: &mut Vec<ResolvedSurface>, bare: &str)
    ensures
        final(surfaces)@.len() == old(surfaces)@.len(),
        forall|i: int|
            #![trigger final(surfaces)@[i]]
            0 <= i < old(surfaces)@.len() ==> only_policy_changed(
                old(surfaces)@[i],
                final(surfaces)@[i],
            ) && final(surfaces)@[i].policy@ == old(surfaces)@[i].policy@.granted(
                AppCapability::MessagingPublish,
                bare@,
            ),
{
    let n: usize = surfaces.len();
    let ghost before = surfaces@;
    let mut i: usize = 0;
    while i < n
        invariant
            i <= n,
            n == before.len(),
            surfaces@.len() == n,
            forall|k: int| i <= k < n ==> #[trigger] surfaces@[k] == before[k],
            forall|k: int|
                #![trigger surfaces@[k]]
                0 <= k < i ==> only_policy_changed(before[k], surfaces@[k])
                    && surfaces@[k].policy@ == before[k].policy@.granted(
                    AppCapability::MessagingPublish,
                    bare@,
                ),
        decreases n - i,
    {
        surfaces[i].policy.grant(AppCapability::MessagingPublish, bare);
        i = i + 1;
    }
}

/// Let every surface read its own bindings channel, and no other surface's.
pub fn inject_surface_config_subscribe_grants(surfaces: &mut Vec<ResolvedSurface>, prefix: &str)
    ensures
        final(surfaces)@.len() == old(surfaces)@.len(),
        forall|i: int|
            #![trigger final(surfaces)@[i]]
            0 <= i < old(surfaces)@.len() ==> only_policy_changed(
                old(surfaces)@[i],
                final(surfaces)@[i],
            ) && final(surfaces)@[i].policy@ == old(surfaces)@[i].policy@.granted(
                AppCapability::EphemeralSubscribe,
                config_name(prefix@, old(surfaces)@[i].slug@),
            ),
{
    let n: usize = surfaces.len();
    let ghost before = surfaces@;
    let mut i: usize = 0;
    while i < n
        invariant
            i <= n,
            n == before.len(),
            surfaces@.len() == n,
            forall|k: int| i <= k < n ==> #[trigger] surfaces@[k] == before[k],
            forall|k: int|
                #![trigger surfaces@[k]]
                0 <= k < i ==> only_policy_changed(before[k], surfaces@[k])
                    && surfaces@[k].policy@ == before[k].policy@.granted(
                    AppCapability::EphemeralSubscribe,
                    config_name(prefix@, before[k].slug@),
                ),
        decreases n - i,
    {
        let name: String = surface_config_bare(prefix, surfaces[i].slug.as_str());
        surfaces[i].policy.grant(AppCapability::EphemeralSubscribe, name.as_str());
        i = i + 1;
    }
}

/// Let every surface publish its own geometry and status, and no other surface's.
pub fn inject_surface_geometry_status_grants(surfaces: &mut Vec<ResolvedSurface>, prefix: &str)
    ensures
        final(surfaces)@.len() == old(surfaces)@.len(),
        forall|i: int|
            #![trigger final(surfaces)@[i]]
            0 <= i < old(surfaces)@.len() ==> only_policy_changed(
                old(surfaces)@[i],
                final(surfaces)@[i],
            ) && final(surfaces)@[i].policy@ == old(surfaces)@[i].policy@.granted(
                AppCapability::MessagingPublish,
                geometry_name(prefix@, old(surfaces)@[i].slug@),
            ).granted(
                AppCapability::MessagingPublish,
                status_name(prefix@, old(surfaces)@[i].slug@),
            ),
{
    let n: usize = surfaces.len();
    let ghost before = surfaces@;
    let mut i: usize = 0;
    while i < n
        invariant
            i <= n,
            n == before.len(),
            surfaces@.len() == n,
            forall|k: int| i <= k < n ==> #[trigger] surfaces@[k] == before[k],
            forall|k: int|
                #![trigger surfaces@[k]]
                0 <= k < i ==> only_policy_changed(before[k], surfaces@[k])
                    && surfaces@[k].policy@ == before[k].policy@.granted(
                    AppCapability::MessagingPublish,
                    geometry_name(prefix@, before[k].slug@),
                ).granted(
                    AppCapability::MessagingPublish,
                    status_name(prefix@, before[k].slug@),
                ),
        decreases n - i,
    {
        let geometry: String = surface_geometry_bare(prefix, surfaces[i].slug.as_str());
        let status: String = surface_status_bare(prefix, surfaces[i].slug.as_str());
        surfaces[i].policy.grant(AppCapability::MessagingPublish, geometry.as_str());
        surfaces[i].policy.grant(AppCapability::MessagingPublish, status.as_str());
        i = i + 1;
    }
}

/// The telemetry grants cover the surface's own two channels and, beyond what its matchers
/// covered before, nothing else.
pub proof fn telemetry_grants_are_scoped(
    policy: PolicyView,
    prefix: Seq<char>,
    slug: Seq<char>,
    name: Seq<char>,
)
    ensures
        policy.granted(AppCapability::MessagingPublish, geometry_name(prefix, slug)).granted(
            AppCapability::MessagingPublish,
            status_name(prefix, slug),
        ).publishes_brenn(name) <==> policy::covered(policy.brenn_publish, name) || name
            == geometry_name(prefix, slug) || name == status_name(prefix, slug),
{
    let old_list = policy.brenn_publish;
    let after = policy.granted(
        AppCapability::MessagingPublish,
        geometry_name(prefix, slug),
    ).granted(AppCapability::MessagingPublish, status_name(prefix, slug));
    let list = after.brenn_publish;
    let n = old_list.len() as int;
    assert(list[n].covers(name) == (name == geometry_name(prefix, slug)));
    assert(list[n + 1].covers(name) == (name == status_name(prefix, slug)));
    assert forall|i: int| 0 <= i < n implies list[i] == #[trigger] old_list[i] by {}
    if policy::covered(old_list, name) {
        let i = choose|i: int| 0 <= i < old_list.len() && (#[trigger] old_list[i]).covers(name);
        assert(list[i].covers(name));
    }
    if policy::covered(list, name) {
        let i = choose|i: int| 0 <= i < list.len() && (#[trigger] list[i]).covers(name);
        if i < n {
            assert(old_list[i].covers(name));
        }
    }
}

proof fn derived_name_determines_slug(
    prefix: Seq<char>,
    a: Seq<char>,
    b: Seq<char>,
    leaf: Seq<char>,
)
    requires
        derived_name(prefix, a, leaf) == derived_name(prefix, b, leaf),
    ensures
        a == b,
{
    let m = prefix + ".surface."@;
    let x = derived_name(prefix, a, leaf);
    let y = derived_name(prefix, b, leaf);
    assert(x.len() == m.len() + a.len() + leaf.len());
    assert(y.len() == m.len() + b.len() + leaf.len());
    assert(a =~= x.subrange(m.len() as int, (m.len() + a.len()) as int));
    assert(b =~= y.subrange(m.len() as int, (m.len() + b.len()) as int));
}

/// Two surfaces with different slugs have different derived channels, whatever the prefix.
pub proof fn derived_channels_are_per_surface(prefix: Seq<char>, a: Seq<char>, b: Seq<char>)
    requires
        a != b,
    ensures
        geometry_name(prefix, a) != geometry_name(prefix, b),
        status_name(prefix, a) != status_name(prefix, b),
        config_name(prefix, a) != config_name(prefix, b),
{
    if geometry_name(prefix, a) == geometry_name(prefix, b) {
        derived_name_determines_slug(prefix, a, b, ".geometry"@);
    }
    if status_name(prefix, a) == status_name(prefix, b) {
        derived_name_determines_slug(prefix, a, b, ".status"@);
    }
    if config_name(prefix, a) == config_name(prefix, b) {
        derived_name_determines_slug(prefix, a, b, ".bindings"@);
    }
}

/// An output on the error channel is covered once the error grant is in, whatever the operator's
/// own lists say.
pub proof fn error_grant_covers_the_error_channel(
    policy: PolicyView,
    bare: Seq<char>,
    channel: Seq<char>,
)
    requires
        ChannelScheme::Brenn.names(channel),
        ChannelScheme::Brenn.name_in(channel) == bare,
    ensures
        publish_covered(policy.granted(AppCapability::MessagingPublish, bare), channel),
{
    address::one_scheme_per_address(channel, ChannelScheme::Brenn, ChannelScheme::Brenn);
    policy::a_grant_only_adds(policy, AppCapability::MessagingPublish, bare);
}

/// An output is covered where its own transport's publish right and list cover its name; in the
/// page it needs no cover, and on any other address it never has one.
pub proof fn each_transport_covers_its_own_outputs(policy: PolicyView, name: Seq<char>)
    ensures
        publish_covered(policy, "ephemeral:"@ + name) <==> policy.publishes_ephemeral(name),
        publish_covered(policy, "brenn:"@ + name) <==> policy.publishes_brenn(name),
        publish_covered(policy, "local:"@ + name),
        !publish_covered(policy, "mqtt:"@ + name),
        !publish_covered(policy, "webhook:"@ + name),
        address::scheme_of(name) is None ==> !publish_covered(policy, name),
{
    address::an_address_is_its_prefix_and_its_name(name);
}

/// A surface's own channels are named after it, below the prefix: its geometry, its status and
/// its bindings.
pub proof fn a_surfaces_channels_are_named_after_it(prefix: Seq<char>, slug: Seq<char>)
    ensures
        geometry_name(prefix, slug) == prefix + ".surface."@ + slug + ".geometry"@,
        status_name(prefix, slug) == prefix + ".surface."@ + slug + ".status"@,
        config_name(prefix, slug) == prefix + ".surface."@ + slug + ".bindings"@,
{
}

/// The check of the outputs passes exactly where every surface's policy covers every one of its
/// outputs.
pub proof fn outputs_pass_where_all_are_covered(surfaces: Seq<ResolvedSurface>)
    ensures
        model::first_fault(surface_cover_faults(surfaces), surfaces.len()) is None <==> forall|
            i: int,
            j: int,
        |
            0 <= i < surfaces.len() && 0 <= j < surfaces[i].outputs@.len() ==> publish_covered(
                surfaces[i].policy@,
                (#[trigger] surfaces[i].outputs@[j]).channel_address@,
            ),
{
    let faults = surface_cover_faults(surfaces);
    model::first_fault_is_first(faults, surfaces.len());
    assert forall|i: int| 0 <= i < surfaces.len() implies (#[trigger] faults(i)) is None == (forall|
        j: int,
    |
        0 <= j < surfaces[i].outputs@.len() ==> publish_covered(
            surfaces[i].policy@,
            (#[trigger] surfaces[i].outputs@[j]).channel_address@,
        )) by {
        one_surfaces_outputs_pass(surfaces[i]);
    }
    if model::first_fault(faults, surfaces.len()) is None {
        assert forall|i: int, j: int|
            0 <= i < surfaces.len() && 0 <= j < surfaces[i].outputs@.len() implies publish_covered(
            surfaces[i].policy@,
            (#[trigger] surfaces[i].outputs@[j]).channel_address@,
        ) by {
            assert(faults(i) is None);
        }
    }
}

proof fn one_surfaces_outputs_pass(surface: ResolvedSurface)
    ensures
        model::first_fault(cover_faults(surface), surface.outputs@.len()) is None <==> forall|
            j: int,
        |
            0 <= j < surface.outputs@.len() ==> publish_covered(
                surface.policy@,
                (#[trigger] surface.outputs@[j]).channel_address@,
            ),
{
    let faults = cover_faults(surface);
    model::first_fault_is_first(faults, surface.outputs@.len());
    assert forall|j: int| 0 <= j < surface.outputs@.len() implies faults(j) is None
        == publish_covered(
        surface.policy@,
        (#[trigger] surface.outputs@[j]).channel_address@,
    ) by {}
}

/// A surface with another policy is the same surface in everything else.
pub proof fn another_policy_changes_nothing_else(before: ResolvedSurface, after: ResolvedSurface)
    requires
        only_policy_changed(before, after),
    ensures
        after.slug == before.slug,
        after.skin == before.skin,
        after.components == before.components,
        after.subscriptions == before.subscriptions,
        after.wire_subscriptions == before.wire_subscriptions,
        after.local_channels == before.local_channels,
        after.outputs == before.outputs,
        after.allowed_users == before.allowed_users,
        after.publish_burst == before.publish_burst,
        after.publish_per_sec == before.publish_per_sec,
{
}

} // verus!
