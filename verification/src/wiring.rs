//! How every subscriber is registered and reached, and the check that none is left out.

use indexmap::IndexMap;
use vstd::prelude::*;
use vstd::string::*;

use crate::apps;
use crate::apps::{app_at, app_count, find_app, AppConfig};
use crate::delivery::{Participants, Roster, SystemParticipantSpec};
use crate::directory::{ChannelEntry, MessagingDirectory, SubscriberEntryKind, SubscriberView};
use crate::model;
use crate::model::WakeEconomics;
use crate::policy;
use crate::policy::{
    contains_text, copy_tool_grants, AppPolicy, PolicyView, ToolGrant, ToolGrantView,
};
use crate::surface_model::{AttachSendBudget, ResolvedSurface};
use crate::text::{join, same_text};
use crate::wasm_model::ResolvedWasmConsumer;

verus! {

/// The principals of a surface: the surface itself, then each of its component instances.
pub open spec fn principals_of(surface: ResolvedSurface) -> Seq<Option<Seq<char>>> {
    Seq::new(
        surface.components@.len() + 1,
        |k: int|
            if k == 0 {
                None
            } else {
                Some(surface.components@[k - 1].instance@)
            },
    )
}

/// What a list of optional instance ids says.
pub open spec fn instance_views(list: Seq<Option<String>>) -> Seq<Option<Seq<char>>> {
    Seq::new(
        list.len(),
        |k: int|
            match list[k] {
                Some(i) => Some(i@),
                None => None,
            },
    )
}

/// The publish budget of each principal of a surface.
pub open spec fn budgets_of(surface: ResolvedSurface, kernel: AttachSendBudget) -> Seq<
    (Option<Seq<char>>, AttachSendBudget),
> {
    Seq::new(
        surface.components@.len() + 1,
        |k: int|
            (
                principals_of(surface)[k],
                if k == 0 {
                    kernel
                } else {
                    surface.components@[k - 1].send_budget
                },
            ),
    )
}

/// What a list of budgets says.
pub open spec fn budget_views(list: Seq<(Option<String>, AttachSendBudget)>) -> Seq<
    (Option<Seq<char>>, AttachSendBudget),
> {
    Seq::new(
        list.len(),
        |k: int|
            (
                match list[k].0 {
                    Some(i) => Some(i@),
                    None => None,
                },
                list[k].1,
            ),
    )
}

impl ResolvedSurface {
    /// The principals of the surface: itself, then each of its component instances.
    pub fn principals(&self) -> (principals: Vec<Option<String>>)
        ensures
            instance_views(principals@) == principals_of(*self),
    {
        let mut principals: Vec<Option<String>> = Vec::new();
        principals.push(None);
        let n: usize = self.components.len();
        let mut i: usize = 0;
        while i < n
            invariant
                i <= n,
                n == self.components@.len(),
                instance_views(principals@) =~= principals_of(*self).take(i + 1),
            decreases n - i,
        {
            let ghost before = principals@;
            principals.push(Some(self.components[i].instance.clone()));
            assert(instance_views(principals@) =~= instance_views(before).push(
                Some(self.components@[i as int].instance@),
            ));
            i = i + 1;
        }
        assert(principals_of(*self).take(n + 1) =~= principals_of(*self));
        principals
    }

    /// The publish budget of each principal: the surface's own identity has `kernel`, each
    /// instance the budget it resolved to.
    pub fn principal_send_budgets(&self, kernel: AttachSendBudget) -> (budgets: Vec<
        (Option<String>, AttachSendBudget),
    >)
        ensures
            budget_views(budgets@) == budgets_of(*self, kernel),
    {
        let mut budgets: Vec<(Option<String>, AttachSendBudget)> = Vec::new();
        budgets.push((None, kernel));
        let n: usize = self.components.len();
        let mut i: usize = 0;
        while i < n
            invariant
                i <= n,
                n == self.components@.len(),
                budget_views(budgets@) =~= budgets_of(*self, kernel).take(i + 1),
            decreases n - i,
        {
            let ghost before = budgets@;
            budgets.push(
                (Some(self.components[i].instance.clone()), self.components[i].send_budget),
            );
            assert(budget_views(budgets@) =~= budget_views(before).push(
                (Some(self.components@[i as int].instance@), self.components@[i as int].send_budget),
            ));
            i = i + 1;
        }
        assert(budgets_of(*self, kernel).take(n + 1) =~= budgets_of(*self, kernel));
        budgets
    }

    /// Whether `user` may open the surface: everyone where it names no users.
    pub fn user_has_access(&self, user: &str) -> (allowed: bool)
        ensures
            allowed == (self.allowed_users@.len() == 0 || policy::texts(
                self.allowed_users@,
            ).contains(user@)),
    {
        self.allowed_users.len() == 0 || contains_text(&self.allowed_users, user)
    }
}

/// The budgets and the principals of a surface never disagree about who there is: every principal
/// has exactly one budget, in the same order.
pub proof fn every_principal_has_its_budget(surface: ResolvedSurface, kernel: AttachSendBudget)
    ensures
        budgets_of(surface, kernel).len() == principals_of(surface).len(),
        forall|k: int|
            0 <= k < principals_of(surface).len() ==> (#[trigger] budgets_of(surface, kernel)[k]).0
                == principals_of(surface)[k],
{
}

/// A subscriber of the bus with its policy and with when it is woken.
#[derive(Debug)]
pub struct SubscriberRegistration {
    pub kind: SubscriberEntryKind,
    pub policy: AppPolicy,
    pub wake: WakeEconomics,
}

/// What a list of registrations says.
pub open spec fn registration_views(list: Seq<SubscriberRegistration>) -> Seq<
    (SubscriberView, PolicyView, WakeEconomics),
> {
    Seq::new(list.len(), |i: int| (list[i].kind@, list[i].policy@, list[i].wake))
}

/// The registrations of one surface: one for each principal, all with the surface's policy.
pub open spec fn surface_registrations(surface: ResolvedSurface) -> Seq<
    (SubscriberView, PolicyView, WakeEconomics),
> {
    Seq::new(
        principals_of(surface).len(),
        |k: int|
            (
                SubscriberView::Surface { slug: surface.slug@, instance: principals_of(surface)[k] },
                surface.policy@,
                WakeEconomics::Eager,
            ),
    )
}

/// The registrations of the first `n` surfaces.
pub open spec fn surfaces_registrations(surfaces: Seq<ResolvedSurface>, n: nat) -> Seq<
    (SubscriberView, PolicyView, WakeEconomics),
>
    decreases n,
{
    if n == 0 {
        Seq::empty()
    } else {
        surfaces_registrations(surfaces, (n - 1) as nat) + surface_registrations(surfaces[n - 1])
    }
}

/// The registrations of the consumers.
pub open spec fn consumer_registrations(consumers: Seq<ResolvedWasmConsumer>) -> Seq<
    (SubscriberView, PolicyView, WakeEconomics),
> {
    Seq::new(
        consumers.len(),
        |i: int| (SubscriberView::Wasm(consumers[i].slug@), consumers[i].policy@, WakeEconomics::Eager),
    )
}

/// The registrations of the system participants.
pub open spec fn system_registrations(systems: Seq<SystemParticipantSpec>) -> Seq<
    (SubscriberView, PolicyView, WakeEconomics),
> {
    Seq::new(
        systems.len(),
        |i: int| (SubscriberView::System(systems[i].component@), systems[i].policy@, WakeEconomics::Eager),
    )
}

/// Everyone but the apps, each woken at once: consumers, then the principals of each surface, then the system.
pub open spec fn registrations_of(roster: Roster) -> Seq<(SubscriberView, PolicyView, WakeEconomics)> {
    consumer_registrations(roster.consumers) + surfaces_registrations(
        roster.surfaces,
        roster.surfaces.len(),
    ) + system_registrations(roster.systems)
}

fn register_surface(registrations: &mut Vec<SubscriberRegistration>, surface: &ResolvedSurface)
    ensures
        registration_views(final(registrations)@) == registration_views(old(registrations)@)
            + surface_registrations(*surface),
{
    let ghost start = registration_views(registrations@);
    let principals: Vec<Option<String>> = surface.principals();
    let n: usize = principals.len();
    let mut k: usize = 0;
    assert(instance_views(principals@).len() == n);
    assert(registration_views(registrations@) =~= start + surface_registrations(*surface).take(0));
    while k < n
        invariant
            k <= n,
            n == principals@.len(),
            n == principals_of(*surface).len(),
            instance_views(principals@) == principals_of(*surface),
            registration_views(registrations@) == start + surface_registrations(*surface).take(
                k as int,
            ),
        decreases n - k,
    {
        let instance: Option<String> = match &principals[k] {
            Some(i) => Some(i.clone()),
            None => None,
        };
        let ghost before = registrations@;
        let kind = SubscriberEntryKind::Surface { slug: surface.slug.clone(), instance };
        assert(kind@->instance == instance_views(principals@)[k as int]);
        registrations.push(
            SubscriberRegistration {
                kind,
                policy: surface.policy.clone(),
                wake: WakeEconomics::Eager,
            },
        );
        assert(registration_views(registrations@) =~= registration_views(before).push(
            surface_registrations(*surface)[k as int],
        ));
        assert(surface_registrations(*surface).take(k + 1) =~= surface_registrations(*surface).take(
            k as int,
        ).push(surface_registrations(*surface)[k as int]));
        assert(registration_views(registrations@) =~= start + surface_registrations(*surface).take(
            k + 1,
        ));
        k = k + 1;
    }
    assert(surface_registrations(*surface).take(n as int) =~= surface_registrations(*surface));
}

/// Register everyone but the apps.
pub fn subscriber_registrations(participants: &Participants) -> (registrations: Vec<
    SubscriberRegistration,
>)
    ensures
        registration_views(registrations@) == registrations_of(participants.roster()),
{
    let ghost roster = participants.roster();
    let mut registrations: Vec<SubscriberRegistration> = Vec::new();
    let n: usize = participants.wasm_consumers.len();
    let mut i: usize = 0;
    while i < n
        invariant
            i <= n,
            n == participants.wasm_consumers@.len(),
            registration_views(registrations@) =~= consumer_registrations(
                participants.wasm_consumers@,
            ).take(i as int),
        decreases n - i,
    {
        let consumer: &ResolvedWasmConsumer = &participants.wasm_consumers[i];
        let ghost before = registrations@;
        registrations.push(
            SubscriberRegistration {
                kind: SubscriberEntryKind::Wasm(consumer.slug.clone()),
                policy: consumer.policy.clone(),
                wake: WakeEconomics::Eager,
            },
        );
        assert(registration_views(registrations@) =~= registration_views(before).push(
            consumer_registrations(participants.wasm_consumers@)[i as int],
        ));
        i = i + 1;
    }
    let ghost first = consumer_registrations(roster.consumers);
    assert(first.take(n as int) =~= first);
    let m: usize = participants.surfaces.len();
    let mut s: usize = 0;
    assert(registration_views(registrations@) =~= first + surfaces_registrations(
        roster.surfaces,
        0,
    ));
    while s < m
        invariant
            s <= m,
            m == participants.surfaces@.len(),
            roster == participants.roster(),
            registration_views(registrations@) == first + surfaces_registrations(
                roster.surfaces,
                s as nat,
            ),
        decreases m - s,
    {
        register_surface(&mut registrations, &participants.surfaces[s]);
        assert(registration_views(registrations@) =~= first + surfaces_registrations(
            roster.surfaces,
            (s + 1) as nat,
        ));
        s = s + 1;
    }
    let ghost second = first + surfaces_registrations(roster.surfaces, roster.surfaces.len());
    let p: usize = participants.system_participants.len();
    let mut t: usize = 0;
    assert(registration_views(registrations@) =~= second + system_registrations(
        roster.systems,
    ).take(0));
    while t < p
        invariant
            t <= p,
            p == participants.system_participants@.len(),
            roster == participants.roster(),
            registration_views(registrations@) == second + system_registrations(
                roster.systems,
            ).take(t as int),
        decreases p - t,
    {
        let spec_of: &SystemParticipantSpec = &participants.system_participants[t];
        let ghost before = registrations@;
        registrations.push(
            SubscriberRegistration {
                kind: SubscriberEntryKind::System(spec_of.component.clone()),
                policy: spec_of.policy.clone(),
                wake: WakeEconomics::Eager,
            },
        );
        assert(registration_views(registrations@) =~= registration_views(before).push(
            system_registrations(roster.systems)[t as int],
        ));
        assert(registration_views(registrations@) =~= second + system_registrations(
            roster.systems,
        ).take(t + 1));
        t = t + 1;
    }
    assert(system_registrations(roster.systems).take(p as int) =~= system_registrations(
        roster.systems,
    ));
    registrations
}

/// How a message reaches a subscriber.
#[derive(Clone, Copy, Debug, PartialEq, Eq, Structural)]
pub enum DeliveryRoute {
    /// A parked task is notified and drains its own inbox.
    ParkedNotify,
    /// The app's conversation takes it inline.
    ConversationBridge,
    /// Every session attached to the surface gets it.
    SurfaceSessions,
}

/// A subscriber and the route to it.
#[derive(Debug, PartialEq, Eq)]
pub struct DeliveryBinding {
    pub kind: SubscriberEntryKind,
    pub route: DeliveryRoute,
}

/// What a list of bindings says.
pub open spec fn binding_views(list: Seq<DeliveryBinding>) -> Seq<(SubscriberView, DeliveryRoute)> {
    Seq::new(list.len(), |i: int| (list[i].kind@, list[i].route))
}

/// The bindings of the consumers.
pub open spec fn consumer_bindings(consumers: Seq<ResolvedWasmConsumer>) -> Seq<
    (SubscriberView, DeliveryRoute),
> {
    Seq::new(
        consumers.len(),
        |i: int| (SubscriberView::Wasm(consumers[i].slug@), DeliveryRoute::ParkedNotify),
    )
}

/// The bindings of the first `n` system participants: those that subscribe to something.
pub open spec fn system_bindings(systems: Seq<SystemParticipantSpec>, n: nat) -> Seq<
    (SubscriberView, DeliveryRoute),
>
    decreases n,
{
    if n == 0 {
        Seq::empty()
    } else {
        let before = system_bindings(systems, (n - 1) as nat);
        if systems[n - 1].subscriptions@.len() > 0 {
            before.push(
                (SubscriberView::System(systems[n - 1].component@), DeliveryRoute::ParkedNotify),
            )
        } else {
            before
        }
    }
}

/// The bindings of the apps.
pub open spec fn app_bindings(apps: Seq<(Seq<char>, apps::AppView)>) -> Seq<
    (SubscriberView, DeliveryRoute),
> {
    Seq::new(
        apps.len(),
        |i: int| (SubscriberView::App(apps[i].0), DeliveryRoute::ConversationBridge),
    )
}

/// The bindings of the first `n` surfaces: one for each principal.
pub open spec fn surfaces_bindings(surfaces: Seq<ResolvedSurface>, n: nat) -> Seq<
    (SubscriberView, DeliveryRoute),
>
    decreases n,
{
    if n == 0 {
        Seq::empty()
    } else {
        surfaces_bindings(surfaces, (n - 1) as nat) + Seq::new(
            principals_of(surfaces[n - 1]).len(),
            |k: int|
                (
                    SubscriberView::Surface {
                        slug: surfaces[n - 1].slug@,
                        instance: principals_of(surfaces[n - 1])[k],
                    },
                    DeliveryRoute::SurfaceSessions,
                ),
        )
    }
}

/// The route to everyone: consumers, the system participants that subscribe, apps, surfaces.
pub open spec fn bindings_of(roster: Roster) -> Seq<(SubscriberView, DeliveryRoute)> {
    consumer_bindings(roster.consumers) + system_bindings(roster.systems, roster.systems.len())
        + app_bindings(roster.apps) + surfaces_bindings(roster.surfaces, roster.surfaces.len())
}

fn bind_consumers(bindings: &mut Vec<DeliveryBinding>, consumers: &[ResolvedWasmConsumer])
    ensures
        binding_views(final(bindings)@) == binding_views(old(bindings)@) + consumer_bindings(
            consumers@,
        ),
{
    let ghost start = binding_views(bindings@);
    let n: usize = consumers.len();
    let mut i: usize = 0;
    assert(binding_views(bindings@) =~= start + consumer_bindings(consumers@).take(0));
    while i < n
        invariant
            i <= n,
            n == consumers@.len(),
            binding_views(bindings@) == start + consumer_bindings(consumers@).take(i as int),
        decreases n - i,
    {
        let ghost before = bindings@;
        bindings.push(
            DeliveryBinding {
                kind: SubscriberEntryKind::Wasm(consumers[i].slug.clone()),
                route: DeliveryRoute::ParkedNotify,
            },
        );
        assert(binding_views(bindings@) =~= binding_views(before).push(
            consumer_bindings(consumers@)[i as int],
        ));
        assert(binding_views(bindings@) =~= start + consumer_bindings(consumers@).take(i + 1));
        i = i + 1;
    }
    assert(consumer_bindings(consumers@).take(n as int) =~= consumer_bindings(consumers@));
}

fn bind_systems(bindings: &mut Vec<DeliveryBinding>, systems: &[SystemParticipantSpec])
    ensures
        binding_views(final(bindings)@) == binding_views(old(bindings)@) + system_bindings(
            systems@,
            systems@.len(),
        ),
{
    let ghost start = binding_views(bindings@);
    let n: usize = systems.len();
    let mut i: usize = 0;
    assert(binding_views(bindings@) =~= start + system_bindings(systems@, 0));
    while i < n
        invariant
            i <= n,
            n == systems@.len(),
            binding_views(bindings@) == start + system_bindings(systems@, i as nat),
        decreases n - i,
    {
        if systems[i].subscriptions.len() > 0 {
            let ghost before = bindings@;
            bindings.push(
                DeliveryBinding {
                    kind: SubscriberEntryKind::System(systems[i].component.clone()),
                    route: DeliveryRoute::ParkedNotify,
                },
            );
            assert(binding_views(bindings@) =~= binding_views(before).push(
                (
                    SubscriberView::System(systems@[i as int].component@),
                    DeliveryRoute::ParkedNotify,
                ),
            ));
        }
        assert(binding_views(bindings@) =~= start + system_bindings(systems@, (i + 1) as nat));
        i = i + 1;
    }
}

fn bind_apps(bindings: &mut Vec<DeliveryBinding>, apps: &IndexMap<String, AppConfig>)
    ensures
        binding_views(final(bindings)@) == binding_views(old(bindings)@) + app_bindings(
            apps::app_list(*apps),
        ),
{
    let ghost start = binding_views(bindings@);
    let ghost list = apps::app_list(*apps);
    let n: usize = app_count(apps);
    let mut i: usize = 0;
    assert(binding_views(bindings@) =~= start + app_bindings(list).take(0));
    while i < n
        invariant
            i <= n,
            list == apps::app_list(*apps),
            n == list.len(),
            binding_views(bindings@) == start + app_bindings(list).take(i as int),
        decreases n - i,
    {
        let (slug, _app) = app_at(apps, i);
        let ghost before = bindings@;
        bindings.push(
            DeliveryBinding {
                kind: SubscriberEntryKind::App(slug.clone()),
                route: DeliveryRoute::ConversationBridge,
            },
        );
        assert(binding_views(bindings@) =~= binding_views(before).push(
            app_bindings(list)[i as int],
        ));
        assert(binding_views(bindings@) =~= start + app_bindings(list).take(i + 1));
        i = i + 1;
    }
    assert(app_bindings(list).take(n as int) =~= app_bindings(list));
}

fn bind_surfaces(bindings: &mut Vec<DeliveryBinding>, surfaces: &[ResolvedSurface])
    ensures
        binding_views(final(bindings)@) == binding_views(old(bindings)@) + surfaces_bindings(
            surfaces@,
            surfaces@.len(),
        ),
{
    let ghost start = binding_views(bindings@);
    let n: usize = surfaces.len();
    let mut i: usize = 0;
    assert(binding_views(bindings@) =~= start + surfaces_bindings(surfaces@, 0));
    while i < n
        invariant
            i <= n,
            n == surfaces@.len(),
            binding_views(bindings@) == start + surfaces_bindings(surfaces@, i as nat),
        decreases n - i,
    {
        let principals: Vec<Option<String>> = surfaces[i].principals();
        let m: usize = principals.len();
        let ghost whole = surfaces_bindings(surfaces@, (i + 1) as nat);
        let ghost done = surfaces_bindings(surfaces@, i as nat).len() as int;
        let mut k: usize = 0;
        assert(instance_views(principals@).len() == m);
        assert(binding_views(bindings@) =~= start + whole.take(done));
        while k < m
            invariant
                i < n,
                n == surfaces@.len(),
                k <= m,
                m == principals@.len(),
                instance_views(principals@) == principals_of(surfaces@[i as int]),
                m == principals_of(surfaces@[i as int]).len(),
                whole == surfaces_bindings(surfaces@, (i + 1) as nat),
                done == surfaces_bindings(surfaces@, i as nat).len(),
                binding_views(bindings@) == start + whole.take(done + k),
            decreases m - k,
        {
            let instance: Option<String> = match &principals[k] {
                Some(id) => Some(id.clone()),
                None => None,
            };
            let ghost before = bindings@;
            let kind = SubscriberEntryKind::Surface { slug: surfaces[i].slug.clone(), instance };
            assert(kind@->instance == instance_views(principals@)[k as int]);
            bindings.push(DeliveryBinding { kind, route: DeliveryRoute::SurfaceSessions });
            assert(binding_views(bindings@) =~= binding_views(before).push(whole[done + k]));
            assert(binding_views(bindings@) =~= start + whole.take(done + k + 1));
            k = k + 1;
        }
        assert(whole.take(done + m) =~= whole);
        i = i + 1;
    }
}

/// The route to everyone.
pub fn delivery_bindings(participants: &Participants) -> (bindings: Vec<DeliveryBinding>)
    ensures
        binding_views(bindings@) == bindings_of(participants.roster()),
{
    let ghost roster = participants.roster();
    let mut bindings: Vec<DeliveryBinding> = Vec::new();
    let ghost empty = binding_views(bindings@);
    bind_consumers(&mut bindings, participants.wasm_consumers);
    bind_systems(&mut bindings, participants.system_participants);
    bind_apps(&mut bindings, participants.apps);
    bind_surfaces(&mut bindings, participants.surfaces);
    assert(empty + consumer_bindings(roster.consumers) =~= consumer_bindings(roster.consumers));
    bindings
}

/// Whether a list of registrations has the subscriber.
pub open spec fn registered(
    registrations: Seq<(SubscriberView, PolicyView, WakeEconomics)>,
    subscriber: SubscriberView,
) -> bool {
    exists|k: int| 0 <= k < registrations.len() && (#[trigger] registrations[k]).0 == subscriber
}

/// Whether a list of bindings has the subscriber.
pub open spec fn bound(
    bindings: Seq<(SubscriberView, DeliveryRoute)>,
    subscriber: SubscriberView,
) -> bool {
    exists|k: int| 0 <= k < bindings.len() && (#[trigger] bindings[k]).0 == subscriber
}

/// Whether it is known how to wake the subscriber: an app by its configuration, everyone else by
/// a registration.
pub open spec fn wakeable(
    apps: Seq<(Seq<char>, apps::AppView)>,
    registrations: Seq<(SubscriberView, PolicyView, WakeEconomics)>,
    subscriber: SubscriberView,
) -> bool {
    match subscriber {
        SubscriberView::App(slug) => apps::app_in(apps, slug) is Some,
        _ => registered(registrations, subscriber),
    }
}

/// What a subscriber lacks.
#[derive(Clone, Copy, Debug, PartialEq, Eq, Structural)]
pub enum MissingWire {
    Registration,
    Binding,
}

/// What a subscriber lacks, where it lacks something.
pub open spec fn missing_wire(
    apps: Seq<(Seq<char>, apps::AppView)>,
    registrations: Seq<(SubscriberView, PolicyView, WakeEconomics)>,
    bindings: Seq<(SubscriberView, DeliveryRoute)>,
    subscriber: SubscriberView,
) -> Option<MissingWire> {
    model::first_of(
        model::unless(wakeable(apps, registrations, subscriber), MissingWire::Registration),
        model::unless(bound(bindings, subscriber), MissingWire::Binding),
    )
}

/// The check of one subscriber of a channel.
pub open spec fn subscriber_gaps(
    entry: ChannelEntry,
    apps: Seq<(Seq<char>, apps::AppView)>,
    registrations: Seq<(SubscriberView, PolicyView, WakeEconomics)>,
    bindings: Seq<(SubscriberView, DeliveryRoute)>,
) -> spec_fn(int) -> Option<MissingWire> {
    |j: int| missing_wire(apps, registrations, bindings, entry.subscribers@[j].kind@)
}

/// The check of one channel.
pub open spec fn channel_gaps(
    entries: Seq<ChannelEntry>,
    apps: Seq<(Seq<char>, apps::AppView)>,
    registrations: Seq<(SubscriberView, PolicyView, WakeEconomics)>,
    bindings: Seq<(SubscriberView, DeliveryRoute)>,
) -> spec_fn(int) -> Option<(nat, MissingWire)> {
    |i: int|
        model::first_fault(
            subscriber_gaps(entries[i], apps, registrations, bindings),
            entries[i].subscribers@.len(),
        )
}

/// A subscriber that lacks something: the places of its channel and of the subscriber on it.
#[derive(Clone, Copy, Debug, PartialEq, Eq, Structural)]
pub struct Unwired {
    pub channel: usize,
    pub subscriber: usize,
    pub missing: MissingWire,
}

fn is_registered(registrations: &[SubscriberRegistration], kind: &SubscriberEntryKind) -> (found:
    bool)
    ensures
        found == registered(registration_views(registrations@), kind@),
{
    let n: usize = registrations.len();
    let mut k: usize = 0;
    while k < n
        invariant
            k <= n,
            n == registrations@.len(),
            forall|m: int|
                0 <= m < k ==> (#[trigger] registration_views(registrations@)[m]).0 != kind@,
        decreases n - k,
    {
        if registrations[k].kind.same(kind) {
            assert(registration_views(registrations@)[k as int].0 == kind@);
            return true;
        }
        k = k + 1;
    }
    false
}

fn is_bound(bindings: &[DeliveryBinding], kind: &SubscriberEntryKind) -> (found: bool)
    ensures
        found == bound(binding_views(bindings@), kind@),
{
    let n: usize = bindings.len();
    let mut k: usize = 0;
    while k < n
        invariant
            k <= n,
            n == bindings@.len(),
            forall|m: int| 0 <= m < k ==> (#[trigger] binding_views(bindings@)[m]).0 != kind@,
        decreases n - k,
    {
        if bindings[k].kind.same(kind) {
            assert(binding_views(bindings@)[k as int].0 == kind@);
            return true;
        }
        k = k + 1;
    }
    false
}

fn find_gap(
    apps: &IndexMap<String, AppConfig>,
    registrations: &[SubscriberRegistration],
    bindings: &[DeliveryBinding],
    kind: &SubscriberEntryKind,
) -> (missing: Option<MissingWire>)
    ensures
        missing == missing_wire(
            apps::app_list(*apps),
            registration_views(registrations@),
            binding_views(bindings@),
            kind@,
        ),
{
    let known: bool = match kind {
        SubscriberEntryKind::App(slug) => find_app(apps, slug.as_str()).is_some(),
        _ => is_registered(registrations, kind),
    };
    if !known {
        return Some(MissingWire::Registration);
    }
    if !is_bound(bindings, kind) {
        return Some(MissingWire::Binding);
    }
    None
}

/// Refuse the first subscriber of the directory that nobody knows how to wake or to reach.
pub fn assert_every_subscriber_wired(
    directory: &MessagingDirectory,
    apps: &IndexMap<String, AppConfig>,
    registrations: &[SubscriberRegistration],
    bindings: &[DeliveryBinding],
) -> (outcome: Result<(), Unwired>)
    ensures
        match model::first_fault(
            channel_gaps(
                directory.entries@,
                apps::app_list(*apps),
                registration_views(registrations@),
                binding_views(bindings@),
            ),
            directory.entries@.len(),
        ) {
            Some(fault) => outcome matches Err(e) && e.channel == fault.0 && e.subscriber
                == fault.1.0 && e.missing == fault.1.1,
            None => outcome is Ok,
        },
{
    let ghost gaps = channel_gaps(
        directory.entries@,
        apps::app_list(*apps),
        registration_views(registrations@),
        binding_views(bindings@),
    );
    let n: usize = directory.entries.len();
    let mut i: usize = 0;
    while i < n
        invariant
            i <= n,
            n == directory.entries@.len(),
            gaps == channel_gaps(
                directory.entries@,
                apps::app_list(*apps),
                registration_views(registrations@),
                binding_views(bindings@),
            ),
            model::first_fault(gaps, i as nat) is None,
        decreases n - i,
    {
        let m: usize = directory.entries[i].subscribers.len();
        let ghost inner = subscriber_gaps(
            directory.entries@[i as int],
            apps::app_list(*apps),
            registration_views(registrations@),
            binding_views(bindings@),
        );
        let mut j: usize = 0;
        while j < m
            invariant
                i < n,
                n == directory.entries@.len(),
                j <= m,
                m == directory.entries@[i as int].subscribers@.len(),
                gaps == channel_gaps(
                    directory.entries@,
                    apps::app_list(*apps),
                    registration_views(registrations@),
                    binding_views(bindings@),
                ),
                inner == subscriber_gaps(
                    directory.entries@[i as int],
                    apps::app_list(*apps),
                    registration_views(registrations@),
                    binding_views(bindings@),
                ),
                model::first_fault(gaps, i as nat) is None,
                model::first_fault(inner, j as nat) is None,
            decreases m - j,
        {
            if let Some(missing) = find_gap(
                apps,
                registrations,
                bindings,
                &directory.entries[i].subscribers[j].kind,
            ) {
                proof {
                    model::fault_stands(inner, (j + 1) as nat, m as nat);
                    model::fault_stands(gaps, (i + 1) as nat, n as nat);
                }
                return Err(Unwired { channel: i, subscriber: j, missing });
            }
            j = j + 1;
        }
        i = i + 1;
    }
    Ok(())
}

/// Whether someone on the roster is this subscriber and is reached when it subscribes.
pub open spec fn takes_part(roster: Roster, subscriber: SubscriberView) -> bool {
    match subscriber {
        SubscriberView::App(slug) => apps::app_in(roster.apps, slug) is Some,
        SubscriberView::Wasm(slug) => exists|i: int|
            0 <= i < roster.consumers.len() && (#[trigger] roster.consumers[i]).slug@ == slug,
        SubscriberView::Surface { slug, instance } => exists|i: int|
            0 <= i < roster.surfaces.len() && (#[trigger] roster.surfaces[i]).slug@ == slug
                && principals_of(roster.surfaces[i]).contains(instance),
        SubscriberView::System(component) => exists|i: int|
            0 <= i < roster.systems.len() && (#[trigger] roster.systems[i]).component@ == component
                && roster.systems[i].subscriptions@.len() > 0,
    }
}

proof fn surface_principals_are_listed(surfaces: Seq<ResolvedSurface>, n: nat, i: int, k: int)
    requires
        n <= surfaces.len(),
        0 <= i < n,
        0 <= k < principals_of(surfaces[i]).len(),
    ensures
        registered(
            surfaces_registrations(surfaces, n),
            SubscriberView::Surface {
                slug: surfaces[i].slug@,
                instance: principals_of(surfaces[i])[k],
            },
        ),
        bound(
            surfaces_bindings(surfaces, n),
            SubscriberView::Surface {
                slug: surfaces[i].slug@,
                instance: principals_of(surfaces[i])[k],
            },
        ),
    decreases n,
{
    let subscriber = SubscriberView::Surface {
        slug: surfaces[i].slug@,
        instance: principals_of(surfaces[i])[k],
    };
    let m = (n - 1) as nat;
    let regs = surfaces_registrations(surfaces, m);
    let binds = surfaces_bindings(surfaces, m);
    if i == n - 1 {
        assert(surfaces_registrations(surfaces, n)[regs.len() + k].0 == subscriber);
        assert(surfaces_bindings(surfaces, n)[binds.len() + k].0 == subscriber);
    } else {
        surface_principals_are_listed(surfaces, m, i, k);
        let a = choose|a: int| 0 <= a < regs.len() && (#[trigger] regs[a]).0 == subscriber;
        assert(surfaces_registrations(surfaces, n)[a].0 == subscriber);
        let b = choose|b: int| 0 <= b < binds.len() && (#[trigger] binds[b]).0 == subscriber;
        assert(surfaces_bindings(surfaces, n)[b].0 == subscriber);
    }
}

proof fn subscribing_systems_are_bound(systems: Seq<SystemParticipantSpec>, n: nat, i: int)
    requires
        n <= systems.len(),
        0 <= i < n,
        systems[i].subscriptions@.len() > 0,
    ensures
        bound(system_bindings(systems, n), SubscriberView::System(systems[i].component@)),
    decreases n,
{
    let subscriber = SubscriberView::System(systems[i].component@);
    let m = (n - 1) as nat;
    let before = system_bindings(systems, m);
    if i == n - 1 {
        assert(system_bindings(systems, n)[before.len() as int].0 == subscriber);
    } else {
        subscribing_systems_are_bound(systems, m, i);
        let b = choose|b: int| 0 <= b < before.len() && (#[trigger] before[b]).0 == subscriber;
        assert(system_bindings(systems, n)[b].0 == subscriber);
    }
}

/// Everyone on the roster who can subscribe is registered and reached: the registrations and the
/// bindings made from a roster leave no subscriber of it out.
pub proof fn every_participant_is_wired(roster: Roster, subscriber: SubscriberView)
    requires
        takes_part(roster, subscriber),
    ensures
        missing_wire(
            roster.apps,
            registrations_of(roster),
            bindings_of(roster),
            subscriber,
        ) is None,
{
    let regs = registrations_of(roster);
    let binds = bindings_of(roster);
    let c = roster.consumers.len() as int;
    let sr = surfaces_registrations(roster.surfaces, roster.surfaces.len());
    let sb = system_bindings(roster.systems, roster.systems.len());
    let fb = surfaces_bindings(roster.surfaces, roster.surfaces.len());
    match subscriber {
        SubscriberView::App(slug) => {
            apps::apps_are_found_by_slug(roster.apps, slug);
            let i = choose|i: int| 0 <= i < roster.apps.len() && (#[trigger] roster.apps[i]).0 == slug;
            assert(binds[c + sb.len() + i].0 == subscriber);
        },
        SubscriberView::Wasm(slug) => {
            let i = choose|i: int|
                0 <= i < roster.consumers.len() && (#[trigger] roster.consumers[i]).slug@ == slug;
            assert(regs[i].0 == subscriber);
            assert(binds[i].0 == subscriber);
        },
        SubscriberView::Surface { slug, instance } => {
            let i = choose|i: int|
                0 <= i < roster.surfaces.len() && (#[trigger] roster.surfaces[i]).slug@ == slug
                    && principals_of(roster.surfaces[i]).contains(instance);
            let list = principals_of(roster.surfaces[i]);
            let k = choose|k: int| 0 <= k < list.len() && list[k] == instance;
            surface_principals_are_listed(roster.surfaces, roster.surfaces.len(), i, k);
            let a = choose|a: int| 0 <= a < sr.len() && (#[trigger] sr[a]).0 == subscriber;
            assert(regs[c + a].0 == subscriber);
            let b = choose|b: int| 0 <= b < fb.len() && (#[trigger] fb[b]).0 == subscriber;
            assert(binds[c + sb.len() + roster.apps.len() + b].0 == subscriber);
        },
        SubscriberView::System(component) => {
            let i = choose|i: int|
                0 <= i < roster.systems.len() && (#[trigger] roster.systems[i]).component@
                    == component && roster.systems[i].subscriptions@.len() > 0;
            assert(regs[c + sr.len() + i].0 == subscriber);
            subscribing_systems_are_bound(roster.systems, roster.systems.len(), i);
            let b = choose|b: int| 0 <= b < sb.len() && (#[trigger] sb[b]).0 == subscriber;
            assert(binds[c + b].0 == subscriber);
        },
    }
}

/// A directory whose subscribers all come from the roster passes the check.
pub proof fn a_rosters_directory_passes(entries: Seq<ChannelEntry>, roster: Roster)
    requires
        forall|i: int, j: int|
            0 <= i < entries.len() && 0 <= j < entries[i].subscribers@.len() ==> takes_part(
                roster,
                (#[trigger] entries[i].subscribers@[j]).kind@,
            ),
    ensures
        model::first_fault(
            channel_gaps(entries, roster.apps, registrations_of(roster), bindings_of(roster)),
            entries.len(),
        ) is None,
{
    let gaps = channel_gaps(entries, roster.apps, registrations_of(roster), bindings_of(roster));
    assert forall|i: int| 0 <= i < entries.len() implies (#[trigger] gaps(i)) is None by {
        let inner = subscriber_gaps(
            entries[i],
            roster.apps,
            registrations_of(roster),
            bindings_of(roster),
        );
        let m = entries[i].subscribers@.len();
        assert forall|j: int| 0 <= j < m implies (#[trigger] inner(j)) is None by {
            every_participant_is_wired(roster, entries[i].subscribers@[j].kind@);
        }
        model::first_fault_is_first(inner, m);
    }
    model::first_fault_is_first(gaps, entries.len());
}

proof fn surface_registrations_are_principals(surfaces: Seq<ResolvedSurface>, n: nat, x: int)
    requires
        n <= surfaces.len(),
        0 <= x < surfaces_registrations(surfaces, n).len(),
    ensures
        exists|i: int, k: int|
            0 <= i < n && 0 <= k < principals_of(surfaces[i]).len()
                && surfaces_registrations(surfaces, n)[x] == #[trigger] surface_registrations(
                surfaces[i],
            )[k],
    decreases n,
{
    let m = (n - 1) as nat;
    let before = surfaces_registrations(surfaces, m);
    if x < before.len() {
        surface_registrations_are_principals(surfaces, m, x);
        let (i, k) = choose|i: int, k: int|
            0 <= i < m && 0 <= k < principals_of(surfaces[i]).len()
                && surfaces_registrations(surfaces, m)[x] == #[trigger] surface_registrations(
                surfaces[i],
            )[k];
        assert(surfaces_registrations(surfaces, n)[x] == surface_registrations(surfaces[i])[k]);
    } else {
        assert(surfaces_registrations(surfaces, n)[x] == surface_registrations(surfaces[n - 1])[x
            - before.len()]);
    }
}

/// Whether no two surfaces have one slug and no two components of a surface one instance id.
pub open spec fn distinctly_named(surfaces: Seq<ResolvedSurface>) -> bool {
    &&& forall|i: int, j: int|
        0 <= i < j < surfaces.len() ==> (#[trigger] surfaces[i]).slug@ != (
        #[trigger] surfaces[j]).slug@
    &&& forall|i: int, j: int, k: int|
        0 <= i < surfaces.len() && 0 <= j < k < surfaces[i].components@.len() ==> (
        #[trigger] surfaces[i].components@[j]).instance@ != (
        #[trigger] surfaces[i].components@[k]).instance@
}

proof fn principals_are_registered_once(surfaces: Seq<ResolvedSurface>, n: nat, x: int, y: int)
    requires
        n <= surfaces.len(),
        distinctly_named(surfaces),
        0 <= x < y < surfaces_registrations(surfaces, n).len(),
    ensures
        surfaces_registrations(surfaces, n)[x].0 != surfaces_registrations(surfaces, n)[y].0,
    decreases n,
{
    let m = (n - 1) as nat;
    let before = surfaces_registrations(surfaces, m);
    let after = surfaces_registrations(surfaces, n);
    if y < before.len() {
        principals_are_registered_once(surfaces, m, x, y);
    } else {
        let s = surfaces[n - 1];
        let b = y - before.len();
        assert(after[y] == surface_registrations(s)[b]);
        if x < before.len() {
            surface_registrations_are_principals(surfaces, m, x);
            let (i, k) = choose|i: int, k: int|
                0 <= i < m && 0 <= k < principals_of(surfaces[i]).len()
                    && surfaces_registrations(surfaces, m)[x] == #[trigger] surface_registrations(
                    surfaces[i],
                )[k];
            assert(surfaces[i].slug@ != surfaces[n - 1].slug@);
        } else {
            let a = x - before.len();
            assert(after[x] == surface_registrations(s)[a]);
            if a > 0 {
                assert(surfaces[n - 1].components@[a - 1].instance@
                    != surfaces[n - 1].components@[b - 1].instance@);
            }
        }
    }
}

/// Nobody is registered twice, where no two consumers, surfaces, instances of one surface or
/// system participants have one name.
pub proof fn everyone_is_registered_once(roster: Roster, x: int, y: int)
    requires
        forall|i: int, j: int|
            0 <= i < j < roster.consumers.len() ==> (#[trigger] roster.consumers[i]).slug@ != (
            #[trigger] roster.consumers[j]).slug@,
        distinctly_named(roster.surfaces),
        forall|i: int, j: int|
            0 <= i < j < roster.systems.len() ==> (#[trigger] roster.systems[i]).component@ != (
            #[trigger] roster.systems[j]).component@,
        0 <= x < y < registrations_of(roster).len(),
    ensures
        registrations_of(roster)[x].0 != registrations_of(roster)[y].0,
{
    let all = registrations_of(roster);
    let c = roster.consumers.len() as int;
    let n = roster.surfaces.len();
    let sr = surfaces_registrations(roster.surfaces, n);
    let f = c + sr.len();
    if x < c {
        assert(all[x].0 == SubscriberView::Wasm(roster.consumers[x].slug@));
    } else if x < f {
        surface_registrations_are_principals(roster.surfaces, n, x - c);
        assert(all[x] == sr[x - c]);
    } else {
        assert(all[x].0 == SubscriberView::System(roster.systems[x - f].component@));
    }
    if y < c {
        assert(all[y].0 == SubscriberView::Wasm(roster.consumers[y].slug@));
    } else if y < f {
        surface_registrations_are_principals(roster.surfaces, n, y - c);
        assert(all[y] == sr[y - c]);
        if x >= c {
            principals_are_registered_once(roster.surfaces, n, x - c, y - c);
        }
    } else {
        assert(all[y].0 == SubscriberView::System(roster.systems[y - f].component@));
    }
}

/// The name of the component that runs asynchronous tool calls.
pub const TOOL_EXECUTOR_COMPONENT: &'static str = "tool-executor";

/// The participant id of a consumer.
pub open spec fn consumer_id(slug: Seq<char>) -> Seq<char> {
    "wasm:"@ + slug
}

/// What a caller, by its participant id, may do with tools.
#[derive(Debug, PartialEq, Eq)]
pub struct CallerGrants {
    pub caller: String,
    pub tools: Vec<ToolGrant>,
}

/// What a list of callers says.
pub open spec fn caller_views(list: Seq<CallerGrants>) -> Seq<(Seq<char>, Seq<ToolGrantView>)> {
    Seq::new(list.len(), |i: int| (list[i].caller@, policy::tool_views(list[i].tools@)))
}

/// The callers among the first `n` consumers: those that hold a tool grant.
pub open spec fn callers_of(consumers: Seq<ResolvedWasmConsumer>, n: nat) -> Seq<
    (Seq<char>, Seq<ToolGrantView>),
>
    decreases n,
{
    if n == 0 {
        Seq::empty()
    } else {
        let before = callers_of(consumers, (n - 1) as nat);
        let grants = consumers[n - 1].policy@.tool_grants;
        if grants.len() > 0 {
            before.push((consumer_id(consumers[n - 1].slug@), grants))
        } else {
            before
        }
    }
}

/// The consumers that may call tools, and what each may do with them.
pub fn tool_caller_grants(consumers: &[ResolvedWasmConsumer]) -> (callers: Vec<CallerGrants>)
    ensures
        caller_views(callers@) == callers_of(consumers@, consumers@.len()),
{
    let mut callers: Vec<CallerGrants> = Vec::new();
    let n: usize = consumers.len();
    let mut i: usize = 0;
    assert(caller_views(callers@) =~= callers_of(consumers@, 0));
    while i < n
        invariant
            i <= n,
            n == consumers@.len(),
            caller_views(callers@) == callers_of(consumers@, i as nat),
        decreases n - i,
    {
        let consumer: &ResolvedWasmConsumer = &consumers[i];
        assert(consumer.policy@.tool_grants.len() == consumer.policy.tool_grants@.len());
        if consumer.policy.tool_grants.len() > 0 {
            let tools: Vec<ToolGrant> = copy_tool_grants(&consumer.policy.tool_grants);
            let ghost before = callers@;
            let caller: String = join("wasm:", consumer.slug.as_str());
            callers.push(CallerGrants { caller, tools });
            assert(caller_views(callers@) =~= caller_views(before).push(
                (consumer_id(consumer.slug@), consumer.policy@.tool_grants),
            ));
        }
        i = i + 1;
    }
    callers
}

/// Whether the tool executor is among the participants that are reached: it is, wherever it
/// subscribes to something.
pub open spec fn executor_runs(systems: Seq<SystemParticipantSpec>) -> bool {
    exists|i: int|
        0 <= i < systems.len() && (#[trigger] systems[i]).component@ == TOOL_EXECUTOR_COMPONENT@
            && systems[i].subscriptions@.len() > 0
}

/// What the tool executor checks each request against, where there is an executor.
pub fn tool_executor_grants(
    systems: &[SystemParticipantSpec],
    consumers: &[ResolvedWasmConsumer],
) -> (callers: Option<Vec<CallerGrants>>)
    ensures
        callers is Some <==> executor_runs(systems@),
        callers matches Some(list) ==> caller_views(list@) == callers_of(
            consumers@,
            consumers@.len(),
        ),
{
    let n: usize = systems.len();
    let mut i: usize = 0;
    while i < n
        invariant
            i <= n,
            n == systems@.len(),
            forall|k: int|
                0 <= k < i ==> !((#[trigger] systems@[k]).component@ == TOOL_EXECUTOR_COMPONENT@
                    && systems@[k].subscriptions@.len() > 0),
        decreases n - i,
    {
        if same_text(systems[i].component.as_str(), TOOL_EXECUTOR_COMPONENT)
            && systems[i].subscriptions.len() > 0 {
            assert(systems@[i as int].component@ == TOOL_EXECUTOR_COMPONENT@);
            return Some(tool_caller_grants(consumers));
        }
        i = i + 1;
    }
    None
}

/// A surface's principals are itself and each of its component instances, in order; the surface
/// itself has the kernel's budget, an instance its own.
pub proof fn principals_are_the_surface_and_its_instances(
    surface: ResolvedSurface,
    kernel: AttachSendBudget,
    i: int,
)
    requires
        0 <= i < surface.components@.len(),
    ensures
        principals_of(surface).len() == surface.components@.len() + 1,
        principals_of(surface)[0] is None,
        principals_of(surface)[i + 1] == Some(surface.components@[i].instance@),
        budgets_of(surface, kernel)[0] == (None::<Seq<char>>, kernel),
        budgets_of(surface, kernel)[i + 1] == (
            Some(surface.components@[i].instance@),
            surface.components@[i].send_budget,
        ),
{
}

/// Every registration is that of a consumer, of a principal of a surface, or of a system
/// participant, with that one's own policy, and everyone registered is woken at once.
pub proof fn every_registration_has_its_holders_policy(roster: Roster, x: int)
    requires
        0 <= x < registrations_of(roster).len(),
    ensures
        registrations_of(roster)[x].2 == WakeEconomics::Eager,
        match registrations_of(roster)[x].0 {
            SubscriberView::App(_) => false,
            SubscriberView::Wasm(slug) => exists|i: int|
                0 <= i < roster.consumers.len() && (#[trigger] roster.consumers[i]).slug@ == slug
                    && roster.consumers[i].policy@ == registrations_of(roster)[x].1,
            SubscriberView::Surface { slug, instance } => exists|i: int|
                0 <= i < roster.surfaces.len() && (#[trigger] roster.surfaces[i]).slug@ == slug
                    && principals_of(roster.surfaces[i]).contains(instance)
                    && roster.surfaces[i].policy@ == registrations_of(roster)[x].1,
            SubscriberView::System(component) => exists|i: int|
                0 <= i < roster.systems.len() && (#[trigger] roster.systems[i]).component@
                    == component && roster.systems[i].policy@ == registrations_of(roster)[x].1,
        },
{
    let n = roster.surfaces.len();
    let sr = surfaces_registrations(roster.surfaces, n);
    let c = roster.consumers.len() as int;
    let f = c + sr.len();
    let all = registrations_of(roster);
    if x < c {
        assert(all[x] == consumer_registrations(roster.consumers)[x]);
        assert(roster.consumers[x].policy@ == all[x].1);
    } else if x < f {
        surface_registrations_are_principals(roster.surfaces, n, x - c);
        assert(all[x] == sr[x - c]);
        let (i, k) = choose|i: int, k: int|
            0 <= i < n && 0 <= k < principals_of(roster.surfaces[i]).len() && sr[x - c]
                == #[trigger] surface_registrations(roster.surfaces[i])[k];
        assert(principals_of(roster.surfaces[i]).contains(principals_of(roster.surfaces[i])[k]));
        assert(roster.surfaces[i].policy@ == all[x].1);
    } else {
        assert(all[x] == system_registrations(roster.systems)[x - f]);
        assert(roster.systems[x - f].policy@ == all[x].1);
    }
}

/// A subscriber is reached by the route of its own kind: consumers and system participants are
/// notified, an app's conversation takes it, a surface's sessions get it.
pub proof fn every_kind_has_its_own_route(roster: Roster, x: int)
    requires
        0 <= x < bindings_of(roster).len(),
    ensures
        match bindings_of(roster)[x].0 {
            SubscriberView::App(_) => bindings_of(roster)[x].1 == DeliveryRoute::ConversationBridge,
            SubscriberView::Wasm(_) => bindings_of(roster)[x].1 == DeliveryRoute::ParkedNotify,
            SubscriberView::System(_) => bindings_of(roster)[x].1 == DeliveryRoute::ParkedNotify,
            SubscriberView::Surface { slug, instance } => bindings_of(roster)[x].1
                == DeliveryRoute::SurfaceSessions,
        },
{
    let a = consumer_bindings(roster.consumers);
    let b = system_bindings(roster.systems, roster.systems.len());
    let c = app_bindings(roster.apps);
    let d = surfaces_bindings(roster.surfaces, roster.surfaces.len());
    let all = bindings_of(roster);
    if x < a.len() {
        assert(all[x] == a[x]);
    } else if x < a.len() + b.len() {
        systems_are_notified(roster.systems, roster.systems.len(), x - a.len());
        assert(all[x] == b[x - a.len()]);
    } else if x < a.len() + b.len() + c.len() {
        assert(all[x] == c[x - a.len() - b.len()]);
    } else {
        sessions_get_it(
            roster.surfaces,
            roster.surfaces.len(),
            x - a.len() - b.len() - c.len(),
        );
        assert(all[x] == d[x - a.len() - b.len() - c.len()]);
    }
}

proof fn systems_are_notified(systems: Seq<SystemParticipantSpec>, n: nat, x: int)
    requires
        n <= systems.len(),
        0 <= x < system_bindings(systems, n).len(),
    ensures
        system_bindings(systems, n)[x].0 is System,
        system_bindings(systems, n)[x].1 == DeliveryRoute::ParkedNotify,
    decreases n,
{
    if n > 0 {
        let before = system_bindings(systems, (n - 1) as nat);
        if x < before.len() {
            systems_are_notified(systems, (n - 1) as nat, x);
            assert(system_bindings(systems, n)[x] == before[x]);
        }
    }
}

proof fn sessions_get_it(surfaces: Seq<ResolvedSurface>, n: nat, x: int)
    requires
        n <= surfaces.len(),
        0 <= x < surfaces_bindings(surfaces, n).len(),
    ensures
        surfaces_bindings(surfaces, n)[x].0 is Surface,
        surfaces_bindings(surfaces, n)[x].1 == DeliveryRoute::SurfaceSessions,
    decreases n,
{
    if n > 0 {
        let before = surfaces_bindings(surfaces, (n - 1) as nat);
        if x < before.len() {
            sessions_get_it(surfaces, (n - 1) as nat, x);
            assert(surfaces_bindings(surfaces, n)[x] == before[x]);
        }
    }
}

/// A subscriber lacks a registration exactly where nobody knows how to wake it: an app that the
/// configuration does not have, or anyone else that is not registered; with one, it lacks a
/// binding exactly where no binding is for it.
pub proof fn each_gap_is_what_it_says(
    apps: Seq<(Seq<char>, apps::AppView)>,
    registrations: Seq<(SubscriberView, PolicyView, WakeEconomics)>,
    bindings: Seq<(SubscriberView, DeliveryRoute)>,
    subscriber: SubscriberView,
)
    ensures
        missing_wire(apps, registrations, bindings, subscriber) == Some(MissingWire::Registration)
            <==> (match subscriber {
            SubscriberView::App(slug) => forall|i: int|
                0 <= i < apps.len() ==> (#[trigger] apps[i]).0 != slug,
            _ => forall|k: int|
                0 <= k < registrations.len() ==> (#[trigger] registrations[k]).0 != subscriber,
        }),
        missing_wire(apps, registrations, bindings, subscriber) is None ==> exists|k: int|
            0 <= k < bindings.len() && (#[trigger] bindings[k]).0 == subscriber,
        missing_wire(apps, registrations, bindings, subscriber) == Some(MissingWire::Binding)
            ==> forall|k: int| 0 <= k < bindings.len() ==> (#[trigger] bindings[k]).0 != subscriber,
{
    if let SubscriberView::App(slug) = subscriber {
        apps::apps_are_found_by_slug(apps, slug);
    }
}

/// The callers are the consumers that hold a tool grant, each under its participant id with all
/// its grants.
pub proof fn exactly_the_grant_holders_are_callers(
    consumers: Seq<ResolvedWasmConsumer>,
    n: nat,
    item: (Seq<char>, Seq<ToolGrantView>),
)
    requires
        n <= consumers.len(),
    ensures
        callers_of(consumers, n).contains(item) <==> exists|i: int|
            0 <= i < n && item.0 == "wasm:"@ + (#[trigger] consumers[i]).slug@ && item.1
                == consumers[i].policy@.tool_grants && item.1.len() > 0,
    decreases n,
{
    if n > 0 {
        let m = (n - 1) as nat;
        exactly_the_grant_holders_are_callers(consumers, m, item);
        let before = callers_of(consumers, m);
        let after = callers_of(consumers, n);
        let last = consumers[n - 1];
        if before.contains(item) {
            let k = choose|k: int| 0 <= k < before.len() && before[k] == item;
            assert(after[k] == item);
        }
        if item.0 == "wasm:"@ + last.slug@ && item.1 == last.policy@.tool_grants && item.1.len()
            > 0 {
            assert(after[before.len() as int] == item);
        }
        if after.contains(item) {
            let k = choose|k: int| 0 <= k < after.len() && after[k] == item;
            if k < before.len() {
                assert(before[k] == item);
            } else {
                assert(item.0 == "wasm:"@ + consumers[n - 1].slug@);
            }
        }
    }
}

/// Requests are checked exactly where a participant named `tool-executor` subscribes to
/// something.
pub proof fn the_executor_runs_where_it_subscribes(systems: Seq<SystemParticipantSpec>)
    ensures
        executor_runs(systems) <==> exists|i: int|
            0 <= i < systems.len() && (#[trigger] systems[i]).component@ == "tool-executor"@
                && systems[i].subscriptions@.len() > 0,
{
}

/// Everyone but the apps is registered: every consumer, every principal of every surface, and
/// every system participant, whether it subscribes or only publishes.
pub proof fn everyone_but_the_apps_is_registered(roster: Roster, i: int, k: int)
    ensures
        0 <= i < roster.consumers.len() ==> registered(
            registrations_of(roster),
            SubscriberView::Wasm(roster.consumers[i].slug@),
        ),
        0 <= i < roster.surfaces.len() && 0 <= k < principals_of(roster.surfaces[i]).len()
            ==> registered(
            registrations_of(roster),
            SubscriberView::Surface {
                slug: roster.surfaces[i].slug@,
                instance: principals_of(roster.surfaces[i])[k],
            },
        ),
        0 <= i < roster.systems.len() ==> registered(
            registrations_of(roster),
            SubscriberView::System(roster.systems[i].component@),
        ),
{
    let a = consumer_registrations(roster.consumers);
    let b = surfaces_registrations(roster.surfaces, roster.surfaces.len());
    let c = system_registrations(roster.systems);
    let all = registrations_of(roster);
    if 0 <= i < roster.consumers.len() {
        assert(all[i] == a[i]);
        assert(all[i].0 == SubscriberView::Wasm(roster.consumers[i].slug@));
    }
    if 0 <= i < roster.surfaces.len() && 0 <= k < principals_of(roster.surfaces[i]).len() {
        surface_principals_are_listed(roster.surfaces, roster.surfaces.len(), i, k);
        let who = SubscriberView::Surface {
            slug: roster.surfaces[i].slug@,
            instance: principals_of(roster.surfaces[i])[k],
        };
        let x = choose|x: int| 0 <= x < b.len() && (#[trigger] b[x]).0 == who;
        assert(all[a.len() + x] == b[x]);
        assert(all[a.len() + x].0 == who);
    }
    if 0 <= i < roster.systems.len() {
        assert(all[a.len() + b.len() + i] == c[i]);
        assert(all[a.len() + b.len() + i].0 == SubscriberView::System(
            roster.systems[i].component@,
        ));
    }
}

/// Nobody is reached who is not there to be: every binding is that of a consumer, an app, a
/// principal of a surface, or a system participant that subscribes to something.
pub proof fn every_binding_has_its_holder(roster: Roster, x: int)
    requires
        0 <= x < bindings_of(roster).len(),
    ensures
        match bindings_of(roster)[x].0 {
            SubscriberView::App(slug) => exists|i: int|
                0 <= i < roster.apps.len() && (#[trigger] roster.apps[i]).0 == slug,
            SubscriberView::Wasm(slug) => exists|i: int|
                0 <= i < roster.consumers.len() && (#[trigger] roster.consumers[i]).slug@ == slug,
            SubscriberView::Surface { slug, instance } => exists|i: int|
                0 <= i < roster.surfaces.len() && (#[trigger] roster.surfaces[i]).slug@ == slug
                    && principals_of(roster.surfaces[i]).contains(instance),
            SubscriberView::System(component) => exists|i: int|
                0 <= i < roster.systems.len() && (#[trigger] roster.systems[i]).component@
                    == component && roster.systems[i].subscriptions@.len() > 0,
        },
{
    let a = consumer_bindings(roster.consumers);
    let b = system_bindings(roster.systems, roster.systems.len());
    let c = app_bindings(roster.apps);
    let d = surfaces_bindings(roster.surfaces, roster.surfaces.len());
    let all = bindings_of(roster);
    if x < a.len() {
        assert(all[x] == a[x]);
        assert(all[x].0 == SubscriberView::Wasm(roster.consumers[x].slug@));
    } else if x < a.len() + b.len() {
        bound_systems_subscribe(roster.systems, roster.systems.len(), x - a.len());
        assert(all[x] == b[x - a.len()]);
    } else if x < a.len() + b.len() + c.len() {
        assert(all[x] == c[x - a.len() - b.len()]);
        assert(all[x].0 == SubscriberView::App(roster.apps[x - a.len() - b.len()].0));
    } else {
        let y = x - a.len() - b.len() - c.len();
        bound_principals_are_the_surfaces(roster.surfaces, roster.surfaces.len(), y);
        assert(all[x] == d[y]);
    }
}

proof fn bound_systems_subscribe(systems: Seq<SystemParticipantSpec>, n: nat, x: int)
    requires
        n <= systems.len(),
        0 <= x < system_bindings(systems, n).len(),
    ensures
        system_bindings(systems, n)[x].0 matches SubscriberView::System(component) && exists|i: int|
            0 <= i < n && (#[trigger] systems[i]).component@ == component
                && systems[i].subscriptions@.len() > 0,
    decreases n,
{
    if n > 0 {
        let before = system_bindings(systems, (n - 1) as nat);
        if x < before.len() {
            bound_systems_subscribe(systems, (n - 1) as nat, x);
            assert(system_bindings(systems, n)[x] == before[x]);
        } else {
            assert(systems[n - 1].subscriptions@.len() > 0);
        }
    }
}

proof fn bound_principals_are_the_surfaces(surfaces: Seq<ResolvedSurface>, n: nat, x: int)
    requires
        n <= surfaces.len(),
        0 <= x < surfaces_bindings(surfaces, n).len(),
    ensures
        surfaces_bindings(surfaces, n)[x].0 matches SubscriberView::Surface { slug, instance }
            && exists|i: int|
            0 <= i < n && (#[trigger] surfaces[i]).slug@ == slug && principals_of(
                surfaces[i],
            ).contains(instance),
    decreases n,
{
    if n > 0 {
        let before = surfaces_bindings(surfaces, (n - 1) as nat);
        if x < before.len() {
            bound_principals_are_the_surfaces(surfaces, (n - 1) as nat, x);
            assert(surfaces_bindings(surfaces, n)[x] == before[x]);
        } else {
            let k = x - before.len();
            assert(principals_of(surfaces[n - 1]).contains(principals_of(surfaces[n - 1])[k]));
            assert(surfaces[n - 1].slug@ == surfaces_bindings(surfaces, n)[x].0->slug);
        }
    }
}

/// What lists of registrations, bindings, budgets and callers say is what each item has, in order.
pub proof fn wires_say_what_they_have(
    registrations: Seq<SubscriberRegistration>,
    bindings: Seq<DeliveryBinding>,
    budgets: Seq<(Option<String>, AttachSendBudget)>,
    callers: Seq<CallerGrants>,
    i: int,
)
    ensures
        registration_views(registrations).len() == registrations.len(),
        0 <= i < registrations.len() ==> registration_views(registrations)[i] == (
            registrations[i].kind@,
            registrations[i].policy@,
            registrations[i].wake,
        ),
        binding_views(bindings).len() == bindings.len(),
        0 <= i < bindings.len() ==> binding_views(bindings)[i] == (
            bindings[i].kind@,
            bindings[i].route,
        ),
        budget_views(budgets).len() == budgets.len(),
        0 <= i < budgets.len() ==> budget_views(budgets)[i].1 == budgets[i].1 && (
        budgets[i].0 matches Some(id) ==> budget_views(budgets)[i].0 == Some(id@)) && (
        budgets[i].0 is None ==> budget_views(budgets)[i].0 is None),
        caller_views(callers).len() == callers.len(),
        0 <= i < callers.len() ==> caller_views(callers)[i].0 == callers[i].caller@
            && caller_views(callers)[i].1 == policy::tool_views(callers[i].tools@),
{
}

/// Callers come in the order of the consumers: one more consumer adds itself, behind the others,
/// where it holds a tool grant.
pub proof fn callers_follow_the_consumers(consumers: Seq<ResolvedWasmConsumer>, n: nat)
    requires
        n < consumers.len(),
    ensures
        callers_of(consumers, n).is_prefix_of(callers_of(consumers, n + 1)),
        callers_of(consumers, n + 1).len() == callers_of(consumers, n).len() + (
        if consumers[n as int].policy@.tool_grants.len() > 0 {
            1int
        } else {
            0int
        }),
{
}

/// Registrations come in the order consumers, surfaces, system; each group in its own order, a
/// surface with one for itself and one for each component.
pub proof fn registrations_come_group_by_group(roster: Roster, i: int)
    ensures
        0 <= i < roster.consumers.len() ==> registrations_of(roster)[i].0 == SubscriberView::Wasm(
            roster.consumers[i].slug@,
        ),
        0 <= i < roster.systems.len() ==> registrations_of(roster)[registrations_of(roster).len()
            - roster.systems.len() + i].0 == SubscriberView::System(roster.systems[i].component@),
        0 <= i < roster.surfaces.len() ==> surfaces_registrations(
            roster.surfaces,
            (i + 1) as nat,
        ).len() == surfaces_registrations(roster.surfaces, i as nat).len()
            + roster.surfaces[i].components@.len() + 1,
        registrations_of(roster).len() == roster.consumers.len() + surfaces_registrations(
            roster.surfaces,
            roster.surfaces.len(),
        ).len() + roster.systems.len(),
{
    let a = consumer_registrations(roster.consumers);
    let b = surfaces_registrations(roster.surfaces, roster.surfaces.len());
    let c = system_registrations(roster.systems);
    let all = registrations_of(roster);
    assert(all.len() == a.len() + b.len() + c.len());
    if 0 <= i < roster.consumers.len() {
        assert(all[i] == a[i]);
    }
    if 0 <= i < roster.systems.len() {
        assert(all[a.len() + b.len() + i] == c[i]);
    }
}

} // verus!
