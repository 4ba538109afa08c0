//! Who takes part on the bus, and the checks that every subscriber can be reached.

use indexmap::IndexMap;
use vstd::prelude::*;
use vstd::string::*;

use crate::apps;
use crate::apps::{find_app, AppConfig, AppView};
use crate::directory::{ChannelEntry, MessagingDirectory, SubscriberEntryKind, SubscriberView};
use crate::model;
use crate::policy::{AppPolicy, PolicyView};
use crate::surface_model::ResolvedSurface;
use crate::text::same_text;
use crate::wasm_model::ResolvedWasmConsumer;

verus! {

/// A participant that is part of the server itself.
#[derive(Debug)]
pub struct SystemParticipantSpec {
    pub component: String,
    pub policy: AppPolicy,
    /// The addresses it subscribes to; a participant that only publishes has none.
    pub subscriptions: Vec<String>,
}

/// The participants that are part of the server: the tool executor wherever an async tool is
/// registered, and the one that publishes the surfaces' help.
pub fn collect_system_participants(
    async_tools: usize,
    tool_executor: SystemParticipantSpec,
    surface_help: SystemParticipantSpec,
) -> (participants: Vec<SystemParticipantSpec>)
    ensures
        participants@ == (if async_tools > 0 {
            seq![tool_executor, surface_help]
        } else {
            seq![surface_help]
        }),
{
    let mut participants: Vec<SystemParticipantSpec> = Vec::new();
    if async_tools > 0 {
        participants.push(tool_executor);
    }
    participants.push(surface_help);
    participants
}

/// Everyone who can subscribe.
pub struct Roster {
    pub apps: Seq<(Seq<char>, AppView)>,
    pub consumers: Seq<ResolvedWasmConsumer>,
    pub surfaces: Seq<ResolvedSurface>,
    pub systems: Seq<SystemParticipantSpec>,
}

/// The policy of the consumer `slug`; the last one counts.
pub open spec fn consumer_policy(list: Seq<ResolvedWasmConsumer>, slug: Seq<char>) -> Option<
    PolicyView,
>
    decreases list.len(),
{
    if list.len() == 0 {
        None
    } else if list.last().slug@ == slug {
        Some(list.last().policy@)
    } else {
        consumer_policy(list.drop_last(), slug)
    }
}

/// The policy of the surface `slug`; the last one counts.
pub open spec fn surface_policy(list: Seq<ResolvedSurface>, slug: Seq<char>) -> Option<PolicyView>
    decreases list.len(),
{
    if list.len() == 0 {
        None
    } else if list.last().slug@ == slug {
        Some(list.last().policy@)
    } else {
        surface_policy(list.drop_last(), slug)
    }
}

/// The policy of the system participant `component`; the last one counts.
pub open spec fn system_policy(list: Seq<SystemParticipantSpec>, component: Seq<char>) -> Option<
    PolicyView,
>
    decreases list.len(),
{
    if list.len() == 0 {
        None
    } else if list.last().component@ == component {
        Some(list.last().policy@)
    } else {
        system_policy(list.drop_last(), component)
    }
}

impl Roster {
    /// The policy of a subscriber. A surface's policy is the same for all its instances.
    pub open spec fn policy_of(self, subscriber: SubscriberView) -> Option<PolicyView> {
        match subscriber {
            SubscriberView::App(slug) => match apps::app_in(self.apps, slug) {
                Some(app) => Some(app.policy),
                None => None,
            },
            SubscriberView::Wasm(slug) => consumer_policy(self.consumers, slug),
            SubscriberView::Surface { slug, instance } => surface_policy(self.surfaces, slug),
            SubscriberView::System(component) => system_policy(self.systems, component),
        }
    }
}

/// Why a subscription can never deliver.
#[derive(Clone, Copy, Debug, PartialEq, Eq, Structural)]
pub enum DeadReason {
    /// The subscriber has no policy at all.
    NoPolicy,
    /// The subscriber's policy does not cover the channel.
    NotAuthorized,
}

/// A subscription that can never deliver: the places of its channel and of the subscriber on it.
#[derive(Clone, Copy, Debug, PartialEq, Eq, Structural)]
pub struct Undeliverable {
    pub channel: usize,
    pub subscriber: usize,
    pub reason: DeadReason,
}

/// What keeps subscriber `j` of channel `i` from ever receiving.
pub open spec fn dead_reason(
    entries: Seq<ChannelEntry>,
    roster: Roster,
    i: int,
    j: int,
) -> Option<DeadReason> {
    match roster.policy_of(entries[i].subscribers@[j].kind@) {
        None => Some(DeadReason::NoPolicy),
        Some(policy) => model::unless(
            policy.delivers_on(entries[i].address@),
            DeadReason::NotAuthorized,
        ),
    }
}

/// The dead ones among the first `m` subscribers of channel `i`.
pub open spec fn dead_on(
    entries: Seq<ChannelEntry>,
    roster: Roster,
    i: int,
    m: nat,
) -> Seq<(int, int, DeadReason)>
    decreases m,
{
    if m == 0 {
        Seq::empty()
    } else {
        let before = dead_on(entries, roster, i, (m - 1) as nat);
        match dead_reason(entries, roster, i, m - 1) {
            Some(reason) => before.push((i, m - 1, reason)),
            None => before,
        }
    }
}

/// The dead subscriptions of the first `n` channels, in directory order.
pub open spec fn dead_subscriptions(
    entries: Seq<ChannelEntry>,
    roster: Roster,
    n: nat,
) -> Seq<(int, int, DeadReason)>
    decreases n,
{
    if n == 0 {
        Seq::empty()
    } else {
        dead_subscriptions(entries, roster, (n - 1) as nat) + dead_on(
            entries,
            roster,
            n - 1,
            entries[n - 1].subscribers@.len(),
        )
    }
}

/// What a list of dead subscriptions says.
pub open spec fn dead_list(list: Seq<Undeliverable>) -> Seq<(int, int, DeadReason)> {
    Seq::new(
        list.len(),
        |i: int| (list[i].channel as int, list[i].subscriber as int, list[i].reason),
    )
}

fn find_consumer_policy<'a>(list: &'a [ResolvedWasmConsumer], slug: &str) -> (policy: Option<
    &'a AppPolicy,
>)
    ensures
        consumer_policy(list@, slug@) == (match policy {
            Some(p) => Some(p@),
            None => None,
        }),
{
    let mut i: usize = list.len();
    assert(list@.take(i as int) =~= list@);
    while i > 0
        invariant
            i <= list@.len(),
            consumer_policy(list@, slug@) == consumer_policy(list@.take(i as int), slug@),
        decreases i,
    {
        i = i - 1;
        assert(list@.take(i + 1).drop_last() =~= list@.take(i as int));
        if same_text(list[i].slug.as_str(), slug) {
            return Some(&list[i].policy);
        }
    }
    None
}

fn find_surface_policy<'a>(list: &'a [ResolvedSurface], slug: &str) -> (policy: Option<
    &'a AppPolicy,
>)
    ensures
        surface_policy(list@, slug@) == (match policy {
            Some(p) => Some(p@),
            None => None,
        }),
{
    let mut i: usize = list.len();
    assert(list@.take(i as int) =~= list@);
    while i > 0
        invariant
            i <= list@.len(),
            surface_policy(list@, slug@) == surface_policy(list@.take(i as int), slug@),
        decreases i,
    {
        i = i - 1;
        assert(list@.take(i + 1).drop_last() =~= list@.take(i as int));
        if same_text(list[i].slug.as_str(), slug) {
            return Some(&list[i].policy);
        }
    }
    None
}

fn find_system_policy<'a>(list: &'a [SystemParticipantSpec], component: &str) -> (policy: Option<
    &'a AppPolicy,
>)
    ensures
        system_policy(list@, component@) == (match policy {
            Some(p) => Some(p@),
            None => None,
        }),
{
    let mut i: usize = list.len();
    assert(list@.take(i as int) =~= list@);
    while i > 0
        invariant
            i <= list@.len(),
            system_policy(list@, component@) == system_policy(list@.take(i as int), component@),
        decreases i,
    {
        i = i - 1;
        assert(list@.take(i + 1).drop_last() =~= list@.take(i as int));
        if same_text(list[i].component.as_str(), component) {
            return Some(&list[i].policy);
        }
    }
    None
}

/// Everyone who can subscribe, as boot holds them.
pub struct Participants<'a> {
    pub apps: &'a IndexMap<String, AppConfig>,
    pub wasm_consumers: &'a [ResolvedWasmConsumer],
    pub surfaces: &'a [ResolvedSurface],
    pub system_participants: &'a [SystemParticipantSpec],
}

impl<'a> Participants<'a> {
    /// The roster these participants make up.
    pub open spec fn roster(self) -> Roster {
        Roster {
            apps: apps::app_list(*self.apps),
            consumers: self.wasm_consumers@,
            surfaces: self.surfaces@,
            systems: self.system_participants@,
        }
    }

    /// The policy of a subscriber.
    pub fn subscriber_policy(&self, kind: &SubscriberEntryKind) -> (policy: Option<&AppPolicy>)
        ensures
            self.roster().policy_of(kind@) == (match policy {
                Some(p) => Some(p@),
                None => None,
            }),
    {
        match kind {
            SubscriberEntryKind::App(slug) => match find_app(self.apps, slug.as_str()) {
                Some(app) => Some(&app.policy),
                None => None,
            },
            SubscriberEntryKind::Wasm(slug) => find_consumer_policy(
                self.wasm_consumers,
                slug.as_str(),
            ),
            SubscriberEntryKind::Surface { slug, instance: _ } => find_surface_policy(
                self.surfaces,
                slug.as_str(),
            ),
            SubscriberEntryKind::System(component) => find_system_policy(
                self.system_participants,
                component.as_str(),
            ),
        }
    }
}

fn dead_subscriber(
    directory: &MessagingDirectory,
    participants: &Participants,
    i: usize,
    j: usize,
) -> (reason: Option<DeadReason>)
    requires
        i < directory.entries@.len(),
        j < directory.entries@[i as int].subscribers@.len(),
    ensures
        reason == dead_reason(directory.entries@, participants.roster(), i as int, j as int),
{
    let entry: &ChannelEntry = &directory.entries[i];
    match participants.subscriber_policy(&entry.subscribers[j].kind) {
        None => Some(DeadReason::NoPolicy),
        Some(policy) => if policy.allows_channel_access(entry.address.as_str()) {
            None
        } else {
            Some(DeadReason::NotAuthorized)
        },
    }
}

/// Refuse to start where a declared subscription can never receive a message; every such
/// subscription is listed, in directory order.
pub fn validate_static_subscriptions_deliverable(
    directory: &MessagingDirectory,
    participants: &Participants,
) -> (outcome: Result<(), Vec<Undeliverable>>)
    ensures
        outcome is Ok <==> dead_subscriptions(
            directory.entries@,
            participants.roster(),
            directory.entries@.len(),
        ).len() == 0,
        outcome matches Err(dead) ==> dead_list(dead@) == dead_subscriptions(
            directory.entries@,
            participants.roster(),
            directory.entries@.len(),
        ),
{
    let ghost entries = directory.entries@;
    let ghost roster = participants.roster();
    let mut dead: Vec<Undeliverable> = Vec::new();
    let n: usize = directory.entries.len();
    let mut i: usize = 0;
    assert(dead_list(dead@) =~= dead_subscriptions(entries, roster, 0));
    while i < n
        invariant
            i <= n,
            n == entries.len(),
            entries == directory.entries@,
            roster == participants.roster(),
            dead_list(dead@) == dead_subscriptions(entries, roster, i as nat),
        decreases n - i,
    {
        let m: usize = directory.entries[i].subscribers.len();
        let mut j: usize = 0;
        assert(dead_list(dead@) =~= dead_subscriptions(entries, roster, i as nat) + dead_on(
            entries,
            roster,
            i as int,
            0,
        ));
        while j < m
            invariant
                i < n,
                n == entries.len(),
                j <= m,
                m == entries[i as int].subscribers@.len(),
                entries == directory.entries@,
                roster == participants.roster(),
                dead_list(dead@) == dead_subscriptions(entries, roster, i as nat) + dead_on(
                    entries,
                    roster,
                    i as int,
                    j as nat,
                ),
            decreases m - j,
        {
            if let Some(reason) = dead_subscriber(directory, participants, i, j) {
                let ghost before = dead@;
                dead.push(Undeliverable { channel: i, subscriber: j, reason });
                assert(dead_list(dead@) =~= dead_list(before).push((i as int, j as int, reason)));
            }
            assert(dead_list(dead@) =~= dead_subscriptions(entries, roster, i as nat) + dead_on(
                entries,
                roster,
                i as int,
                (j + 1) as nat,
            ));
            j = j + 1;
        }
        i = i + 1;
    }
    assert(dead_list(dead@).len() == dead@.len());
    if dead.len() == 0 {
        Ok(())
    } else {
        Err(dead)
    }
}

proof fn dead_on_lists_the_dead(
    entries: Seq<ChannelEntry>,
    roster: Roster,
    i: int,
    m: nat,
    item: (int, int, DeadReason),
)
    ensures
        dead_on(entries, roster, i, m).contains(item) <==> item.0 == i && 0 <= item.1 < m
            && dead_reason(entries, roster, i, item.1) == Some(item.2),
    decreases m,
{
    if m > 0 {
        let before = dead_on(entries, roster, i, (m - 1) as nat);
        dead_on_lists_the_dead(entries, roster, i, (m - 1) as nat, item);
        let after = dead_on(entries, roster, i, m);
        if before.contains(item) {
            let k = choose|k: int| 0 <= k < before.len() && before[k] == item;
            assert(after[k] == item);
        }
        if item.0 == i && item.1 == m - 1 && dead_reason(entries, roster, i, item.1) == Some(
            item.2,
        ) {
            assert(after[before.len() as int] == item);
        }
        if after.contains(item) {
            let k = choose|k: int| 0 <= k < after.len() && after[k] == item;
            if k < before.len() {
                assert(before[k] == item);
            }
        }
    }
}

/// The check lists a subscription exactly where its subscriber has no policy or has one that does
/// not let it receive on the channel; what would deliver is never listed.
pub proof fn exactly_the_dead_are_listed(
    entries: Seq<ChannelEntry>,
    roster: Roster,
    n: nat,
    item: (int, int, DeadReason),
)
    requires
        n <= entries.len(),
    ensures
        dead_subscriptions(entries, roster, n).contains(item) <==> 0 <= item.0 < n && 0 <= item.1
            < entries[item.0].subscribers@.len() && dead_reason(entries, roster, item.0, item.1)
            == Some(item.2),
    decreases n,
{
    if n > 0 {
        let m = (n - 1) as nat;
        let before = dead_subscriptions(entries, roster, m);
        let here = dead_on(entries, roster, n - 1, entries[n - 1].subscribers@.len());
        exactly_the_dead_are_listed(entries, roster, m, item);
        dead_on_lists_the_dead(
            entries,
            roster,
            n - 1,
            entries[n - 1].subscribers@.len(),
            item,
        );
        let after = dead_subscriptions(entries, roster, n);
        if before.contains(item) {
            let k = choose|k: int| 0 <= k < before.len() && before[k] == item;
            assert(after[k] == item);
        }
        if here.contains(item) {
            let k = choose|k: int| 0 <= k < here.len() && here[k] == item;
            assert(after[before.len() + k] == item);
        }
        if after.contains(item) {
            let k = choose|k: int| 0 <= k < after.len() && after[k] == item;
            if k < before.len() {
                assert(before[k] == item);
            } else {
                assert(here[k - before.len()] == item);
            }
        }
    }
}

/// In a directory that passes, every subscriber may receive on its channel.
pub proof fn accepted_subscribers_can_receive(
    entries: Seq<ChannelEntry>,
    roster: Roster,
    i: int,
    j: int,
)
    requires
        dead_subscriptions(entries, roster, entries.len()).len() == 0,
        0 <= i < entries.len(),
        0 <= j < entries[i].subscribers@.len(),
    ensures
        roster.policy_of(entries[i].subscribers@[j].kind@) matches Some(policy)
            && policy.delivers_on(entries[i].address@),
{
    match dead_reason(entries, roster, i, j) {
        Some(reason) => {
            exactly_the_dead_are_listed(entries, roster, entries.len(), (i, j, reason));
        },
        None => {},
    }
}

/// A subscription is dead for want of a policy exactly where the subscriber has none, and for
/// want of authority exactly where it has one that does not deliver on the channel.
pub proof fn each_dead_reason_is_what_it_says(
    entries: Seq<ChannelEntry>,
    roster: Roster,
    i: int,
    j: int,
)
    ensures
        dead_reason(entries, roster, i, j) == Some(DeadReason::NoPolicy) <==> roster.policy_of(
            entries[i].subscribers@[j].kind@,
        ) is None,
        dead_reason(entries, roster, i, j) == Some(DeadReason::NotAuthorized) <==> (
        roster.policy_of(entries[i].subscribers@[j].kind@) matches Some(policy)
            && !policy.delivers_on(entries[i].address@)),
        dead_reason(entries, roster, i, j) is None <==> (roster.policy_of(
            entries[i].subscribers@[j].kind@,
        ) matches Some(policy) && policy.delivers_on(entries[i].address@)),
{
}

/// A subscriber's policy is that of the participant of its own kind with its name, the last one
/// where there are several; a surface's policy serves all its instances.
pub proof fn a_subscriber_has_its_own_kinds_policy(roster: Roster, k: int, instance: Option<Seq<char>>)
    ensures
        0 <= k < roster.consumers.len() && (forall|m: int|
            k < m < roster.consumers.len() ==> (#[trigger] roster.consumers[m]).slug@
                != roster.consumers[k].slug@) ==> roster.policy_of(
            SubscriberView::Wasm(roster.consumers[k].slug@),
        ) == Some(roster.consumers[k].policy@),
        0 <= k < roster.surfaces.len() && (forall|m: int|
            k < m < roster.surfaces.len() ==> (#[trigger] roster.surfaces[m]).slug@
                != roster.surfaces[k].slug@) ==> roster.policy_of(
            SubscriberView::Surface { slug: roster.surfaces[k].slug@, instance },
        ) == Some(roster.surfaces[k].policy@),
        0 <= k < roster.systems.len() && (forall|m: int|
            k < m < roster.systems.len() ==> (#[trigger] roster.systems[m]).component@
                != roster.systems[k].component@) ==> roster.policy_of(
            SubscriberView::System(roster.systems[k].component@),
        ) == Some(roster.systems[k].policy@),
{
    if 0 <= k < roster.consumers.len() {
        last_consumer_counts(roster.consumers, k);
    }
    if 0 <= k < roster.surfaces.len() {
        last_surface_counts(roster.surfaces, k);
    }
    if 0 <= k < roster.systems.len() {
        last_system_counts(roster.systems, k);
    }
}

/// A name that no participant of the kind has, has no policy.
pub proof fn nobody_has_no_policy(roster: Roster, name: Seq<char>, instance: Option<Seq<char>>)
    ensures
        roster.policy_of(SubscriberView::Wasm(name)) is None <==> forall|m: int|
            0 <= m < roster.consumers.len() ==> (#[trigger] roster.consumers[m]).slug@ != name,
        roster.policy_of(SubscriberView::Surface { slug: name, instance }) is None <==> forall|
            m: int,
        |
            0 <= m < roster.surfaces.len() ==> (#[trigger] roster.surfaces[m]).slug@ != name,
        roster.policy_of(SubscriberView::System(name)) is None <==> forall|m: int|
            0 <= m < roster.systems.len() ==> (#[trigger] roster.systems[m]).component@ != name,
        roster.policy_of(SubscriberView::App(name)) is None <==> forall|m: int|
            0 <= m < roster.apps.len() ==> (#[trigger] roster.apps[m]).0 != name,
{
    no_consumer_no_policy(roster.consumers, name);
    no_surface_no_policy(roster.surfaces, name);
    no_system_no_policy(roster.systems, name);
    apps::apps_are_found_by_slug(roster.apps, name);
}

proof fn last_consumer_counts(list: Seq<ResolvedWasmConsumer>, k: int)
    requires
        0 <= k < list.len(),
    ensures
        (forall|m: int| k < m < list.len() ==> (#[trigger] list[m]).slug@ != list[k].slug@)
            ==> consumer_policy(list, list[k].slug@) == Some(list[k].policy@),
    decreases list.len(),
{
    if k < list.len() - 1 {
        let rest = list.drop_last();
        last_consumer_counts(rest, k);
        if forall|m: int| k < m < list.len() ==> (#[trigger] list[m]).slug@ != list[k].slug@ {
            assert forall|m: int| k < m < rest.len() implies (#[trigger] rest[m]).slug@
                != rest[k].slug@ by {
                assert(rest[m] == list[m]);
            }
            assert(list[list.len() - 1].slug@ != list[k].slug@);
        }
    }
}

proof fn last_surface_counts(list: Seq<ResolvedSurface>, k: int)
    requires
        0 <= k < list.len(),
    ensures
        (forall|m: int| k < m < list.len() ==> (#[trigger] list[m]).slug@ != list[k].slug@)
            ==> surface_policy(list, list[k].slug@) == Some(list[k].policy@),
    decreases list.len(),
{
    if k < list.len() - 1 {
        let rest = list.drop_last();
        last_surface_counts(rest, k);
        if forall|m: int| k < m < list.len() ==> (#[trigger] list[m]).slug@ != list[k].slug@ {
            assert forall|m: int| k < m < rest.len() implies (#[trigger] rest[m]).slug@
                != rest[k].slug@ by {
                assert(rest[m] == list[m]);
            }
            assert(list[list.len() - 1].slug@ != list[k].slug@);
        }
    }
}

proof fn last_system_counts(list: Seq<SystemParticipantSpec>, k: int)
    requires
        0 <= k < list.len(),
    ensures
        (forall|m: int| k < m < list.len() ==> (#[trigger] list[m]).component@ != list[k].component@)
            ==> system_policy(list, list[k].component@) == Some(list[k].policy@),
    decreases list.len(),
{
    if k < list.len() - 1 {
        let rest = list.drop_last();
        last_system_counts(rest, k);
        if forall|m: int|
            k < m < list.len() ==> (#[trigger] list[m]).component@ != list[k].component@ {
            assert forall|m: int| k < m < rest.len() implies (#[trigger] rest[m]).component@
                != rest[k].component@ by {
                assert(rest[m] == list[m]);
            }
            assert(list[list.len() - 1].component@ != list[k].component@);
        }
    }
}

proof fn no_consumer_no_policy(list: Seq<ResolvedWasmConsumer>, name: Seq<char>)
    ensures
        consumer_policy(list, name) is None <==> forall|m: int|
            0 <= m < list.len() ==> (#[trigger] list[m]).slug@ != name,
    decreases list.len(),
{
    if list.len() > 0 {
        let rest = list.drop_last();
        no_consumer_no_policy(rest, name);
        assert forall|m: int| 0 <= m < rest.len() implies #[trigger] list[m] == rest[m] by {}
        assert(list.last() == list[list.len() - 1]);
        if consumer_policy(list, name) is None {
            assert forall|m: int| 0 <= m < list.len() implies (#[trigger] list[m]).slug@ != name by {
                if m < rest.len() {
                    assert(rest[m].slug@ != name);
                }
            }
        } else if list.last().slug@ != name {
            let m = choose|m: int| 0 <= m < rest.len() && (#[trigger] rest[m]).slug@ == name;
            assert(list[m].slug@ == name);
        }
    }
}

proof fn no_surface_no_policy(list: Seq<ResolvedSurface>, name: Seq<char>)
    ensures
        surface_policy(list, name) is None <==> forall|m: int|
            0 <= m < list.len() ==> (#[trigger] list[m]).slug@ != name,
    decreases list.len(),
{
    if list.len() > 0 {
        let rest = list.drop_last();
        no_surface_no_policy(rest, name);
        assert forall|m: int| 0 <= m < rest.len() implies #[trigger] list[m] == rest[m] by {}
        assert(list.last() == list[list.len() - 1]);
        if surface_policy(list, name) is None {
            assert forall|m: int| 0 <= m < list.len() implies (#[trigger] list[m]).slug@ != name by {
                if m < rest.len() {
                    assert(rest[m].slug@ != name);
                }
            }
        } else if list.last().slug@ != name {
            let m = choose|m: int| 0 <= m < rest.len() && (#[trigger] rest[m]).slug@ == name;
            assert(list[m].slug@ == name);
        }
    }
}

proof fn no_system_no_policy(list: Seq<SystemParticipantSpec>, name: Seq<char>)
    ensures
        system_policy(list, name) is None <==> forall|m: int|
            0 <= m < list.len() ==> (#[trigger] list[m]).component@ != name,
    decreases list.len(),
{
    if list.len() > 0 {
        let rest = list.drop_last();
        no_system_no_policy(rest, name);
        assert forall|m: int| 0 <= m < rest.len() implies #[trigger] list[m] == rest[m] by {}
        assert(list.last() == list[list.len() - 1]);
        if system_policy(list, name) is None {
            assert forall|m: int| 0 <= m < list.len() implies (#[trigger] list[m]).component@
                != name by {
                if m < rest.len() {
                    assert(rest[m].component@ != name);
                }
            }
        } else if list.last().component@ != name {
            let m = choose|m: int| 0 <= m < rest.len() && (#[trigger] rest[m]).component@ == name;
            assert(list[m].component@ == name);
        }
    }
}

/// The roster is everyone that takes part, as they are.
pub proof fn the_roster_is_everyone(participants: Participants)
    ensures
        participants.roster().apps == apps::app_list(*participants.apps),
        participants.roster().consumers == participants.wasm_consumers@,
        participants.roster().surfaces == participants.surfaces@,
        participants.roster().systems == participants.system_participants@,
{
}

/// An app's policy is that of the first app with its slug.
pub proof fn an_app_has_its_own_policy(roster: Roster, i: int)
    requires
        0 <= i < roster.apps.len(),
        forall|d: int| 0 <= d < i ==> (#[trigger] roster.apps[d]).0 != roster.apps[i].0,
    ensures
        roster.policy_of(SubscriberView::App(roster.apps[i].0)) == Some(roster.apps[i].1.policy),
{
    apps::the_first_app_of_a_slug_is_found(roster.apps, i);
}

/// What a list of dead subscriptions says is each one's places and reason, in order.
pub proof fn the_dead_say_where_and_why(list: Seq<Undeliverable>, i: int)
    requires
        0 <= i < list.len(),
    ensures
        dead_list(list).len() == list.len(),
        dead_list(list)[i].0 == list[i].channel,
        dead_list(list)[i].1 == list[i].subscriber,
        dead_list(list)[i].2 == list[i].reason,
{
}

/// Dead subscriptions are listed in directory order: those of one more channel come behind the
/// others.
pub proof fn the_dead_follow_the_directory(entries: Seq<ChannelEntry>, roster: Roster, n: nat)
    requires
        n < entries.len(),
    ensures
        dead_subscriptions(entries, roster, n).is_prefix_of(
            dead_subscriptions(entries, roster, n + 1),
        ),
        dead_subscriptions(entries, roster, n + 1).len() <= dead_subscriptions(
            entries,
            roster,
            n,
        ).len() + entries[n as int].subscribers@.len(),
{
    few_are_dead(entries, roster, n as int, entries[n as int].subscribers@.len());
    let before = dead_subscriptions(entries, roster, n);
    assert(dead_subscriptions(entries, roster, n + 1).subrange(0, before.len() as int) =~= before);
}

proof fn few_are_dead(entries: Seq<ChannelEntry>, roster: Roster, i: int, m: nat)
    ensures
        dead_on(entries, roster, i, m).len() <= m,
    decreases m,
{
    if m > 0 {
        few_are_dead(entries, roster, i, (m - 1) as nat);
    }
}

} // verus!
