//! Which MQTT clients get a session, and where what they deliver goes.

use indexmap::{IndexMap, IndexSet};
use vstd::prelude::*;
use vstd::string::*;

use crate::apps;
use crate::apps::{app_at, app_count, AppConfig};
use crate::clients;
use crate::clients::{find_client, MqttClient};
use crate::model;
use crate::model::Urgency;
use crate::policy;
use crate::policy::{AppPolicy, MqttClientMatcher, MqttSubMatcher, PolicyView};
use crate::wasm_model::ResolvedWasmConsumer;

verus! {

/// A topic filter of a client and the channel its deliveries go to.
#[derive(Debug, PartialEq, Eq)]
pub struct ResolvedMqttIngressChannel {
    pub channel_address: String,
    pub channel_uuid: u128,
    pub client_slug: String,
    pub topic: String,
    pub qos: u8,
    pub urgency: Urgency,
}

/// What an ingress channel says.
pub struct IngressView {
    pub channel_address: Seq<char>,
    pub channel_uuid: u128,
    pub client_slug: Seq<char>,
    pub topic: Seq<char>,
    pub qos: u8,
    pub urgency: Urgency,
}

impl View for ResolvedMqttIngressChannel {
    type V = IngressView;

    open spec fn view(&self) -> IngressView {
        IngressView {
            channel_address: self.channel_address@,
            channel_uuid: self.channel_uuid,
            client_slug: self.client_slug@,
            topic: self.topic@,
            qos: self.qos,
            urgency: self.urgency,
        }
    }
}

/// What a list of ingress channels says.
pub open spec fn ingress_views(list: Seq<ResolvedMqttIngressChannel>) -> Seq<IngressView> {
    Seq::new(list.len(), |i: int| list[i]@)
}

/// The insertion-ordered set of the `indexmap` crate.
#[verifier::external_type_specification]
#[verifier::external_body]
#[verifier::reject_recursive_types(T)]
#[verifier::reject_recursive_types(S)]
pub struct ExIndexSet<T, S>(indexmap::IndexSet<T, S>);

/// The names in the set, in the order in which they were first inserted.
pub uninterp spec fn client_names(names: IndexSet<String>) -> Seq<Seq<char>>;

/// The list with `name` in it: as it is where it has the name, with the name at the end otherwise.
pub open spec fn noted(list: Seq<Seq<char>>, name: Seq<char>) -> Seq<Seq<char>> {
    if list.contains(name) {
        list
    } else {
        list.push(name)
    }
}

/// The names that come up in a sequence of mentions, each once, in the order of its first mention.
pub open spec fn first_mentions(mentions: Seq<Seq<char>>) -> Seq<Seq<char>>
    decreases mentions.len(),
{
    if mentions.len() == 0 {
        Seq::empty()
    } else {
        noted(first_mentions(mentions.drop_last()), mentions.last())
    }
}

/// `IndexSet::new`: the set has no item.
#[verifier::external_body]
fn no_names() -> (names: IndexSet<String>)
    ensures
        client_names(names) == Seq::<Seq<char>>::empty(),
{
    IndexSet::new()
}

/// `IndexSet::insert`: an item the set has stays where it is, one it does not have goes last.
#[verifier::external_body]
fn note_name(names: &mut IndexSet<String>, name: String)
    ensures
        client_names(*final(names)) == noted(client_names(*old(names)), name@),
{
    names.insert(name);
}

/// `IndexSet::len`: how many items the set has.
#[verifier::external_body]
fn name_count(names: &IndexSet<String>) -> (count: usize)
    ensures
        count == client_names(*names).len(),
{
    names.len()
}

/// `IndexSet::get_index`: the item at a place of the insertion order.
#[verifier::external_body]
fn name_at(names: &IndexSet<String>, i: usize) -> (name: &String)
    requires
        i < client_names(*names).len(),
    ensures
        name@ == client_names(*names)[i as int],
{
    names.get_index(i).unwrap()
}

/// The clients of the ingress channels.
pub open spec fn ingress_clients(list: Seq<ResolvedMqttIngressChannel>) -> Seq<Seq<char>> {
    Seq::new(list.len(), |i: int| list[i].client_slug@)
}

/// The clients of a list of topic filters.
pub open spec fn filter_clients(list: Seq<(Seq<char>, Seq<char>)>) -> Seq<Seq<char>> {
    Seq::new(list.len(), |i: int| list[i].0)
}

/// The clients that the policies of the first `n` apps name: for each app those it may publish
/// through, then those it may subscribe on.
pub open spec fn app_mentions(policies: Seq<PolicyView>, n: nat) -> Seq<Seq<char>>
    decreases n,
{
    if n == 0 {
        Seq::empty()
    } else {
        app_mentions(policies, (n - 1) as nat) + policies[n - 1].mqtt_publish + filter_clients(
            policies[n - 1].mqtt_subscribe,
        )
    }
}

/// The clients that the policies of the first `n` consumers let them publish through.
pub open spec fn consumer_mentions(policies: Seq<PolicyView>, n: nat) -> Seq<Seq<char>>
    decreases n,
{
    if n == 0 {
        Seq::empty()
    } else {
        consumer_mentions(policies, (n - 1) as nat) + policies[n - 1].mqtt_publish
    }
}

/// Every mention of a client: by an ingress channel, by an app's policy, by a consumer's policy.
pub open spec fn mentions(
    ingress: Seq<ResolvedMqttIngressChannel>,
    app_policies: Seq<PolicyView>,
    wasm_policies: Seq<PolicyView>,
) -> Seq<Seq<char>> {
    ingress_clients(ingress) + app_mentions(app_policies, app_policies.len()) + consumer_mentions(
        wasm_policies,
        wasm_policies.len(),
    )
}

/// What a list of policies says.
pub open spec fn policy_views(list: Seq<&AppPolicy>) -> Seq<PolicyView> {
    Seq::new(list.len(), |i: int| list[i]@)
}

fn note_ingress(names: &mut IndexSet<String>, ingress: &[ResolvedMqttIngressChannel])
    requires
        client_names(*old(names)) == Seq::<Seq<char>>::empty(),
    ensures
        client_names(*final(names)) == first_mentions(ingress_clients(ingress@)),
{
    let n: usize = ingress.len();
    let ghost all = ingress_clients(ingress@);
    let mut i: usize = 0;
    while i < n
        invariant
            i <= n,
            n == ingress@.len(),
            all == ingress_clients(ingress@),
            client_names(*names) == first_mentions(all.take(i as int)),
        decreases n - i,
    {
        note_name(names, ingress[i].client_slug.clone());
        assert(all.take(i + 1).drop_last() =~= all.take(i as int));
        i = i + 1;
    }
    assert(all.take(n as int) =~= all);
}

fn note_publish(
    names: &mut IndexSet<String>,
    list: &Vec<MqttClientMatcher>,
    Ghost(before): Ghost<Seq<Seq<char>>>,
)
    requires
        client_names(*old(names)) == first_mentions(before),
    ensures
        client_names(*final(names)) == first_mentions(before + policy::publish_clients(list@)),
{
    let n: usize = list.len();
    let ghost all = before + policy::publish_clients(list@);
    let mut i: usize = 0;
    assert(all.take(before.len() as int) =~= before);
    while i < n
        invariant
            i <= n,
            n == list@.len(),
            all == before + policy::publish_clients(list@),
            client_names(*names) == first_mentions(all.take(before.len() + i)),
        decreases n - i,
    {
        note_name(names, list[i].client.clone());
        assert(all.take(before.len() + i + 1).drop_last() =~= all.take(before.len() + i));
        i = i + 1;
    }
    assert(all.take(before.len() + n) =~= all);
}

fn note_subscribe(
    names: &mut IndexSet<String>,
    list: &Vec<MqttSubMatcher>,
    Ghost(before): Ghost<Seq<Seq<char>>>,
)
    requires
        client_names(*old(names)) == first_mentions(before),
    ensures
        client_names(*final(names)) == first_mentions(
            before + filter_clients(policy::subscribe_filters(list@)),
        ),
{
    let n: usize = list.len();
    let ghost all = before + filter_clients(policy::subscribe_filters(list@));
    let mut i: usize = 0;
    assert(all.take(before.len() as int) =~= before);
    while i < n
        invariant
            i <= n,
            n == list@.len(),
            all == before + filter_clients(policy::subscribe_filters(list@)),
            client_names(*names) == first_mentions(all.take(before.len() + i)),
        decreases n - i,
    {
        note_name(names, list[i].client.clone());
        assert(all.take(before.len() + i + 1).drop_last() =~= all.take(before.len() + i));
        i = i + 1;
    }
    assert(all.take(before.len() + n) =~= all);
}

/// The clients that get a session: each client that an ingress channel, a publish matcher or an
/// app's subscribe matcher names, once, in the order of its first mention.
pub fn referenced_clients(
    ingress_channels: &[ResolvedMqttIngressChannel],
    app_policies: &[&AppPolicy],
    wasm_policies: &[&AppPolicy],
) -> (referenced: IndexSet<String>)
    ensures
        client_names(referenced) == first_mentions(
            mentions(
                ingress_channels@,
                policy_views(app_policies@),
                policy_views(wasm_policies@),
            ),
        ),
{
    let mut names: IndexSet<String> = no_names();
    note_ingress(&mut names, ingress_channels);
    let ghost apps = policy_views(app_policies@);
    let ghost wasm = policy_views(wasm_policies@);
    let ghost first = ingress_clients(ingress_channels@);
    let n: usize = app_policies.len();
    let mut i: usize = 0;
    assert(first + app_mentions(apps, 0) =~= first);
    while i < n
        invariant
            i <= n,
            n == app_policies@.len(),
            apps == policy_views(app_policies@),
            client_names(names) == first_mentions(first + app_mentions(apps, i as nat)),
        decreases n - i,
    {
        let policy: &AppPolicy = app_policies[i];
        let ghost before = first + app_mentions(apps, i as nat);
        note_publish(&mut names, &policy.acls.mqtt_publish, Ghost(before));
        note_subscribe(
            &mut names,
            &policy.acls.mqtt_subscribe,
            Ghost(before + policy@.mqtt_publish),
        );
        assert(apps[i as int] == policy@);
        assert(before + policy@.mqtt_publish + filter_clients(policy@.mqtt_subscribe) =~= first
            + app_mentions(apps, (i + 1) as nat));
        i = i + 1;
    }
    let ghost second = first + app_mentions(apps, n as nat);
    let m: usize = wasm_policies.len();
    let mut k: usize = 0;
    assert(second + consumer_mentions(wasm, 0) =~= second);
    while k < m
        invariant
            k <= m,
            m == wasm_policies@.len(),
            wasm == policy_views(wasm_policies@),
            client_names(names) == first_mentions(second + consumer_mentions(wasm, k as nat)),
        decreases m - k,
    {
        let policy: &AppPolicy = wasm_policies[k];
        let ghost before = second + consumer_mentions(wasm, k as nat);
        note_publish(&mut names, &policy.acls.mqtt_publish, Ghost(before));
        assert(wasm[k as int] == policy@);
        assert(before + policy@.mqtt_publish =~= second + consumer_mentions(wasm, (k + 1) as nat));
        k = k + 1;
    }
    names
}

/// No client gets two sessions, and a client gets one exactly where something mentions it.
pub proof fn sessions_are_the_mentioned_clients(mentions: Seq<Seq<char>>, client: Seq<char>)
    ensures
        first_mentions(mentions).no_duplicates(),
        first_mentions(mentions).contains(client) <==> mentions.contains(client),
    decreases mentions.len(),
{
    if mentions.len() > 0 {
        let before = mentions.drop_last();
        let last = mentions.last();
        sessions_are_the_mentioned_clients(before, client);
        sessions_are_the_mentioned_clients(before, last);
        let list = first_mentions(before);
        let after = first_mentions(mentions);
        if before.contains(client) {
            let k = choose|k: int| 0 <= k < before.len() && before[k] == client;
            assert(mentions[k] == client);
        }
        if client == last {
            assert(mentions[mentions.len() - 1] == client);
            if !list.contains(last) {
                assert(after[list.len() as int] == client);
            }
        }
        if mentions.contains(client) {
            let k = choose|k: int| 0 <= k < mentions.len() && mentions[k] == client;
            if k < before.len() {
                assert(before[k] == client);
            }
        }
        if list.contains(client) {
            let k = choose|k: int| 0 <= k < list.len() && list[k] == client;
            assert(after[k] == client);
        }
        if after.contains(client) {
            let k = choose|k: int| 0 <= k < after.len() && after[k] == client;
            if k < list.len() {
                assert(list[k] == client);
            }
        }
        if !list.contains(last) {
            assert forall|i: int, j: int|
                0 <= i < after.len() && 0 <= j < after.len() && i != j implies after[i]
                != after[j] by {
                if i < list.len() && j == list.len() {
                    assert(list.contains(list[i]));
                }
                if j < list.len() && i == list.len() {
                    assert(list.contains(list[j]));
                }
            }
        }
    }
}

proof fn app_mentions_cover(policies: Seq<PolicyView>, n: nat, i: int, client: Seq<char>)
    requires
        n <= policies.len(),
        0 <= i < n,
        policies[i].mqtt_publish.contains(client) || filter_clients(
            policies[i].mqtt_subscribe,
        ).contains(client),
    ensures
        app_mentions(policies, n).contains(client),
    decreases n,
{
    let m = (n - 1) as nat;
    let before = app_mentions(policies, m);
    let publish = policies[n - 1].mqtt_publish;
    let subscribe = filter_clients(policies[n - 1].mqtt_subscribe);
    let all = app_mentions(policies, n);
    if i < n - 1 {
        app_mentions_cover(policies, m, i, client);
        let k = choose|k: int| 0 <= k < before.len() && before[k] == client;
        assert(all[k] == client);
    } else if publish.contains(client) {
        let k = choose|k: int| 0 <= k < publish.len() && publish[k] == client;
        assert(all[before.len() + k] == client);
    } else {
        let k = choose|k: int| 0 <= k < subscribe.len() && subscribe[k] == client;
        assert(all[before.len() + publish.len() + k] == client);
    }
}

proof fn consumer_mentions_cover(policies: Seq<PolicyView>, n: nat, i: int, client: Seq<char>)
    requires
        n <= policies.len(),
        0 <= i < n,
        policies[i].mqtt_publish.contains(client),
    ensures
        consumer_mentions(policies, n).contains(client),
    decreases n,
{
    let m = (n - 1) as nat;
    let before = consumer_mentions(policies, m);
    let publish = policies[n - 1].mqtt_publish;
    let all = consumer_mentions(policies, n);
    if i < n - 1 {
        consumer_mentions_cover(policies, m, i, client);
        let k = choose|k: int| 0 <= k < before.len() && before[k] == client;
        assert(all[k] == client);
    } else {
        let k = choose|k: int| 0 <= k < publish.len() && publish[k] == client;
        assert(all[before.len() + k] == client);
    }
}

/// Whatever client a matcher can authorize has a session: one an app may publish through or
/// subscribe on, and one a consumer may publish through.
pub proof fn authorized_clients_have_sessions(
    ingress: Seq<ResolvedMqttIngressChannel>,
    app_policies: Seq<PolicyView>,
    wasm_policies: Seq<PolicyView>,
    client: Seq<char>,
)
    requires
        ingress_clients(ingress).contains(client) || (exists|i: int|
            0 <= i < app_policies.len() && ((#[trigger] app_policies[i]).mqtt_publish.contains(
                client,
            ) || filter_clients(app_policies[i].mqtt_subscribe).contains(client))) || (exists|i: int|
            0 <= i < wasm_policies.len() && (#[trigger] wasm_policies[i]).mqtt_publish.contains(
                client,
            )),
    ensures
        first_mentions(mentions(ingress, app_policies, wasm_policies)).contains(client),
{
    let a = ingress_clients(ingress);
    let b = app_mentions(app_policies, app_policies.len());
    let c = consumer_mentions(wasm_policies, wasm_policies.len());
    let all = mentions(ingress, app_policies, wasm_policies);
    sessions_are_the_mentioned_clients(all, client);
    if a.contains(client) {
        let k = choose|k: int| 0 <= k < a.len() && a[k] == client;
        assert(all[k] == client);
    } else if exists|i: int|
        0 <= i < app_policies.len() && ((#[trigger] app_policies[i]).mqtt_publish.contains(client)
            || filter_clients(app_policies[i].mqtt_subscribe).contains(client)) {
        let i = choose|i: int|
            0 <= i < app_policies.len() && ((#[trigger] app_policies[i]).mqtt_publish.contains(
                client,
            ) || filter_clients(app_policies[i].mqtt_subscribe).contains(client));
        app_mentions_cover(app_policies, app_policies.len(), i, client);
        let k = choose|k: int| 0 <= k < b.len() && b[k] == client;
        assert(all[a.len() + k] == client);
    } else {
        let i = choose|i: int|
            0 <= i < wasm_policies.len() && (#[trigger] wasm_policies[i]).mqtt_publish.contains(
                client,
            );
        consumer_mentions_cover(wasm_policies, wasm_policies.len(), i, client);
        let k = choose|k: int| 0 <= k < c.len() && c[k] == client;
        assert(all[a.len() + b.len() + k] == client);
    }
}

/// The policies of the apps, in configuration order.
pub open spec fn app_policies(list: Seq<(Seq<char>, apps::AppView)>) -> Seq<PolicyView> {
    Seq::new(list.len(), |i: int| list[i].1.policy)
}

/// The policies of the consumers, in declaration order.
pub open spec fn wasm_policies(list: Seq<ResolvedWasmConsumer>) -> Seq<PolicyView> {
    Seq::new(list.len(), |i: int| list[i].policy@)
}

/// A client that something mentions but that is not among the resolved ones.
#[derive(Debug, PartialEq, Eq)]
pub struct UnresolvedClient {
    pub client: String,
}

/// The check of one client that is to get a session.
pub open spec fn session_faults(
    names: Seq<Seq<char>>,
    declared: Map<Seq<char>, MqttClient>,
) -> spec_fn(int) -> Option<()> {
    |i: int| model::unless(declared.contains_key(names[i]), ())
}

/// The clients to start a session for, in order. There are none where no client is declared or
/// nothing mentions one; a mentioned client that is not among the resolved ones is an error.
pub fn plan_sessions(
    declares_clients: bool,
    apps: &IndexMap<String, AppConfig>,
    wasm_consumers: &[ResolvedWasmConsumer],
    ingress_channels: &[ResolvedMqttIngressChannel],
    resolved_clients: &IndexMap<String, MqttClient>,
) -> (sessions: Result<Vec<String>, UnresolvedClient>)
    ensures
        ({
            let names = first_mentions(
                mentions(
                    ingress_channels@,
                    app_policies(apps::app_list(*apps)),
                    wasm_policies(wasm_consumers@),
                ),
            );
            if !declares_clients {
                sessions matches Ok(list) && list@.len() == 0
            } else {
                match model::first_fault(
                    session_faults(names, clients::client_map(*resolved_clients)),
                    names.len(),
                ) {
                    Some(fault) => sessions matches Err(e) && e.client@ == names[fault.0 as int],
                    None => sessions matches Ok(list) && policy::texts(list@) == names,
                }
            }
        }),
{
    let ghost names = first_mentions(
        mentions(
            ingress_channels@,
            app_policies(apps::app_list(*apps)),
            wasm_policies(wasm_consumers@),
        ),
    );
    let n: usize = app_count(apps);
    let mut of_apps: Vec<&AppPolicy> = Vec::new();
    let mut i: usize = 0;
    while i < n
        invariant
            i <= n,
            n == apps::app_list(*apps).len(),
            policy_views(of_apps@) =~= app_policies(apps::app_list(*apps)).take(i as int),
        decreases n - i,
    {
        let (_slug, app) = app_at(apps, i);
        let ghost before = of_apps@;
        of_apps.push(&app.policy);
        assert(policy_views(of_apps@) =~= policy_views(before).push(
            app_policies(apps::app_list(*apps))[i as int],
        ));
        i = i + 1;
    }
    assert(policy_views(of_apps@) =~= app_policies(apps::app_list(*apps)));
    let m: usize = wasm_consumers.len();
    let mut of_consumers: Vec<&AppPolicy> = Vec::new();
    let mut k: usize = 0;
    while k < m
        invariant
            k <= m,
            m == wasm_consumers@.len(),
            policy_views(of_consumers@) =~= wasm_policies(wasm_consumers@).take(k as int),
        decreases m - k,
    {
        let ghost before = of_consumers@;
        of_consumers.push(&wasm_consumers[k].policy);
        assert(policy_views(of_consumers@) =~= policy_views(before).push(
            wasm_policies(wasm_consumers@)[k as int],
        ));
        k = k + 1;
    }
    assert(policy_views(of_consumers@) =~= wasm_policies(wasm_consumers@));
    let referenced: IndexSet<String> = referenced_clients(
        ingress_channels,
        of_apps.as_slice(),
        of_consumers.as_slice(),
    );
    let mut sessions: Vec<String> = Vec::new();
    if !declares_clients {
        return Ok(sessions);
    }
    let ghost declared = clients::client_map(*resolved_clients);
    let total: usize = name_count(&referenced);
    let mut j: usize = 0;
    while j < total
        invariant
            j <= total,
            total == names.len(),
            names == client_names(referenced),
            names == first_mentions(
                mentions(
                    ingress_channels@,
                    app_policies(apps::app_list(*apps)),
                    wasm_policies(wasm_consumers@),
                ),
            ),
            declares_clients,
            declared == clients::client_map(*resolved_clients),
            policy::texts(sessions@) =~= names.take(j as int),
            model::first_fault(session_faults(names, declared), j as nat) is None,
        decreases total - j,
    {
        let name: &String = name_at(&referenced, j);
        if find_client(resolved_clients, name.as_str()).is_none() {
            proof {
                model::fault_stands(
                    session_faults(names, declared),
                    (j + 1) as nat,
                    total as nat,
                );
            }
            return Err(UnresolvedClient { client: name.clone() });
        }
        let ghost before = sessions@;
        sessions.push(name.clone());
        assert(policy::texts(sessions@) =~= policy::texts(before).push(names[j as int]));
        j = j + 1;
    }
    assert(names.take(total as int) =~= names);
    Ok(sessions)
}

/// Where a delivery goes: the client and the filter it has to match, and the channel.
#[derive(Debug, PartialEq, Eq)]
pub struct IngressRoute {
    pub client_slug: String,
    pub topic_filter: String,
    pub channel_address: String,
    pub channel_uuid: u128,
    pub urgency: Urgency,
}

/// The route of an ingress channel.
pub open spec fn is_route_of(route: IngressRoute, channel: ResolvedMqttIngressChannel) -> bool {
    &&& route.client_slug == channel.client_slug
    &&& route.topic_filter == channel.topic
    &&& route.channel_address == channel.channel_address
    &&& route.channel_uuid == channel.channel_uuid
    &&& route.urgency == channel.urgency
}

/// One route for each ingress channel, in order.
pub fn ingress_routes(ingress_channels: &[ResolvedMqttIngressChannel]) -> (routes: Vec<
    IngressRoute,
>)
    ensures
        routes@.len() == ingress_channels@.len(),
        forall|i: int|
            0 <= i < routes@.len() ==> is_route_of(#[trigger] routes@[i], ingress_channels@[i]),
{
    let n: usize = ingress_channels.len();
    let mut routes: Vec<IngressRoute> = Vec::new();
    let mut i: usize = 0;
    while i < n
        invariant
            i <= n,
            n == ingress_channels@.len(),
            routes@.len() == i,
            forall|k: int|
                0 <= k < i ==> is_route_of(#[trigger] routes@[k], ingress_channels@[k]),
        decreases n - i,
    {
        let channel: &ResolvedMqttIngressChannel = &ingress_channels[i];
        routes.push(
            IngressRoute {
                client_slug: channel.client_slug.clone(),
                topic_filter: channel.topic.clone(),
                channel_address: channel.channel_address.clone(),
                channel_uuid: channel.channel_uuid,
                urgency: channel.urgency,
            },
        );
        i = i + 1;
    }
    routes
}

/// A subscription made at run time that outlived a restart and has no declared ingress channel.
#[derive(Debug, PartialEq, Eq)]
pub struct DynamicMqttIngress {
    pub channel_address: String,
    pub channel_uuid: u128,
    pub client_slug: String,
    pub topic: String,
    pub qos: u8,
}

/// The ingress channel that a surviving subscription becomes.
pub open spec fn reactivated(ingress: DynamicMqttIngress, client: MqttClient) -> IngressView {
    IngressView {
        channel_address: ingress.channel_address@,
        channel_uuid: ingress.channel_uuid,
        client_slug: ingress.client_slug@,
        topic: ingress.topic@,
        qos: ingress.qos,
        urgency: client.urgency,
    }
}

/// The ingress channels that the first `n` surviving subscriptions become: those whose client is
/// still declared.
pub open spec fn reactivations(
    surviving: Seq<DynamicMqttIngress>,
    declared: Map<Seq<char>, MqttClient>,
    n: nat,
) -> Seq<IngressView>
    decreases n,
{
    if n == 0 {
        Seq::empty()
    } else {
        let before = reactivations(surviving, declared, (n - 1) as nat);
        let client = surviving[n - 1].client_slug@;
        if declared.contains_key(client) {
            before.push(reactivated(surviving[n - 1], declared[client]))
        } else {
            before
        }
    }
}

/// The places of those among the first `n` surviving subscriptions whose client is gone.
pub open spec fn abandoned(
    surviving: Seq<DynamicMqttIngress>,
    declared: Map<Seq<char>, MqttClient>,
    n: nat,
) -> Seq<int>
    decreases n,
{
    if n == 0 {
        Seq::empty()
    } else {
        let before = abandoned(surviving, declared, (n - 1) as nat);
        if declared.contains_key(surviving[n - 1].client_slug@) {
            before
        } else {
            before.push(n - 1)
        }
    }
}

/// What a list of places says.
pub open spec fn places(list: Seq<usize>) -> Seq<int> {
    Seq::new(list.len(), |i: int| list[i] as int)
}

/// Give every surviving subscription whose client is still declared an ingress channel, behind
/// those there are and with the client's urgency. The places of the others come back.
pub fn reactivate_dynamic_ingress(
    ingress_channels: &mut Vec<ResolvedMqttIngressChannel>,
    surviving: &[DynamicMqttIngress],
    resolved_clients: &IndexMap<String, MqttClient>,
) -> (dropped: Vec<usize>)
    ensures
        ingress_views(final(ingress_channels)@) == ingress_views(old(ingress_channels)@)
            + reactivations(
            surviving@,
            clients::client_map(*resolved_clients),
            surviving@.len(),
        ),
        places(dropped@) == abandoned(
            surviving@,
            clients::client_map(*resolved_clients),
            surviving@.len(),
        ),
{
    let ghost declared = clients::client_map(*resolved_clients);
    let ghost start = ingress_views(ingress_channels@);
    let mut dropped: Vec<usize> = Vec::new();
    let n: usize = surviving.len();
    let mut i: usize = 0;
    assert(start =~= start + reactivations(surviving@, declared, 0));
    assert(places(dropped@) =~= abandoned(surviving@, declared, 0));
    while i < n
        invariant
            i <= n,
            n == surviving@.len(),
            declared == clients::client_map(*resolved_clients),
            ingress_views(ingress_channels@) == start + reactivations(
                surviving@,
                declared,
                i as nat,
            ),
            places(dropped@) == abandoned(surviving@, declared, i as nat),
        decreases n - i,
    {
        let one: &DynamicMqttIngress = &surviving[i];
        match find_client(resolved_clients, one.client_slug.as_str()) {
            Some(client) => {
                let ghost before = ingress_channels@;
                ingress_channels.push(
                    ResolvedMqttIngressChannel {
                        channel_address: one.channel_address.clone(),
                        channel_uuid: one.channel_uuid,
                        client_slug: one.client_slug.clone(),
                        topic: one.topic.clone(),
                        qos: one.qos,
                        urgency: client.urgency,
                    },
                );
                assert(ingress_views(ingress_channels@) =~= ingress_views(before).push(
                    reactivated(*one, client),
                ));
            },
            None => {
                let ghost before = dropped@;
                dropped.push(i);
                assert(places(dropped@) =~= places(before).push(i as int));
            },
        }
        assert(ingress_views(ingress_channels@) =~= start + reactivations(
            surviving@,
            declared,
            (i + 1) as nat,
        ));
        i = i + 1;
    }
    dropped
}

/// Every surviving subscription is either reactivated or reported, and none is both.
pub proof fn no_survivor_is_lost(
    surviving: Seq<DynamicMqttIngress>,
    declared: Map<Seq<char>, MqttClient>,
    n: nat,
)
    requires
        n <= surviving.len(),
    ensures
        reactivations(surviving, declared, n).len() + abandoned(surviving, declared, n).len() == n,
        forall|k: int|
            0 <= k < n ==> (abandoned(surviving, declared, n).contains(k)
                <==> !declared.contains_key((#[trigger] surviving[k]).client_slug@)),
    decreases n,
{
    if n > 0 {
        let m = (n - 1) as nat;
        no_survivor_is_lost(surviving, declared, m);
        let before = abandoned(surviving, declared, m);
        let after = abandoned(surviving, declared, n);
        abandoned_places_are_below(surviving, declared, m);
        assert forall|k: int| 0 <= k < n implies (after.contains(k) <==> !declared.contains_key(
            (#[trigger] surviving[k]).client_slug@,
        )) by {
            if before.contains(k) {
                let x = choose|x: int| 0 <= x < before.len() && before[x] == k;
                assert(after[x] == k);
            }
            if k == n - 1 && !declared.contains_key(surviving[k].client_slug@) {
                assert(after[before.len() as int] == k);
            }
            if after.contains(k) {
                let x = choose|x: int| 0 <= x < after.len() && after[x] == k;
                if x < before.len() {
                    assert(before[x] == k);
                    assert(before.contains(k));
                }
            }
        }
    }
}

proof fn abandoned_places_are_below(
    surviving: Seq<DynamicMqttIngress>,
    declared: Map<Seq<char>, MqttClient>,
    n: nat,
)
    ensures
        forall|x: int|
            0 <= x < abandoned(surviving, declared, n).len() ==> (#[trigger] abandoned(
                surviving,
                declared,
                n,
            )[x]) < n,
    decreases n,
{
    if n > 0 {
        let m = (n - 1) as nat;
        abandoned_places_are_below(surviving, declared, m);
        assert forall|x: int| 0 <= x < abandoned(surviving, declared, n).len() implies (
        #[trigger] abandoned(surviving, declared, n)[x]) < n by {
            if x < abandoned(surviving, declared, m).len() {
                assert(abandoned(surviving, declared, m)[x] < m);
            }
        }
    }
}

/// An ingress channel's route has the client and the filter to match, and the address, the uuid
/// and the urgency of the channel.
pub proof fn a_route_is_its_ingress_channels(
    route: IngressRoute,
    channel: ResolvedMqttIngressChannel,
)
    requires
        is_route_of(route, channel),
    ensures
        route.client_slug@ == channel.client_slug@,
        route.topic_filter@ == channel.topic@,
        route.channel_address@ == channel.channel_address@,
        route.channel_uuid == channel.channel_uuid,
        route.urgency == channel.urgency,
{
}

/// A surviving subscription comes back exactly where its client is still declared: as an ingress
/// channel with its own address, uuid, client, topic and quality of service, and the urgency of
/// its client.
pub proof fn survivors_of_declared_clients_come_back(
    surviving: Seq<DynamicMqttIngress>,
    declared: Map<Seq<char>, MqttClient>,
    n: nat,
    item: IngressView,
)
    requires
        n <= surviving.len(),
    ensures
        reactivations(surviving, declared, n).contains(item) <==> exists|k: int|
            {
                &&& 0 <= k < n
                &&& declared.contains_key((#[trigger] surviving[k]).client_slug@)
                &&& item.channel_address == surviving[k].channel_address@
                &&& item.channel_uuid == surviving[k].channel_uuid
                &&& item.client_slug == surviving[k].client_slug@
                &&& item.topic == surviving[k].topic@
                &&& item.qos == surviving[k].qos
                &&& item.urgency == declared[surviving[k].client_slug@].urgency
            },
    decreases n,
{
    if n > 0 {
        let m = (n - 1) as nat;
        survivors_of_declared_clients_come_back(surviving, declared, m, item);
        let before = reactivations(surviving, declared, m);
        let after = reactivations(surviving, declared, n);
        let last = surviving[n - 1];
        let client = last.client_slug@;
        if before.contains(item) {
            let k = choose|k: int| 0 <= k < before.len() && before[k] == item;
            assert(after[k] == item);
        }
        if declared.contains_key(client) && item == reactivated(last, declared[client]) {
            assert(after[before.len() as int] == item);
        }
        if after.contains(item) {
            let k = choose|k: int| 0 <= k < after.len() && after[k] == item;
            if k < before.len() {
                assert(before[k] == item);
            } else {
                assert(declared.contains_key(surviving[n - 1].client_slug@));
            }
        }
    }
}

proof fn app_mentions_are_in_a_policy(policies: Seq<PolicyView>, n: nat, client: Seq<char>)
    requires
        n <= policies.len(),
        app_mentions(policies, n).contains(client),
    ensures
        exists|i: int|
            0 <= i < n && ((#[trigger] policies[i]).mqtt_publish.contains(client)
                || filter_clients(policies[i].mqtt_subscribe).contains(client)),
    decreases n,
{
    if n > 0 {
        let before = app_mentions(policies, (n - 1) as nat);
        let publish = policies[n - 1].mqtt_publish;
        let filters = filter_clients(policies[n - 1].mqtt_subscribe);
        let all = app_mentions(policies, n);
        let k = choose|k: int| 0 <= k < all.len() && all[k] == client;
        if k < before.len() {
            assert(before[k] == client);
            app_mentions_are_in_a_policy(policies, (n - 1) as nat, client);
        } else if k < before.len() + publish.len() {
            assert(publish[k - before.len()] == client);
        } else {
            assert(filters[k - before.len() - publish.len()] == client);
        }
    }
}

proof fn consumer_mentions_are_in_a_policy(policies: Seq<PolicyView>, n: nat, client: Seq<char>)
    requires
        n <= policies.len(),
        consumer_mentions(policies, n).contains(client),
    ensures
        exists|i: int| 0 <= i < n && (#[trigger] policies[i]).mqtt_publish.contains(client),
    decreases n,
{
    if n > 0 {
        let before = consumer_mentions(policies, (n - 1) as nat);
        let publish = policies[n - 1].mqtt_publish;
        let all = consumer_mentions(policies, n);
        let k = choose|k: int| 0 <= k < all.len() && all[k] == client;
        if k < before.len() {
            assert(before[k] == client);
            consumer_mentions_are_in_a_policy(policies, (n - 1) as nat, client);
        } else {
            assert(publish[k - before.len()] == client);
        }
    }
}

/// No client gets a session for nothing: one that has one is the client of an ingress channel, or
/// some app may publish through it or subscribe on it, or some consumer may publish through it.
pub proof fn every_session_has_its_reason(
    ingress: Seq<ResolvedMqttIngressChannel>,
    app_policies: Seq<PolicyView>,
    wasm_policies: Seq<PolicyView>,
    client: Seq<char>,
)
    requires
        first_mentions(mentions(ingress, app_policies, wasm_policies)).contains(client),
    ensures
        (exists|i: int| 0 <= i < ingress.len() && (#[trigger] ingress[i]).client_slug@ == client)
            || (exists|i: int|
            0 <= i < app_policies.len() && ((#[trigger] app_policies[i]).mqtt_publish.contains(
                client,
            ) || filter_clients(app_policies[i].mqtt_subscribe).contains(client))) || (exists|
            i: int,
        |
            0 <= i < wasm_policies.len() && (#[trigger] wasm_policies[i]).mqtt_publish.contains(
                client,
            )),
{
    let a = ingress_clients(ingress);
    let b = app_mentions(app_policies, app_policies.len());
    let c = consumer_mentions(wasm_policies, wasm_policies.len());
    let all = mentions(ingress, app_policies, wasm_policies);
    sessions_are_the_mentioned_clients(all, client);
    let k = choose|k: int| 0 <= k < all.len() && all[k] == client;
    if k < a.len() {
        assert(a[k] == client);
        assert(ingress[k].client_slug@ == client);
    } else if k < a.len() + b.len() {
        assert(b[k - a.len()] == client);
        app_mentions_are_in_a_policy(app_policies, app_policies.len(), client);
    } else {
        assert(c[k - a.len() - b.len()] == client);
        consumer_mentions_are_in_a_policy(wasm_policies, wasm_policies.len(), client);
    }
}

/// A session is started in the order in which its client is first mentioned: the sessions for
/// more mentions begin with the sessions for fewer.
pub proof fn sessions_keep_the_order_of_mention(mentions: Seq<Seq<char>>, client: Seq<char>)
    ensures
        first_mentions(mentions.push(client)) == (if mentions.contains(client) {
            first_mentions(mentions)
        } else {
            first_mentions(mentions).push(client)
        }),
{
    let more = mentions.push(client);
    assert(more.drop_last() =~= mentions);
    sessions_are_the_mentioned_clients(mentions, client);
}

/// The clients that a list of topic filters is on are those of its entries.
pub proof fn filters_are_on_their_clients(list: Seq<(Seq<char>, Seq<char>)>, client: Seq<char>)
    ensures
        filter_clients(list).contains(client) <==> exists|i: int|
            0 <= i < list.len() && (#[trigger] list[i]).0 == client,
{
    let clients = filter_clients(list);
    if clients.contains(client) {
        let i = choose|i: int| 0 <= i < clients.len() && clients[i] == client;
        assert(list[i].0 == client);
    }
    assert forall|i: int| 0 <= i < list.len() && (#[trigger] list[i]).0
        == client implies clients.contains(client) by {
        assert(clients[i] == client);
    }
}

/// What a list of ingress channels says is each channel's own address, uuid, client, topic,
/// quality of service and urgency, in order.
pub proof fn ingress_channels_say_what_they_have(list: Seq<ResolvedMqttIngressChannel>, i: int)
    requires
        0 <= i < list.len(),
    ensures
        ingress_views(list).len() == list.len(),
        ({
            let said = ingress_views(list)[i];
            &&& said.channel_address == list[i].channel_address@
            &&& said.channel_uuid == list[i].channel_uuid
            &&& said.client_slug == list[i].client_slug@
            &&& said.topic == list[i].topic@
            &&& said.qos == list[i].qos
            &&& said.urgency == list[i].urgency
        }),
{
}

/// Sessions can be started exactly where every mentioned client is declared.
pub proof fn sessions_take_declared_clients(
    names: Seq<Seq<char>>,
    declared: Map<Seq<char>, MqttClient>,
)
    ensures
        model::first_fault(session_faults(names, declared), names.len()) is None <==> forall|i: int|
            0 <= i < names.len() ==> declared.contains_key(#[trigger] names[i]),
{
    let faults = session_faults(names, declared);
    model::first_fault_is_first(faults, names.len());
    assert forall|i: int| 0 <= i < names.len() implies faults(i) is None == declared.contains_key(
        #[trigger] names[i],
    ) by {}
}

/// The policies that sessions are planned from are everyone's own, in order.
pub proof fn everyones_policy_is_asked(
    apps: Seq<(Seq<char>, apps::AppView)>,
    consumers: Seq<ResolvedWasmConsumer>,
    i: int,
    k: int,
)
    ensures
        app_policies(apps).len() == apps.len(),
        0 <= i < apps.len() ==> app_policies(apps)[i] == apps[i].1.policy,
        wasm_policies(consumers).len() == consumers.len(),
        0 <= k < consumers.len() ==> wasm_policies(consumers)[k] == consumers[k].policy@,
{
}

/// Reactivated channels come in the order of the survivors: one more survivor adds its own,
/// behind the others, or its place to the dropped ones.
pub proof fn reactivations_follow_the_survivors(
    surviving: Seq<DynamicMqttIngress>,
    declared: Map<Seq<char>, MqttClient>,
    n: nat,
)
    requires
        n < surviving.len(),
    ensures
        reactivations(surviving, declared, n).is_prefix_of(
            reactivations(surviving, declared, n + 1),
        ),
        abandoned(surviving, declared, n).is_prefix_of(abandoned(surviving, declared, n + 1)),
        declared.contains_key(surviving[n as int].client_slug@) ==> reactivations(
            surviving,
            declared,
            n + 1,
        ).len() == reactivations(surviving, declared, n).len() + 1,
        !declared.contains_key(surviving[n as int].client_slug@) ==> abandoned(
            surviving,
            declared,
            n + 1,
        ).len() == abandoned(surviving, declared, n).len() + 1,
{
}

/// Clients are mentioned by the ingress channels first, then by the apps, then by the consumers.
pub proof fn ingress_channels_mention_first(
    ingress: Seq<ResolvedMqttIngressChannel>,
    app_policies: Seq<PolicyView>,
    wasm_policies: Seq<PolicyView>,
    i: int,
)
    requires
        0 <= i < ingress.len(),
    ensures
        mentions(ingress, app_policies, wasm_policies)[i] == ingress[i].client_slug@,
        mentions(ingress, app_policies, wasm_policies).len() >= ingress.len() + app_mentions(
            app_policies,
            app_policies.len(),
        ).len(),
        app_mentions(app_policies, app_policies.len()).is_prefix_of(
            mentions(ingress, app_policies, wasm_policies).skip(ingress.len() as int),
        ),
{
    let a = ingress_clients(ingress);
    let b = app_mentions(app_policies, app_policies.len());
    let all = mentions(ingress, app_policies, wasm_policies);
    assert(all[i] == a[i]);
    assert(all.skip(a.len() as int).subrange(0, b.len() as int) =~= b);
}

} // verus!
