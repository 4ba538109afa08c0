//! The decisions of the boot sequence itself.

use indexmap::IndexMap;
use vstd::prelude::*;
use vstd::string::*;

use crate::address;
use crate::address::{ChannelScheme, BRENN_ADDRESS_PREFIX};
use crate::apps;
use crate::apps::{app_at, app_count, AppConfig};
use crate::channels;
use crate::channels::{MessagingConfig, WebhookEndpoint};
use crate::model;
use crate::model::AlertSeverity;
use crate::mqtt::ResolvedMqttIngressChannel;
use crate::policy;
use crate::policy::{AppPolicy, PolicyView};
use crate::text::strip_prefix;
use crate::wasm_model::{ResolvedWasmConsumer, WasmGrant};

verus! {

/// The most bytes a build id may have: it has to fit a close frame's reason.
pub const MAX_BUILD_ID_BYTES: usize = 64;

/// Why a build id is refused.
#[derive(Clone, Copy, Debug, PartialEq, Eq, Structural)]
pub enum BuildIdFault {
    Empty,
    TooLong,
}

/// Refuse a build id that is empty or too long.
pub fn assert_build_id_valid(build_id: &str) -> (outcome: Result<(), BuildIdFault>)
    ensures
        build_id.spec_bytes().len() == 0 <==> outcome == Err::<(), BuildIdFault>(
            BuildIdFault::Empty,
        ),
        build_id.spec_bytes().len() > MAX_BUILD_ID_BYTES <==> outcome == Err::<(), BuildIdFault>(
            BuildIdFault::TooLong,
        ),
{
    let n: usize = build_id.as_bytes().len();
    if n == 0 {
        return Err(BuildIdFault::Empty);
    }
    if n > MAX_BUILD_ID_BYTES {
        return Err(BuildIdFault::TooLong);
    }
    Ok(())
}

/// Whose store a path is: that of a replay-protected endpoint or that of a consumer, by place.
#[derive(Clone, Copy, Debug, PartialEq, Eq, Structural)]
pub enum StoreOwner {
    Replay(usize),
    Consumer(usize),
}

impl StoreOwner {
    /// The owner's place where the consumers come behind `replays` endpoints.
    pub open spec fn place(self, replays: nat) -> int {
        match self {
            StoreOwner::Replay(i) => i as int,
            StoreOwner::Consumer(j) => replays + j,
        }
    }
}

/// Two owners of one path.
#[derive(Clone, Copy, Debug, PartialEq, Eq, Structural)]
pub struct StoreClash {
    pub earlier: StoreOwner,
    pub later: StoreOwner,
}

/// What a path names: whether it starts at the root, and the parts it goes through.
#[verifier::ext_equal]
pub struct PathView {
    pub rooted: bool,
    pub parts: Seq<Seq<char>>,
}

/// The texts between the separators of a path, one more than there are separators.
pub open spec fn between_separators(path: Seq<char>) -> Seq<Seq<char>>
    decreases path.len(),
{
    if path.len() == 0 {
        seq![Seq::empty()]
    } else {
        let before = between_separators(path.drop_last());
        if path.last() == '/' {
            before.push(Seq::empty())
        } else {
            before.drop_last().push(before.last().push(path.last()))
        }
    }
}

/// Whether the text at a place among those between the separators is a part of the path: an empty
/// text is none, and `.` is one only at the front.
pub open spec fn is_part(text: Seq<char>, place: int) -> bool {
    text.len() > 0 && (place == 0 || text != seq!['.'])
}

/// The parts of a path among the first `n` texts between its separators.
pub open spec fn parts_among(texts: Seq<Seq<char>>, n: nat) -> Seq<Seq<char>>
    decreases n,
{
    if n == 0 {
        Seq::empty()
    } else {
        let before = parts_among(texts, (n - 1) as nat);
        if is_part(texts[n - 1], n - 1) {
            before.push(texts[n - 1])
        } else {
            before
        }
    }
}

/// What a path names, as Unix paths are compared: repeated and trailing separators do not count,
/// nor does `.` behind the front.
pub open spec fn path_view(path: Seq<char>) -> PathView {
    PathView {
        rooted: path.len() > 0 && path[0] == '/',
        parts: parts_among(between_separators(path), between_separators(path).len()),
    }
}

/// Every store path: those of the endpoints, then those of the consumers.
pub open spec fn store_paths(replay: Seq<String>, consumers: Seq<(String, String)>) -> Seq<
    PathView,
> {
    Seq::new(replay.len(), |i: int| path_view(replay[i]@)) + Seq::new(
        consumers.len(),
        |j: int| path_view(consumers[j].0@),
    )
}

/// The check of one path: no earlier owner has it.
pub open spec fn path_faults(paths: Seq<PathView>) -> spec_fn(int) -> Option<()> {
    |i: int| model::unless(!exists|k: int| 0 <= k < i && #[trigger] paths[k] == paths[i], ())
}

struct PathParts {
    rooted: bool,
    parts: Vec<Vec<char>>,
}

spec fn char_lists(list: Seq<Vec<char>>) -> Seq<Seq<char>> {
    Seq::new(list.len(), |i: int| list[i]@)
}

impl View for PathParts {
    type V = PathView;

    closed spec fn view(&self) -> PathView {
        PathView { rooted: self.rooted, parts: char_lists(self.parts@) }
    }
}

fn take_part(parts: &mut Vec<Vec<char>>, text: Vec<char>, front: bool, Ghost(place): Ghost<int>)
    requires
        0 <= place,
        front == (place == 0),
    ensures
        char_lists(final(parts)@) == (if is_part(text@, place) {
            char_lists(old(parts)@).push(text@)
        } else {
            char_lists(old(parts)@)
        }),
{
    let dot: bool = text.len() == 1 && text[0] == '.';
    assert(dot == (text@ =~= seq!['.']));
    if text.len() > 0 && (front || !dot) {
        let ghost before = char_lists(parts@);
        let ghost last = text@;
        parts.push(text);
        assert(char_lists(parts@) =~= before.push(last));
    }
}

proof fn parts_of_a_front(texts: Seq<Seq<char>>, longer: Seq<Seq<char>>, n: nat)
    requires
        n <= texts.len(),
        n <= longer.len(),
        texts.take(n as int) == longer.take(n as int),
    ensures
        parts_among(texts, n) == parts_among(longer, n),
    decreases n,
{
    if n > 0 {
        let m = (n - 1) as nat;
        assert(texts.take(m as int) =~= texts.take(n as int).take(m as int));
        assert(longer.take(m as int) =~= longer.take(n as int).take(m as int));
        parts_of_a_front(texts, longer, m);
        assert(texts[n - 1] == texts.take(n as int)[n - 1]);
        assert(longer[n - 1] == longer.take(n as int)[n - 1]);
    }
}

fn parts_of(path: &str) -> (parts: PathParts)
    ensures
        parts@ == path_view(path@),
{
    let n: usize = path.unicode_len();
    let rooted: bool = n > 0 && path.get_char(0) == '/';
    let mut parts: Vec<Vec<char>> = Vec::new();
    let mut current: Vec<char> = Vec::new();
    let mut front: bool = true;
    let mut i: usize = 0;
    assert(path@.take(0) =~= Seq::<char>::empty());
    assert(char_lists(parts@) =~= Seq::<Seq<char>>::empty());
    while i < n
        invariant
            i <= n,
            n == path@.len(),
            between_separators(path@.take(i as int)).len() > 0,
            current@ == between_separators(path@.take(i as int)).last(),
            front == (between_separators(path@.take(i as int)).len() == 1),
            char_lists(parts@) == parts_among(
                between_separators(path@.take(i as int)),
                (between_separators(path@.take(i as int)).len() - 1) as nat,
            ),
        decreases n - i,
    {
        let ghost before = between_separators(path@.take(i as int));
        let ghost after = between_separators(path@.take(i + 1));
        assert(path@.take(i + 1).drop_last() =~= path@.take(i as int));
        let c: char = path.get_char(i);
        let ghost m = (before.len() - 1) as nat;
        if c == '/' {
            take_part(&mut parts, current, front, Ghost(before.len() - 1));
            current = Vec::new();
            front = false;
            proof {
                assert(before.take(before.len() as int) =~= after.take(before.len() as int));
                parts_of_a_front(before, after, before.len());
                assert(after.last() =~= Seq::<char>::empty());
                assert(char_lists(parts@) == parts_among(before, before.len()));
            }
        } else {
            current.push(c);
            proof {
                assert(before.take(m as int) =~= after.take(m as int));
                parts_of_a_front(before, after, m);
            }
        }
        i = i + 1;
    }
    assert(path@.take(n as int) =~= path@);
    let ghost all = between_separators(path@);
    take_part(&mut parts, current, front, Ghost(all.len() - 1));
    PathParts { rooted, parts }
}

fn same_chars(a: &Vec<char>, b: &Vec<char>) -> (same: bool)
    ensures
        same == (a@ == b@),
{
    let n: usize = a.len();
    if n != b.len() {
        return false;
    }
    let mut i: usize = 0;
    while i < n
        invariant
            i <= n,
            n == a@.len(),
            n == b@.len(),
            forall|k: int| 0 <= k < i ==> #[trigger] a@[k] == b@[k],
        decreases n - i,
    {
        if a[i] != b[i] {
            assert(a@[i as int] != b@[i as int]);
            return false;
        }
        i = i + 1;
    }
    assert(a@ =~= b@);
    true
}

impl PathParts {
    fn names_the_same(&self, other: &PathParts) -> (same: bool)
        ensures
            same == (self@ == other@),
    {
        let n: usize = self.parts.len();
        assert(self@.parts.len() == n);
        assert(other@.parts.len() == other.parts@.len());
        if self.rooted != other.rooted || n != other.parts.len() {
            return false;
        }
        let mut i: usize = 0;
        while i < n
            invariant
                i <= n,
                n == self.parts@.len(),
                n == other.parts@.len(),
                self.rooted == other.rooted,
                forall|k: int| 0 <= k < i ==> #[trigger] self@.parts[k] == other@.parts[k],
            decreases n - i,
        {
            if !same_chars(&self.parts[i], &other.parts[i]) {
                assert(self@.parts[i as int] != other@.parts[i as int]);
                return false;
            }
            assert(self@.parts[i as int] == other@.parts[i as int]);
            i = i + 1;
        }
        assert(self@ =~= other@);
        true
    }
}

/// Refuse the first store path that has two owners.
pub fn assert_unique_store_paths(
    replay_paths: &[String],
    consumer_paths: &[(String, String)],
) -> (outcome: Result<(), StoreClash>)
    ensures
        match model::first_fault(
            path_faults(store_paths(replay_paths@, consumer_paths@)),
            store_paths(replay_paths@, consumer_paths@).len(),
        ) {
            None => outcome is Ok,
            Some(fault) => {
                let paths = store_paths(replay_paths@, consumer_paths@);
                &&& outcome matches Err(clash)
                &&& clash.later.place(replay_paths@.len()) == fault.0
                &&& 0 <= clash.earlier.place(replay_paths@.len()) < fault.0
                &&& paths[clash.earlier.place(replay_paths@.len())] == paths[fault.0 as int]
            },
        },
{
    let ghost paths = store_paths(replay_paths@, consumer_paths@);
    let ghost faults = path_faults(paths);
    let n: usize = replay_paths.len();
    let mut all: Vec<PathParts> = Vec::new();
    let mut i: usize = 0;
    while i < n
        invariant
            i <= n,
            n == replay_paths@.len(),
            all@.len() == i,
            forall|k: int|
                0 <= k < i ==> (#[trigger] all@[k])@ == path_view(replay_paths@[k]@),
        decreases n - i,
    {
        all.push(parts_of(replay_paths[i].as_str()));
        i = i + 1;
    }
    let m: usize = consumer_paths.len();
    let mut j: usize = 0;
    assert forall|k: int| 0 <= k < n implies (#[trigger] all@[k])@ == paths[k] by {}
    while j < m
        invariant
            j <= m,
            n == replay_paths@.len(),
            m == consumer_paths@.len(),
            paths == store_paths(replay_paths@, consumer_paths@),
            all@.len() == n + j,
            forall|k: int| 0 <= k < n + j ==> (#[trigger] all@[k])@ == paths[k],
        decreases m - j,
    {
        all.push(parts_of(consumer_paths[j].0.as_str()));
        j = j + 1;
    }
    let total: usize = all.len();
    let mut later: usize = 0;
    while later < total
        invariant
            later <= total,
            total == all@.len(),
            total == paths.len(),
            n <= total,
            n == replay_paths@.len(),
            paths == store_paths(replay_paths@, consumer_paths@),
            faults == path_faults(paths),
            forall|k: int| 0 <= k < total ==> (#[trigger] all@[k])@ == paths[k],
            model::first_fault(faults, later as nat) is None,
        decreases total - later,
    {
        match find_path(&all, later) {
            Some(earlier) => {
                assert(paths[earlier as int] == paths[later as int]);
                assert(faults(later as int) is Some);
                proof {
                    model::fault_stands(faults, (later + 1) as nat, paths.len());
                }
                return Err(
                    StoreClash { earlier: owner_at(earlier, n), later: owner_at(later, n) },
                );
            },
            None => {
                assert forall|k: int| 0 <= k < later implies #[trigger] paths[k]
                    != paths[later as int] by {
                    assert(all@[k]@ == paths[k]);
                }
                assert(faults(later as int) is None);
            },
        }
        later = later + 1;
    }
    Ok(())
}

fn owner_at(place: usize, replays: usize) -> (owner: StoreOwner)
    ensures
        owner.place(replays as nat) == place,
{
    if place < replays {
        StoreOwner::Replay(place)
    } else {
        StoreOwner::Consumer(place - replays)
    }
}

fn find_path(list: &Vec<PathParts>, n: usize) -> (found: Option<usize>)
    requires
        n < list@.len(),
    ensures
        match found {
            Some(k) => k < n && list@[k as int]@ == list@[n as int]@,
            None => forall|k: int| 0 <= k < n ==> (#[trigger] list@[k])@ != list@[n as int]@,
        },
{
    let mut k: usize = 0;
    while k < n
        invariant
            k <= n < list@.len(),
            forall|m: int| 0 <= m < k ==> (#[trigger] list@[m])@ != list@[n as int]@,
        decreases n - k,
    {
        if list[k].names_the_same(&list[n]) {
            return Some(k);
        }
        k = k + 1;
    }
    None
}

/// Paths pass the check exactly where no two owners share one.
pub proof fn accepted_paths_are_distinct(paths: Seq<PathView>)
    ensures
        model::first_fault(path_faults(paths), paths.len()) is None <==> paths.no_duplicates(),
{
    let faults = path_faults(paths);
    model::first_fault_is_first(faults, paths.len());
    if model::first_fault(faults, paths.len()) is None {
        assert forall|i: int, j: int|
            0 <= i < paths.len() && 0 <= j < paths.len() && i != j implies paths[i] != paths[j] by {
            assert(faults(i) is None);
            assert(faults(j) is None);
        }
    } else {
        let fault = model::first_fault(faults, paths.len())->0;
        let at = fault.0 as int;
        assert(faults(at) is Some);
        let k = choose|k: int| 0 <= k < at && #[trigger] paths[k] == paths[at];
        assert(paths[k] == paths[at]);
    }
}

/// The store paths among the first `n` consumers, each with the consumer's slug.
pub open spec fn store_paths_of(consumers: Seq<ResolvedWasmConsumer>, n: nat) -> Seq<
    (Seq<char>, Seq<char>),
>
    decreases n,
{
    if n == 0 {
        Seq::empty()
    } else {
        let before = store_paths_of(consumers, (n - 1) as nat);
        match consumers[n - 1].store_path {
            Some(path) => before.push((path@, consumers[n - 1].slug@)),
            None => before,
        }
    }
}

/// What a list of store paths says.
pub open spec fn store_path_views(list: Seq<(String, String)>) -> Seq<(Seq<char>, Seq<char>)> {
    Seq::new(list.len(), |i: int| (list[i].0@, list[i].1@))
}

/// The store paths of the consumers that have a store, each with the consumer's slug.
pub fn consumer_store_paths(consumers: &[ResolvedWasmConsumer]) -> (paths: Vec<(String, String)>)
    ensures
        store_path_views(paths@) == store_paths_of(consumers@, consumers@.len()),
{
    let mut paths: Vec<(String, String)> = Vec::new();
    let n: usize = consumers.len();
    let mut i: usize = 0;
    assert(store_path_views(paths@) =~= store_paths_of(consumers@, 0));
    while i < n
        invariant
            i <= n,
            n == consumers@.len(),
            store_path_views(paths@) == store_paths_of(consumers@, i as nat),
        decreases n - i,
    {
        if let Some(path) = &consumers[i].store_path {
            let ghost before = paths@;
            paths.push((path.clone(), consumers[i].slug.clone()));
            assert(store_path_views(paths@) =~= store_path_views(before).push(
                (path@, consumers@[i as int].slug@),
            ));
        }
        i = i + 1;
    }
    paths
}

/// Whether a runtime directory is needed: some app runs outside a container.
pub fn needs_runtime_dir(containerized: &[bool]) -> (needed: bool)
    ensures
        needed == exists|i: int| 0 <= i < containerized@.len() && !#[trigger] containerized@[i],
{
    let n: usize = containerized.len();
    let mut i: usize = 0;
    while i < n
        invariant
            i <= n,
            n == containerized@.len(),
            forall|k: int| 0 <= k < i ==> #[trigger] containerized@[k],
        decreases n - i,
    {
        if !containerized[i] {
            assert(!containerized@[i as int]);
            return true;
        }
        i = i + 1;
    }
    false
}

/// Whether stale containers are to be cleaned up: some app runs in a container.
pub fn needs_container_cleanup(containerized: &[bool]) -> (needed: bool)
    ensures
        needed == exists|i: int| 0 <= i < containerized@.len() && #[trigger] containerized@[i],
{
    let n: usize = containerized.len();
    let mut i: usize = 0;
    while i < n
        invariant
            i <= n,
            n == containerized@.len(),
            forall|k: int| 0 <= k < i ==> !#[trigger] containerized@[k],
        decreases n - i,
    {
        if containerized[i] {
            assert(containerized@[i as int]);
            return true;
        }
        i = i + 1;
    }
    false
}

/// Whether someone needs the server's own origin: messaging itself, an app that takes part in it,
/// or push notifications.
pub open spec fn origin_needed(
    configured: bool,
    apps: Seq<(Seq<char>, apps::AppView)>,
    pwa_push: bool,
) -> bool {
    ||| configured
    ||| exists|i: int| 0 <= i < apps.len() && (#[trigger] apps[i]).1.messaging_enabled
    ||| pwa_push
}

/// Whether someone needs the server's own origin.
pub fn needs_server_origin(
    configured: bool,
    apps: &IndexMap<String, AppConfig>,
    pwa_push: bool,
) -> (needed: bool)
    ensures
        needed == origin_needed(configured, apps::app_list(*apps), pwa_push),
{
    if configured || pwa_push {
        return true;
    }
    let ghost list = apps::app_list(*apps);
    let n: usize = app_count(apps);
    let mut i: usize = 0;
    while i < n
        invariant
            i <= n,
            list == apps::app_list(*apps),
            n == list.len(),
            !configured,
            !pwa_push,
            forall|k: int| 0 <= k < i ==> !(#[trigger] list[k]).1.messaging_enabled,
        decreases n - i,
    {
        let (_slug, app) = app_at(apps, i);
        if app.messaging_enabled {
            assert(list[i as int].1.messaging_enabled);
            return true;
        }
        i = i + 1;
    }
    false
}

/// Wherever messaging is on the origin is resolved, and a declared webhook endpoint, surface,
/// consumer or ephemeral channel is enough to turn messaging on: none of them is ever left
/// without a bus.
pub proof fn every_user_of_the_bus_turns_it_on(
    config: MessagingConfig,
    endpoints: Seq<WebhookEndpoint>,
    ingress: Seq<ResolvedMqttIngressChannel>,
    apps: Seq<(Seq<char>, apps::AppView)>,
    pwa_push: bool,
)
    ensures
        channels::is_configured(config, endpoints, ingress) ==> origin_needed(
            channels::is_configured(config, endpoints, ingress),
            apps,
            pwa_push,
        ),
        endpoints.len() > 0 ==> channels::is_configured(config, endpoints, ingress),
        ingress.len() > 0 ==> channels::is_configured(config, endpoints, ingress),
        config.participants.surfaces@.len() > 0 ==> channels::is_configured(
            config,
            endpoints,
            ingress,
        ),
        config.participants.wasm_consumers@.len() > 0 ==> channels::is_configured(
            config,
            endpoints,
            ingress,
        ),
        config.ephemeral_channels@.len() > 0 ==> channels::is_configured(
            config,
            endpoints,
            ingress,
        ),
{
}

/// The origin that tool callers are identified with: the server's own where it is resolved, the
/// address it listens on otherwise.
pub fn tool_server_origin(messaging_origin: &Option<String>, bind_address: &str) -> (origin: String)
    ensures
        origin@ == (match *messaging_origin {
            Some(own) => own@,
            None => bind_address@,
        }),
{
    match messaging_origin {
        Some(own) => own.clone(),
        None => bind_address.to_owned(),
    }
}

/// A host interface that is linked into a component.
#[derive(Clone, Copy, Debug, PartialEq, Eq, PartialOrd, Ord, Structural)]
pub enum Capability {
    Ports,
    Store,
    Log,
    Alert,
    Config,
    Mqtt,
    Tools,
}

/// The one-item list of `capability` where it is linked, the empty list otherwise.
pub open spec fn if_linked(linked: bool, capability: Capability) -> Seq<Capability> {
    if linked {
        seq![capability]
    } else {
        Seq::empty()
    }
}

/// The interfaces linked into a consumer, in their own order: those its grants name, and the tool
/// interface where it may call a tool.
pub open spec fn linked_capabilities(grants: Seq<WasmGrant>, policy: PolicyView) -> Seq<Capability> {
    if_linked(grants.contains(WasmGrant::Ports), Capability::Ports) + if_linked(
        grants.contains(WasmGrant::Store),
        Capability::Store,
    ) + if_linked(grants.contains(WasmGrant::Log), Capability::Log) + if_linked(
        grants.contains(WasmGrant::Alert),
        Capability::Alert,
    ) + if_linked(grants.contains(WasmGrant::Config), Capability::Config) + if_linked(
        grants.contains(WasmGrant::Mqtt),
        Capability::Mqtt,
    ) + if_linked(policy.tool_grants.len() > 0, Capability::Tools)
}

fn holds(grants: &Vec<WasmGrant>, grant: WasmGrant) -> (held: bool)
    ensures
        held == grants@.contains(grant),
{
    let n: usize = grants.len();
    let mut i: usize = 0;
    while i < n
        invariant
            i <= n,
            n == grants@.len(),
            forall|k: int| 0 <= k < i ==> #[trigger] grants@[k] != grant,
        decreases n - i,
    {
        if grants[i] == grant {
            assert(grants@[i as int] == grant);
            return true;
        }
        i = i + 1;
    }
    false
}

fn link_if(list: &mut Vec<Capability>, linked: bool, capability: Capability)
    ensures
        final(list)@ == old(list)@ + if_linked(linked, capability),
{
    let ghost before = list@;
    if linked {
        list.push(capability);
    }
    assert(list@ =~= before + if_linked(linked, capability));
}

/// The interfaces to link into a consumer.
pub fn host_capabilities(consumer: &ResolvedWasmConsumer) -> (linked: Vec<Capability>)
    ensures
        linked@ == linked_capabilities(consumer.grants@, consumer.policy@),
{
    let grants: &Vec<WasmGrant> = &consumer.grants;
    let mut linked: Vec<Capability> = Vec::new();
    link_if(&mut linked, holds(grants, WasmGrant::Ports), Capability::Ports);
    link_if(&mut linked, holds(grants, WasmGrant::Store), Capability::Store);
    link_if(&mut linked, holds(grants, WasmGrant::Log), Capability::Log);
    link_if(&mut linked, holds(grants, WasmGrant::Alert), Capability::Alert);
    link_if(&mut linked, holds(grants, WasmGrant::Config), Capability::Config);
    link_if(&mut linked, holds(grants, WasmGrant::Mqtt), Capability::Mqtt);
    assert(consumer.policy@.tool_grants.len() == consumer.policy.tool_grants@.len());
    link_if(&mut linked, consumer.policy.tool_grants.len() > 0, Capability::Tools);
    assert(linked@ =~= linked_capabilities(consumer.grants@, consumer.policy@));
    linked
}

/// Whether a consumer gets the MQTT publish call.
pub fn links_mqtt(consumer: &ResolvedWasmConsumer) -> (linked: bool)
    ensures
        linked == consumer.grants@.contains(WasmGrant::Mqtt),
{
    holds(&consumer.grants, WasmGrant::Mqtt)
}

/// Whether a consumer's policy lets it publish on the full address of one of its outputs. Only a
/// durable channel can be allowed.
pub open spec fn output_allowed(policy: PolicyView, address: Seq<char>) -> bool {
    &&& ChannelScheme::Brenn.names(address)
    &&& policy.publishes_brenn(ChannelScheme::Brenn.name_in(address))
}

/// Whether a consumer's policy lets it publish on the full address of one of its outputs.
pub fn allows_output(policy: &AppPolicy, address: &str) -> (allowed: bool)
    ensures
        allowed == output_allowed(policy@, address@),
{
    match strip_prefix(address, BRENN_ADDRESS_PREFIX) {
        Some(name) => policy.allows_brenn_publish(name.as_str()),
        None => false,
    }
}

/// A rough upper bound of the size of a resized image, in bytes: a quarter of the square of its
/// long edge, as far as a machine word goes.
pub open spec fn rough_image_bytes(long_edge: u32) -> int {
    (if long_edge * long_edge > usize::MAX {
        usize::MAX as int
    } else {
        long_edge * long_edge
    }) / 4
}

/// The size that resized images may reach, where uploads are limited to less: such uploads will
/// be turned away.
pub fn upload_limit_shortfall(upload_body_limit: usize, max_image_long_edge: u32) -> (shortfall:
    Option<usize>)
    ensures
        upload_body_limit < rough_image_bytes(max_image_long_edge) <==> shortfall is Some,
        shortfall matches Some(rough) ==> rough == rough_image_bytes(max_image_long_edge),
{
    let edge: usize = max_image_long_edge as usize;
    let square: usize = match edge.checked_mul(edge) {
        Some(square) => square,
        None => usize::MAX,
    };
    let rough: usize = square / 4;
    if upload_body_limit < rough {
        Some(rough)
    } else {
        None
    }
}

/// Whether an app's startup hooks call for fresh mounts at all.
pub fn has_startup_hooks(host_hooks: usize, container_hooks: usize) -> (any: bool)
    ensures
        any == (host_hooks > 0 || container_hooks > 0),
{
    host_hooks > 0 || container_hooks > 0
}

/// A message to the operator.
#[derive(Debug, PartialEq, Eq)]
pub struct OperatorAlert {
    pub severity: AlertSeverity,
    pub title: String,
    pub body: String,
}

/// The lines one under the other.
pub open spec fn joined_lines(lines: Seq<Seq<char>>) -> Seq<char>
    decreases lines.len(),
{
    if lines.len() == 0 {
        Seq::empty()
    } else if lines.len() == 1 {
        lines[0]
    } else {
        joined_lines(lines.drop_last()) + seq!['\n'] + lines.last()
    }
}

/// What becomes of an app's startup hooks once its mounts were pulled: they run where the pull
/// gave no warning; otherwise they are skipped and the operator is told why.
pub fn startup_hooks_skipped(slug: &str, pull_warnings: &[String]) -> (alert: Option<OperatorAlert>)
    ensures
        pull_warnings@.len() == 0 <==> alert is None,
        alert matches Some(a) ==> a.severity == AlertSeverity::Warning && a.title@ == "startup_hooks skipped for "@ + slug@
            + " due to pull failure"@ && a.body@ == joined_lines(policy::texts(pull_warnings@)),
{
    let n: usize = pull_warnings.len();
    if n == 0 {
        return None;
    }
    proof {
        reveal_strlit("\n");
    }
    let ghost all = policy::texts(pull_warnings@);
    let mut body: String = pull_warnings[0].clone();
    let mut i: usize = 1;
    assert(all.take(1) =~= seq![all[0]]);
    while i < n
        invariant
            1 <= i <= n,
            n == pull_warnings@.len(),
            all == policy::texts(pull_warnings@),
            "\n"@ == seq!['\n'],
            body@ == joined_lines(all.take(i as int)),
        decreases n - i,
    {
        body.append("\n");
        body.append(pull_warnings[i].as_str());
        assert(all.take(i + 1).drop_last() =~= all.take(i as int));
        i = i + 1;
    }
    assert(all.take(n as int) =~= all);
    let mut title: String = "startup_hooks skipped for ".to_owned();
    title.append(slug);
    title.append(" due to pull failure");
    Some(OperatorAlert { severity: AlertSeverity::Warning, title, body })
}

proof fn texts_before_a_separator(front: Seq<char>, name: Seq<char>)
    requires
        !name.contains('/'),
    ensures
        between_separators(front + seq!['/'] + name) == between_separators(front).push(name),
        between_separators(name) == seq![name],
    decreases name.len(),
{
    let whole = front + seq!['/'] + name;
    if name.len() == 0 {
        assert(whole.drop_last() =~= front);
        assert(name =~= Seq::empty());
    } else {
        let rest = name.drop_last();
        assert(name.contains(name[name.len() - 1]));
        if rest.contains('/') {
            let k = choose|k: int| 0 <= k < rest.len() && rest[k] == '/';
            assert(name[k] == '/');
        }
        texts_before_a_separator(front, rest);
        assert(whole.drop_last() =~= front + seq!['/'] + rest);
        assert(rest.push(name.last()) =~= name);
        let before = between_separators(front + seq!['/'] + rest);
        assert(before.drop_last() =~= between_separators(front));
        assert(between_separators(rest).drop_last() =~= Seq::empty());
        assert(between_separators(name) =~= seq![name]);
    }
}

proof fn some_text_is_between(path: Seq<char>)
    ensures
        between_separators(path).len() > 0,
    decreases path.len(),
{
    if path.len() > 0 {
        some_text_is_between(path.drop_last());
    }
}

/// A path is read part by part. A path without a separator is one part, unless it is empty. What
/// follows a separator is one part more, unless it is empty or a dot; so a trailing or repeated
/// separator and a dot behind one change nothing. A path starts at the root where it begins with
/// a separator.
pub proof fn a_path_is_read_part_by_part(front: Seq<char>, name: Seq<char>)
    requires
        !name.contains('/'),
    ensures
        path_view(name).rooted == false,
        path_view(name).parts == (if name.len() == 0 {
            Seq::<Seq<char>>::empty()
        } else {
            seq![name]
        }),
        path_view(front + "/"@ + name).parts == (if name.len() == 0 || name == "."@ {
            path_view(front).parts
        } else {
            path_view(front).parts.push(name)
        }),
        path_view(front + "/"@ + name).rooted <==> front.len() == 0 || path_view(front).rooted,
{
    reveal_strlit("/");
    reveal_strlit(".");
    assert("/"@ =~= seq!['/']);
    assert("."@ =~= seq!['.']);
    let whole = front + seq!['/'] + name;
    texts_before_a_separator(front, name);
    some_text_is_between(front);
    let texts = between_separators(front);
    let longer = between_separators(whole);
    let n = texts.len();
    assert(texts.take(n as int) =~= longer.take(n as int));
    parts_of_a_front(texts, longer, n);
    assert(longer[n as int] == name);
    assert(parts_among(longer, n + 1) == (if is_part(name, n as int) {
        parts_among(longer, n).push(name)
    } else {
        parts_among(longer, n)
    }));
    if front.len() == 0 {
        assert(whole[0] == '/');
    } else {
        assert(whole[0] == front[0]);
    }
    if name.len() > 0 {
        assert(name.contains(name[0]));
    }
    let one = between_separators(name);
    assert(parts_among(one, 0) =~= Seq::empty());
    assert(parts_among(one, 1) == (if is_part(one[0], 0) {
        parts_among(one, 0).push(one[0])
    } else {
        parts_among(one, 0)
    }));
    assert(path_view(name).parts =~= (if name.len() == 0 {
        Seq::<Seq<char>>::empty()
    } else {
        seq![name]
    }));
}

/// Two owners' stores clash where their paths are read alike.
pub proof fn every_store_path_is_checked(
    replay: Seq<String>,
    consumers: Seq<(String, String)>,
    i: int,
    j: int,
)
    ensures
        store_paths(replay, consumers).len() == replay.len() + consumers.len(),
        0 <= i < replay.len() ==> store_paths(replay, consumers)[i] == path_view(replay[i]@),
        0 <= j < consumers.len() ==> store_paths(replay, consumers)[replay.len() + j] == path_view(
            consumers[j].0@,
        ),
{
}

/// The consumers' store paths are those of the consumers that have a store, each with the slug of
/// its consumer.
pub proof fn exactly_the_stores_are_listed(
    consumers: Seq<ResolvedWasmConsumer>,
    n: nat,
    item: (Seq<char>, Seq<char>),
)
    requires
        n <= consumers.len(),
    ensures
        store_paths_of(consumers, n).contains(item) <==> exists|i: int|
            0 <= i < n && ((#[trigger] consumers[i]).store_path matches Some(path) && path@
                == item.0) && consumers[i].slug@ == item.1,
        store_paths_of(consumers, n).len() <= n,
    decreases n,
{
    if n > 0 {
        let m = (n - 1) as nat;
        exactly_the_stores_are_listed(consumers, m, item);
        let before = store_paths_of(consumers, m);
        let after = store_paths_of(consumers, n);
        let last = consumers[n - 1];
        if before.contains(item) {
            let k = choose|k: int| 0 <= k < before.len() && before[k] == item;
            assert(after[k] == item);
        }
        if (last.store_path matches Some(path) && path@ == item.0) && last.slug@ == item.1 {
            assert(after[before.len() as int] == item);
        }
        if after.contains(item) {
            let k = choose|k: int| 0 <= k < after.len() && after[k] == item;
            if k < before.len() {
                assert(before[k] == item);
            } else {
                assert(consumers[n - 1].slug@ == item.1);
            }
        }
    }
}

/// The origin is resolved exactly where messaging is on, push notifications are, or some app
/// takes part in messaging.
pub proof fn the_origin_is_resolved_where_someone_needs_it(
    configured: bool,
    apps: Seq<(Seq<char>, apps::AppView)>,
    pwa_push: bool,
)
    ensures
        !origin_needed(configured, apps, pwa_push) <==> !configured && !pwa_push && forall|i: int|
            0 <= i < apps.len() ==> !(#[trigger] apps[i]).1.messaging_enabled,
{
}

proof fn one_more_link(list: Seq<Capability>, linked: bool, capability: Capability, c: Capability)
    ensures
        (list + if_linked(linked, capability)).contains(c) <==> list.contains(c) || (linked && c
            == capability),
{
    let more = list + if_linked(linked, capability);
    if list.contains(c) {
        let k = choose|k: int| 0 <= k < list.len() && list[k] == c;
        assert(more[k] == c);
    }
    if linked && c == capability {
        assert(more[list.len() as int] == c);
    }
    if more.contains(c) {
        let k = choose|k: int| 0 <= k < more.len() && more[k] == c;
        if k < list.len() {
            assert(list[k] == c);
        }
    }
}

/// Each interface is linked exactly where its own grant is held; the tool interface exactly where
/// there is a tool to call.
pub proof fn each_interface_takes_its_own_grant(grants: Seq<WasmGrant>, policy: PolicyView)
    ensures
        linked_capabilities(grants, policy).contains(Capability::Ports) <==> grants.contains(
            WasmGrant::Ports,
        ),
        linked_capabilities(grants, policy).contains(Capability::Store) <==> grants.contains(
            WasmGrant::Store,
        ),
        linked_capabilities(grants, policy).contains(Capability::Log) <==> grants.contains(
            WasmGrant::Log,
        ),
        linked_capabilities(grants, policy).contains(Capability::Alert) <==> grants.contains(
            WasmGrant::Alert,
        ),
        linked_capabilities(grants, policy).contains(Capability::Config) <==> grants.contains(
            WasmGrant::Config,
        ),
        linked_capabilities(grants, policy).contains(Capability::Mqtt) <==> grants.contains(
            WasmGrant::Mqtt,
        ),
        linked_capabilities(grants, policy).contains(Capability::Tools) <==> policy.tool_grants.len()
            > 0,
{
    linked_where_asked(grants, policy, Capability::Ports);
    linked_where_asked(grants, policy, Capability::Store);
    linked_where_asked(grants, policy, Capability::Log);
    linked_where_asked(grants, policy, Capability::Alert);
    linked_where_asked(grants, policy, Capability::Config);
    linked_where_asked(grants, policy, Capability::Mqtt);
    linked_where_asked(grants, policy, Capability::Tools);
}

proof fn linked_where_asked(grants: Seq<WasmGrant>, policy: PolicyView, c: Capability)
    ensures
        linked_capabilities(grants, policy).contains(c) <==> {
            ||| grants.contains(WasmGrant::Ports) && c == Capability::Ports
            ||| grants.contains(WasmGrant::Store) && c == Capability::Store
            ||| grants.contains(WasmGrant::Log) && c == Capability::Log
            ||| grants.contains(WasmGrant::Alert) && c == Capability::Alert
            ||| grants.contains(WasmGrant::Config) && c == Capability::Config
            ||| grants.contains(WasmGrant::Mqtt) && c == Capability::Mqtt
            ||| policy.tool_grants.len() > 0 && c == Capability::Tools
        },
{
    let none = Seq::<Capability>::empty();
    let ports = if_linked(grants.contains(WasmGrant::Ports), Capability::Ports);
    assert(none + ports =~= ports);
    one_more_link(none, grants.contains(WasmGrant::Ports), Capability::Ports, c);
    let a = ports;
    one_more_link(a, grants.contains(WasmGrant::Store), Capability::Store, c);
    let b = a + if_linked(grants.contains(WasmGrant::Store), Capability::Store);
    one_more_link(b, grants.contains(WasmGrant::Log), Capability::Log, c);
    let d = b + if_linked(grants.contains(WasmGrant::Log), Capability::Log);
    one_more_link(d, grants.contains(WasmGrant::Alert), Capability::Alert, c);
    let e = d + if_linked(grants.contains(WasmGrant::Alert), Capability::Alert);
    one_more_link(e, grants.contains(WasmGrant::Config), Capability::Config, c);
    let f = e + if_linked(grants.contains(WasmGrant::Config), Capability::Config);
    one_more_link(f, grants.contains(WasmGrant::Mqtt), Capability::Mqtt, c);
    let g = f + if_linked(grants.contains(WasmGrant::Mqtt), Capability::Mqtt);
    one_more_link(g, policy.tool_grants.len() > 0, Capability::Tools, c);
}

/// Only a durable output can be allowed, and it is where the policy publishes on its name.
pub proof fn only_durable_outputs_are_allowed(policy: PolicyView, name: Seq<char>)
    ensures
        output_allowed(policy, "brenn:"@ + name) <==> policy.publishes_brenn(name),
        !output_allowed(policy, "ephemeral:"@ + name),
        !output_allowed(policy, "local:"@ + name),
        !output_allowed(policy, "mqtt:"@ + name),
        !output_allowed(policy, "webhook:"@ + name),
{
    address::an_address_is_its_prefix_and_its_name(name);
    let address = "brenn:"@ + name;
    assert(address.subrange(0, "brenn:"@.len() as int) =~= "brenn:"@);
}

/// The rough size of an image is a quarter of the square of its long edge, rounded down, as long
/// as the square fits a machine word.
pub proof fn an_image_is_a_quarter_of_its_square(long_edge: u32)
    ensures
        long_edge * long_edge <= usize::MAX ==> 4 * rough_image_bytes(long_edge) <= long_edge
            * long_edge < 4 * rough_image_bytes(long_edge) + 4,
        long_edge * long_edge > usize::MAX ==> 4 * rough_image_bytes(long_edge) <= usize::MAX < 4
            * rough_image_bytes(long_edge) + 4,
{
}

/// Lines stand one under the other, in order, with a line break between two and none at the end.
pub proof fn lines_are_parted_by_line_breaks(lines: Seq<Seq<char>>, line: Seq<char>)
    ensures
        joined_lines(seq![line]) == line,
        lines.len() > 0 ==> joined_lines(lines.push(line)) == joined_lines(lines) + "\n"@ + line,
{
    reveal_strlit("\n");
    assert("\n"@ =~= seq!['\n']);
    assert(lines.push(line).drop_last() =~= lines);
}

/// The endpoints' places come first, the consumers' behind them.
pub proof fn owners_have_their_own_places(i: usize, replays: nat)
    ensures
        StoreOwner::Replay(i).place(replays) == i,
        StoreOwner::Consumer(i).place(replays) == replays + i,
{
}

/// What a list of store paths says is each path and its consumer's slug, in order.
pub proof fn store_paths_say_path_and_slug(list: Seq<(String, String)>, i: int)
    requires
        0 <= i < list.len(),
    ensures
        store_path_views(list).len() == list.len(),
        store_path_views(list)[i].0 == list[i].0@,
        store_path_views(list)[i].1 == list[i].1@,
{
}

/// Store paths come in the order of the consumers: one more consumer adds its own, behind the
/// others, where it has a store.
pub proof fn store_paths_follow_the_consumers(consumers: Seq<ResolvedWasmConsumer>, n: nat)
    requires
        n < consumers.len(),
    ensures
        store_paths_of(consumers, n).is_prefix_of(store_paths_of(consumers, n + 1)),
        store_paths_of(consumers, n + 1).len() == store_paths_of(consumers, n).len() + (
        if consumers[n as int].store_path is Some {
            1int
        } else {
            0int
        }),
{
}

/// The place of an interface among all of them.
pub open spec fn interface_place(capability: Capability) -> int {
    match capability {
        Capability::Ports => 0,
        Capability::Store => 1,
        Capability::Log => 2,
        Capability::Alert => 3,
        Capability::Config => 4,
        Capability::Mqtt => 5,
        Capability::Tools => 6,
    }
}

spec fn in_order_below(list: Seq<Capability>, bound: int) -> bool {
    &&& forall|i: int| 0 <= i < list.len() ==> interface_place(#[trigger] list[i]) < bound
    &&& forall|i: int, j: int|
        0 <= i < j < list.len() ==> interface_place(#[trigger] list[i]) < interface_place(
            #[trigger] list[j],
        )
}

proof fn linking_keeps_the_order(list: Seq<Capability>, linked: bool, capability: Capability)
    requires
        in_order_below(list, interface_place(capability)),
    ensures
        in_order_below(
            list + if_linked(linked, capability),
            interface_place(capability) + 1,
        ),
{
}

/// Interfaces are linked each once and in their own order.
pub proof fn interfaces_are_linked_in_order(grants: Seq<WasmGrant>, policy: PolicyView)
    ensures
        forall|i: int, j: int|
            0 <= i < j < linked_capabilities(grants, policy).len() ==> interface_place(
                #[trigger] linked_capabilities(grants, policy)[i],
            ) < interface_place(#[trigger] linked_capabilities(grants, policy)[j]),
{
    let none = Seq::<Capability>::empty();
    let a = if_linked(grants.contains(WasmGrant::Ports), Capability::Ports);
    assert(none + a =~= a);
    linking_keeps_the_order(none, grants.contains(WasmGrant::Ports), Capability::Ports);
    linking_keeps_the_order(a, grants.contains(WasmGrant::Store), Capability::Store);
    let b = a + if_linked(grants.contains(WasmGrant::Store), Capability::Store);
    linking_keeps_the_order(b, grants.contains(WasmGrant::Log), Capability::Log);
    let c = b + if_linked(grants.contains(WasmGrant::Log), Capability::Log);
    linking_keeps_the_order(c, grants.contains(WasmGrant::Alert), Capability::Alert);
    let d = c + if_linked(grants.contains(WasmGrant::Alert), Capability::Alert);
    linking_keeps_the_order(d, grants.contains(WasmGrant::Config), Capability::Config);
    let e = d + if_linked(grants.contains(WasmGrant::Config), Capability::Config);
    linking_keeps_the_order(e, grants.contains(WasmGrant::Mqtt), Capability::Mqtt);
    let f = e + if_linked(grants.contains(WasmGrant::Mqtt), Capability::Mqtt);
    linking_keeps_the_order(f, policy.tool_grants.len() > 0, Capability::Tools);
}

} // verus!
