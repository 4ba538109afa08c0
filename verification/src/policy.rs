//! What a participant may do on the bus: capability grants and the matchers that scope them.
//!
//! Every decision has two factors. The transport's capability must be granted, and some matcher
//! of that transport's list must cover the channel.

use vstd::prelude::*;
use vstd::string::*;

use crate::address;
use crate::address::ChannelScheme;
use crate::text;
use crate::text::{copy_entries, has_prefix, same_text};

verus! {

/// A right a participant can hold.
#[derive(Clone, Copy, Debug, PartialEq, Eq, Structural)]
pub enum AppCapability {
    MessagingSubscribe,
    MessagingPublish,
    EphemeralSubscribe,
    EphemeralPublish,
    MqttSubscribe,
    MqttPublish,
    Webhook,
    SurfaceTakeover,
    SurfaceAlert,
}

/// The rights a participant holds.
#[derive(Debug)]
pub struct GrantSet {
    held: Vec<AppCapability>,
}

impl View for GrantSet {
    type V = Set<AppCapability>;

    closed spec fn view(&self) -> Set<AppCapability> {
        self.held@.to_set()
    }
}

impl GrantSet {
    /// No rights at all.
    pub fn new() -> (grants: GrantSet)
        ensures
            grants@ == Set::<AppCapability>::empty(),
    {
        let held: Vec<AppCapability> = Vec::new();
        assert(held@.to_set() =~= Set::<AppCapability>::empty());
        GrantSet { held }
    }

    /// Whether the right is held.
    pub fn has(&self, capability: AppCapability) -> (held: bool)
        ensures
            held == self@.contains(capability),
    {
        let n: usize = self.held.len();
        let mut i: usize = 0;
        while i < n
            invariant
                i <= n,
                n == self.held@.len(),
                forall|k: int| 0 <= k < i ==> #[trigger] self.held@[k] != capability,
            decreases n - i,
        {
            if self.held[i] == capability {
                assert(self.held@.contains(self.held@[i as int]));
                return true;
            }
            i = i + 1;
        }
        false
    }

    /// Hold one more right; a right held already stays held once.
    pub fn insert(&mut self, capability: AppCapability)
        ensures
            final(self)@ == old(self)@.insert(capability),
    {
        if !self.has(capability) {
            let ghost before = self.held@;
            self.held.push(capability);
            proof {
                assert forall|c: AppCapability|
                    self.held@.to_set().contains(c) == before.to_set().insert(capability).contains(
                        c,
                    ) by {
                    if before.contains(c) {
                        let k = choose|k: int| 0 <= k < before.len() && before[k] == c;
                        assert(self.held@[k] == c);
                    }
                    if c == capability {
                        assert(self.held@[before.len() as int] == c);
                    }
                }
                assert(self.held@.to_set() =~= before.to_set().insert(capability));
            }
        } else {
            assert(self.held@.to_set() =~= self.held@.to_set().insert(capability));
        }
    }
}

impl Clone for GrantSet {
    fn clone(&self) -> (copy: GrantSet)
        ensures
            copy@ == self@,
    {
        let held: Vec<AppCapability> = self.held.clone();
        assert(held@ =~= self.held@);
        GrantSet { held }
    }
}

/// What a channel list entry says.
pub enum MatcherView {
    Exact(Seq<char>),
    Prefix(Seq<char>),
}

impl MatcherView {
    /// Whether the entry covers `name`.
    pub open spec fn covers(self, name: Seq<char>) -> bool {
        match self {
            MatcherView::Exact(s) => s == name,
            MatcherView::Prefix(p) => text::begins_with(name, p),
        }
    }
}

/// Which bare channel names a list entry covers.
#[derive(Debug, PartialEq, Eq)]
pub enum ChannelMatcher {
    Exact(String),
    Prefix(String),
}

impl View for ChannelMatcher {
    type V = MatcherView;

    open spec fn view(&self) -> MatcherView {
        match self {
            ChannelMatcher::Exact(s) => MatcherView::Exact(s@),
            ChannelMatcher::Prefix(p) => MatcherView::Prefix(p@),
        }
    }
}

impl ChannelMatcher {
    /// Whether the entry covers `name`.
    pub fn matches(&self, name: &str) -> (covered: bool)
        ensures
            covered == self@.covers(name@),
    {
        match self {
            ChannelMatcher::Exact(s) => same_text(s.as_str(), name),
            ChannelMatcher::Prefix(p) => has_prefix(name, p.as_str()),
        }
    }
}

impl Clone for ChannelMatcher {
    fn clone(&self) -> (copy: ChannelMatcher)
        ensures
            copy == *self,
    {
        match self {
            ChannelMatcher::Exact(s) => ChannelMatcher::Exact(s.clone()),
            ChannelMatcher::Prefix(p) => ChannelMatcher::Prefix(p.clone()),
        }
    }
}

/// What the entries of a channel list say.
pub open spec fn matchers(list: Seq<ChannelMatcher>) -> Seq<MatcherView> {
    Seq::new(list.len(), |i: int| list[i]@)
}

/// Whether some entry of the list covers `name`.
pub open spec fn covered(list: Seq<MatcherView>, name: Seq<char>) -> bool {
    exists|i: int| 0 <= i < list.len() && (#[trigger] list[i]).covers(name)
}

/// Whether some entry of the list covers `name`.
fn any_covers(list: &Vec<ChannelMatcher>, name: &str) -> (found: bool)
    ensures
        found == covered(matchers(list@), name@),
{
    let n: usize = list.len();
    let mut i: usize = 0;
    while i < n
        invariant
            i <= n,
            n == list@.len(),
            forall|k: int| 0 <= k < i ==> !(#[trigger] matchers(list@)[k]).covers(name@),
        decreases n - i,
    {
        if list[i].matches(name) {
            assert(matchers(list@)[i as int].covers(name@));
            return true;
        }
        i = i + 1;
    }
    false
}

/// An MQTT client whose topics may be published to.
#[derive(Debug, PartialEq, Eq)]
pub struct MqttClientMatcher {
    pub client: String,
}

impl Clone for MqttClientMatcher {
    fn clone(&self) -> (copy: MqttClientMatcher)
        ensures
            copy == *self,
    {
        MqttClientMatcher { client: self.client.clone() }
    }
}

/// An MQTT topic filter that may be subscribed on a client.
#[derive(Debug, PartialEq, Eq)]
pub struct MqttSubMatcher {
    pub client: String,
    pub topic_filter: String,
}

impl Clone for MqttSubMatcher {
    fn clone(&self) -> (copy: MqttSubMatcher)
        ensures
            copy == *self,
    {
        MqttSubMatcher { client: self.client.clone(), topic_filter: self.topic_filter.clone() }
    }
}

/// A webhook endpoint whose deliveries may be received.
#[derive(Debug, PartialEq, Eq)]
pub struct WebhookMatcher {
    pub endpoint: String,
}

impl Clone for WebhookMatcher {
    fn clone(&self) -> (copy: WebhookMatcher)
        ensures
            copy == *self,
    {
        WebhookMatcher { endpoint: self.endpoint.clone() }
    }
}

/// The clients the publish entries name.
pub open spec fn publish_clients(list: Seq<MqttClientMatcher>) -> Seq<Seq<char>> {
    Seq::new(list.len(), |i: int| list[i].client@)
}

/// The client and the filter of each subscribe entry.
pub open spec fn subscribe_filters(list: Seq<MqttSubMatcher>) -> Seq<(Seq<char>, Seq<char>)> {
    Seq::new(list.len(), |i: int| (list[i].client@, list[i].topic_filter@))
}

/// The endpoints the webhook entries name.
pub open spec fn endpoints(list: Seq<WebhookMatcher>) -> Seq<Seq<char>> {
    Seq::new(list.len(), |i: int| list[i].endpoint@)
}

/// The lists that scope the transport capabilities.
#[derive(Debug)]
pub struct AclSet {
    pub brenn_subscribe: Vec<ChannelMatcher>,
    pub brenn_publish: Vec<ChannelMatcher>,
    pub ephemeral_subscribe: Vec<ChannelMatcher>,
    pub ephemeral_publish: Vec<ChannelMatcher>,
    pub mqtt_publish: Vec<MqttClientMatcher>,
    pub mqtt_subscribe: Vec<MqttSubMatcher>,
    /// The `mqtt:` addresses that `mqtt_subscribe` covers, as the topic matcher decided them.
    pub mqtt_covered: Vec<String>,
    pub webhook: Vec<WebhookMatcher>,
}

impl AclSet {
    /// Whether no list has an entry.
    pub open spec fn all_empty(self) -> bool {
        &&& self.brenn_subscribe@.len() == 0
        &&& self.brenn_publish@.len() == 0
        &&& self.ephemeral_subscribe@.len() == 0
        &&& self.ephemeral_publish@.len() == 0
        &&& self.mqtt_publish@.len() == 0
        &&& self.mqtt_subscribe@.len() == 0
        &&& self.mqtt_covered@.len() == 0
        &&& self.webhook@.len() == 0
    }

    /// No entries.
    pub fn new() -> (acls: AclSet)
        ensures
            acls.all_empty(),
    {
        AclSet {
            brenn_subscribe: Vec::new(),
            brenn_publish: Vec::new(),
            ephemeral_subscribe: Vec::new(),
            ephemeral_publish: Vec::new(),
            mqtt_publish: Vec::new(),
            mqtt_subscribe: Vec::new(),
            mqtt_covered: Vec::new(),
            webhook: Vec::new(),
        }
    }
}

impl Clone for AclSet {
    fn clone(&self) -> (copy: AclSet)
        ensures
            copy.brenn_subscribe@ == self.brenn_subscribe@,
            copy.brenn_publish@ == self.brenn_publish@,
            copy.ephemeral_subscribe@ == self.ephemeral_subscribe@,
            copy.ephemeral_publish@ == self.ephemeral_publish@,
            copy.mqtt_publish@ == self.mqtt_publish@,
            copy.mqtt_subscribe@ == self.mqtt_subscribe@,
            copy.mqtt_covered@ == self.mqtt_covered@,
            copy.webhook@ == self.webhook@,
    {
        let copy = AclSet {
            brenn_subscribe: self.brenn_subscribe.clone(),
            brenn_publish: self.brenn_publish.clone(),
            ephemeral_subscribe: self.ephemeral_subscribe.clone(),
            ephemeral_publish: self.ephemeral_publish.clone(),
            mqtt_publish: self.mqtt_publish.clone(),
            mqtt_subscribe: self.mqtt_subscribe.clone(),
            mqtt_covered: self.mqtt_covered.clone(),
            webhook: self.webhook.clone(),
        };
        assert(copy.brenn_subscribe@ =~= self.brenn_subscribe@);
        assert(copy.brenn_publish@ =~= self.brenn_publish@);
        assert(copy.ephemeral_subscribe@ =~= self.ephemeral_subscribe@);
        assert(copy.ephemeral_publish@ =~= self.ephemeral_publish@);
        assert(copy.mqtt_publish@ =~= self.mqtt_publish@);
        assert(copy.mqtt_subscribe@ =~= self.mqtt_subscribe@);
        assert(copy.mqtt_covered@ =~= self.mqtt_covered@);
        assert(copy.webhook@ =~= self.webhook@);
        copy
    }
}

/// The texts of a list of strings.
pub open spec fn texts(list: Seq<String>) -> Seq<Seq<char>> {
    Seq::new(list.len(), |i: int| list[i]@)
}

/// Whether the list holds `text`.
pub fn contains_text(list: &Vec<String>, text: &str) -> (found: bool)
    ensures
        found == texts(list@).contains(text@),
{
    let n: usize = list.len();
    let mut i: usize = 0;
    while i < n
        invariant
            i <= n,
            n == list@.len(),
            forall|k: int| 0 <= k < i ==> #[trigger] texts(list@)[k] != text@,
        decreases n - i,
    {
        if same_text(list[i].as_str(), text) {
            assert(texts(list@)[i as int] == text@);
            return true;
        }
        i = i + 1;
    }
    false
}

fn any_endpoint(list: &Vec<WebhookMatcher>, endpoint: &str) -> (found: bool)
    ensures
        found == endpoints(list@).contains(endpoint@),
{
    let n: usize = list.len();
    let mut i: usize = 0;
    while i < n
        invariant
            i <= n,
            n == list@.len(),
            forall|k: int| 0 <= k < i ==> #[trigger] endpoints(list@)[k] != endpoint@,
        decreases n - i,
    {
        if same_text(list[i].endpoint.as_str(), endpoint) {
            assert(endpoints(list@)[i as int] == endpoint@);
            return true;
        }
        i = i + 1;
    }
    false
}

/// How often a tool may be called: so many calls in so many seconds.
#[derive(Clone, Copy, Debug, PartialEq, Eq, Structural)]
pub struct ToolRateLimit {
    pub calls: u32,
    pub per_secs: u64,
}

/// One clause of a tool grant: arguments, each with the value it must have.
#[derive(Debug, PartialEq, Eq)]
pub struct ToolClause {
    pub arguments: Vec<(String, String)>,
}

/// A tool a participant may call, with what arguments and how often.
#[derive(Debug, PartialEq, Eq)]
pub struct ToolGrant {
    pub tool: String,
    pub acl: Vec<ToolClause>,
    pub rate_limit: Option<ToolRateLimit>,
}

/// What a tool grant says.
#[verifier::ext_equal]
pub struct ToolGrantView {
    pub tool: Seq<char>,
    pub acl: Seq<Seq<(Seq<char>, Seq<char>)>>,
    pub rate_limit: Option<ToolRateLimit>,
}

/// What a list of arguments says.
pub open spec fn argument_views(list: Seq<(String, String)>) -> Seq<(Seq<char>, Seq<char>)> {
    Seq::new(list.len(), |i: int| (list[i].0@, list[i].1@))
}

/// What a list of clauses says.
pub open spec fn clause_views(list: Seq<ToolClause>) -> Seq<Seq<(Seq<char>, Seq<char>)>> {
    Seq::new(list.len(), |i: int| argument_views(list[i].arguments@))
}

impl View for ToolGrant {
    type V = ToolGrantView;

    open spec fn view(&self) -> ToolGrantView {
        ToolGrantView {
            tool: self.tool@,
            acl: clause_views(self.acl@),
            rate_limit: self.rate_limit,
        }
    }
}

/// What a list of tool grants says.
pub open spec fn tool_views(list: Seq<ToolGrant>) -> Seq<ToolGrantView> {
    Seq::new(list.len(), |i: int| list[i]@)
}

impl ToolGrantView {
    /// Whether the grant covers a call with these arguments: they meet every term of some clause.
    pub open spec fn allows(self, arguments: Seq<(Seq<char>, Seq<char>)>) -> bool {
        exists|c: int| 0 <= c < self.acl.len() && meets(arguments, #[trigger] self.acl[c])
    }
}

/// Whether the arguments have every value that the clause asks for.
pub open spec fn meets(
    arguments: Seq<(Seq<char>, Seq<char>)>,
    clause: Seq<(Seq<char>, Seq<char>)>,
) -> bool {
    forall|t: int| 0 <= t < clause.len() ==> arguments.contains(#[trigger] clause[t])
}

fn has_argument(arguments: &[(String, String)], term: &(String, String)) -> (has: bool)
    ensures
        has == argument_views(arguments@).contains((term.0@, term.1@)),
{
    let n: usize = arguments.len();
    let mut i: usize = 0;
    while i < n
        invariant
            i <= n,
            n == arguments@.len(),
            forall|k: int|
                0 <= k < i ==> #[trigger] argument_views(arguments@)[k] != (term.0@, term.1@),
        decreases n - i,
    {
        if same_text(arguments[i].0.as_str(), term.0.as_str()) && same_text(
            arguments[i].1.as_str(),
            term.1.as_str(),
        ) {
            assert(argument_views(arguments@)[i as int] == (term.0@, term.1@));
            return true;
        }
        i = i + 1;
    }
    false
}

fn meets_clause(arguments: &[(String, String)], clause: &ToolClause) -> (met: bool)
    ensures
        met == meets(argument_views(arguments@), argument_views(clause.arguments@)),
{
    let ghost terms = argument_views(clause.arguments@);
    let n: usize = clause.arguments.len();
    let mut i: usize = 0;
    while i < n
        invariant
            i <= n,
            n == clause.arguments@.len(),
            terms == argument_views(clause.arguments@),
            forall|t: int|
                0 <= t < i ==> argument_views(arguments@).contains(#[trigger] terms[t]),
        decreases n - i,
    {
        if !has_argument(arguments, &clause.arguments[i]) {
            assert(!argument_views(arguments@).contains(terms[i as int]));
            return false;
        }
        i = i + 1;
    }
    true
}

impl ToolGrant {
    /// Whether the grant covers a call with these arguments.
    pub fn acl_allows(&self, arguments: &[(String, String)]) -> (allowed: bool)
        ensures
            allowed == self@.allows(argument_views(arguments@)),
    {
        let n: usize = self.acl.len();
        let mut i: usize = 0;
        while i < n
            invariant
                i <= n,
                n == self.acl@.len(),
                forall|c: int|
                    0 <= c < i ==> !meets(argument_views(arguments@), #[trigger] self@.acl[c]),
            decreases n - i,
        {
            if meets_clause(arguments, &self.acl[i]) {
                assert(meets(argument_views(arguments@), self@.acl[i as int]));
                return true;
            }
            i = i + 1;
        }
        false
    }
}

impl Clone for ToolGrant {
    fn clone(&self) -> (copy: ToolGrant)
        ensures
            copy@ == self@,
    {
        let n: usize = self.acl.len();
        let mut acl: Vec<ToolClause> = Vec::new();
        let mut i: usize = 0;
        while i < n
            invariant
                i <= n,
                n == self.acl@.len(),
                clause_views(acl@) =~= clause_views(self.acl@).take(i as int),
            decreases n - i,
        {
            let ghost before = acl@;
            acl.push(ToolClause { arguments: copy_entries(&self.acl[i].arguments) });
            assert(clause_views(acl@) =~= clause_views(before).push(
                argument_views(self.acl@[i as int].arguments@),
            ));
            i = i + 1;
        }
        assert(clause_views(self.acl@).take(n as int) =~= clause_views(self.acl@));
        ToolGrant { tool: self.tool.clone(), acl, rate_limit: self.rate_limit }
    }
}

/// The tool grants once more.
pub fn copy_tool_grants(list: &Vec<ToolGrant>) -> (copy: Vec<ToolGrant>)
    ensures
        tool_views(copy@) == tool_views(list@),
{
    let n: usize = list.len();
    let mut copy: Vec<ToolGrant> = Vec::new();
    let mut i: usize = 0;
    while i < n
        invariant
            i <= n,
            n == list@.len(),
            tool_views(copy@) =~= tool_views(list@).take(i as int),
        decreases n - i,
    {
        let ghost before = copy@;
        copy.push(list[i].clone());
        assert(tool_views(copy@) =~= tool_views(before).push(list@[i as int]@));
        i = i + 1;
    }
    assert(tool_views(list@).take(n as int) =~= tool_views(list@));
    copy
}

/// A participant's resolved access policy.
#[derive(Debug)]
pub struct AppPolicy {
    pub grants: GrantSet,
    pub acls: AclSet,
    /// The tools the participant may call.
    pub tool_grants: Vec<ToolGrant>,
}

/// What an access policy says.
#[verifier::ext_equal]
pub struct PolicyView {
    pub grants: Set<AppCapability>,
    pub brenn_subscribe: Seq<MatcherView>,
    pub brenn_publish: Seq<MatcherView>,
    pub ephemeral_subscribe: Seq<MatcherView>,
    pub ephemeral_publish: Seq<MatcherView>,
    pub mqtt_publish: Seq<Seq<char>>,
    pub mqtt_subscribe: Seq<(Seq<char>, Seq<char>)>,
    pub mqtt_covered: Seq<Seq<char>>,
    pub webhook: Seq<Seq<char>>,
    pub tool_grants: Seq<ToolGrantView>,
}

impl View for AppPolicy {
    type V = PolicyView;

    open spec fn view(&self) -> PolicyView {
        PolicyView {
            grants: self.grants@,
            brenn_subscribe: matchers(self.acls.brenn_subscribe@),
            brenn_publish: matchers(self.acls.brenn_publish@),
            ephemeral_subscribe: matchers(self.acls.ephemeral_subscribe@),
            ephemeral_publish: matchers(self.acls.ephemeral_publish@),
            mqtt_publish: publish_clients(self.acls.mqtt_publish@),
            mqtt_subscribe: subscribe_filters(self.acls.mqtt_subscribe@),
            mqtt_covered: texts(self.acls.mqtt_covered@),
            webhook: endpoints(self.acls.webhook@),
            tool_grants: tool_views(self.tool_grants@),
        }
    }
}

impl PolicyView {
    /// The policy that allows nothing.
    pub open spec fn nothing() -> PolicyView {
        PolicyView {
            grants: Set::empty(),
            brenn_subscribe: Seq::empty(),
            brenn_publish: Seq::empty(),
            ephemeral_subscribe: Seq::empty(),
            ephemeral_publish: Seq::empty(),
            mqtt_publish: Seq::empty(),
            mqtt_subscribe: Seq::empty(),
            mqtt_covered: Seq::empty(),
            webhook: Seq::empty(),
            tool_grants: Seq::empty(),
        }
    }

    /// Whether the policy lets its holder receive on `address`.
    pub open spec fn delivers_on(self, address: Seq<char>) -> bool {
        match address::scheme_of(address) {
            Some(ChannelScheme::Brenn) => {
                &&& self.grants.contains(AppCapability::MessagingSubscribe)
                &&& covered(self.brenn_subscribe, ChannelScheme::Brenn.name_in(address))
            },
            Some(ChannelScheme::Ephemeral) => {
                &&& self.grants.contains(AppCapability::EphemeralSubscribe)
                &&& covered(self.ephemeral_subscribe, ChannelScheme::Ephemeral.name_in(address))
            },
            Some(ChannelScheme::Mqtt) => {
                &&& self.grants.contains(AppCapability::MqttSubscribe)
                &&& self.mqtt_covered.contains(address)
            },
            Some(ChannelScheme::Webhook) => {
                &&& self.grants.contains(AppCapability::Webhook)
                &&& self.webhook.contains(ChannelScheme::Webhook.name_in(address))
            },
            Some(ChannelScheme::Local) | None => false,
        }
    }

    /// Whether the policy lets its holder publish on the durable channel `name`.
    pub open spec fn publishes_brenn(self, name: Seq<char>) -> bool {
        &&& self.grants.contains(AppCapability::MessagingPublish)
        &&& covered(self.brenn_publish, name)
    }

    /// Whether the policy lets its holder publish on the ephemeral channel `name`.
    pub open spec fn publishes_ephemeral(self, name: Seq<char>) -> bool {
        &&& self.grants.contains(AppCapability::EphemeralPublish)
        &&& covered(self.ephemeral_publish, name)
    }

    /// The policy with one more right and, for a right on a bus list, the exact `name` added to
    /// that list.
    pub open spec fn granted(self, capability: AppCapability, name: Seq<char>) -> PolicyView {
        let grants = self.grants.insert(capability);
        let entry = MatcherView::Exact(name);
        match capability {
            AppCapability::MessagingSubscribe => PolicyView {
                grants,
                brenn_subscribe: self.brenn_subscribe.push(entry),
                ..self
            },
            AppCapability::MessagingPublish => PolicyView {
                grants,
                brenn_publish: self.brenn_publish.push(entry),
                ..self
            },
            AppCapability::EphemeralSubscribe => PolicyView {
                grants,
                ephemeral_subscribe: self.ephemeral_subscribe.push(entry),
                ..self
            },
            AppCapability::EphemeralPublish => PolicyView {
                grants,
                ephemeral_publish: self.ephemeral_publish.push(entry),
                ..self
            },
            _ => PolicyView { grants, ..self },
        }
    }

    /// Whether everything this policy says, `other` says too, with more behind it.
    pub open spec fn within(self, other: PolicyView) -> bool {
        &&& self.grants.subset_of(other.grants)
        &&& self.brenn_subscribe.is_prefix_of(other.brenn_subscribe)
        &&& self.brenn_publish.is_prefix_of(other.brenn_publish)
        &&& self.ephemeral_subscribe.is_prefix_of(other.ephemeral_subscribe)
        &&& self.ephemeral_publish.is_prefix_of(other.ephemeral_publish)
        &&& self.mqtt_publish.is_prefix_of(other.mqtt_publish)
        &&& self.mqtt_subscribe.is_prefix_of(other.mqtt_subscribe)
        &&& self.mqtt_covered.is_prefix_of(other.mqtt_covered)
        &&& self.webhook.is_prefix_of(other.webhook)
        &&& self.tool_grants.is_prefix_of(other.tool_grants)
    }
}

impl AppPolicy {
    /// A policy that allows nothing.
    pub fn new() -> (policy: AppPolicy)
        ensures
            policy@ == PolicyView::nothing(),
    {
        let policy = AppPolicy {
            grants: GrantSet::new(),
            acls: AclSet::new(),
            tool_grants: Vec::new(),
        };
        assert(policy@ =~= PolicyView::nothing());
        policy
    }

    /// Whether the policy lets its holder receive on `address`.
    pub fn allows_channel_access(&self, address: &str) -> (allowed: bool)
        ensures
            allowed == self@.delivers_on(address@),
    {
        match ChannelScheme::split(address) {
            Some((ChannelScheme::Brenn, name)) => {
                self.grants.has(AppCapability::MessagingSubscribe) && any_covers(
                    &self.acls.brenn_subscribe,
                    name.as_str(),
                )
            },
            Some((ChannelScheme::Ephemeral, name)) => {
                self.grants.has(AppCapability::EphemeralSubscribe) && any_covers(
                    &self.acls.ephemeral_subscribe,
                    name.as_str(),
                )
            },
            Some((ChannelScheme::Mqtt, _name)) => {
                self.grants.has(AppCapability::MqttSubscribe) && contains_text(
                    &self.acls.mqtt_covered,
                    address,
                )
            },
            Some((ChannelScheme::Webhook, name)) => {
                self.grants.has(AppCapability::Webhook) && any_endpoint(
                    &self.acls.webhook,
                    name.as_str(),
                )
            },
            Some((ChannelScheme::Local, _name)) => false,
            None => false,
        }
    }

    /// Whether the policy lets its holder publish on the durable channel `name`.
    pub fn allows_brenn_publish(&self, name: &str) -> (allowed: bool)
        ensures
            allowed == self@.publishes_brenn(name@),
    {
        self.grants.has(AppCapability::MessagingPublish) && any_covers(
            &self.acls.brenn_publish,
            name,
        )
    }

    /// Whether the policy lets its holder publish on the ephemeral channel `name`.
    pub fn allows_ephemeral_publish(&self, name: &str) -> (allowed: bool)
        ensures
            allowed == self@.publishes_ephemeral(name@),
    {
        self.grants.has(AppCapability::EphemeralPublish) && any_covers(
            &self.acls.ephemeral_publish,
            name,
        )
    }

    /// Hold one more right and, for a right on a bus list, cover the exact `name` with it.
    pub fn grant(&mut self, capability: AppCapability, name: &str)
        ensures
            final(self)@ == old(self)@.granted(capability, name@),
    {
        let ghost before = self@;
        self.grants.insert(capability);
        let entry = ChannelMatcher::Exact(name.to_owned());
        match capability {
            AppCapability::MessagingSubscribe => {
                self.acls.brenn_subscribe.push(entry);
            },
            AppCapability::MessagingPublish => {
                self.acls.brenn_publish.push(entry);
            },
            AppCapability::EphemeralSubscribe => {
                self.acls.ephemeral_subscribe.push(entry);
            },
            AppCapability::EphemeralPublish => {
                self.acls.ephemeral_publish.push(entry);
            },
            _ => {},
        }
        assert(self@ =~= before.granted(capability, name@));
    }
}

impl Clone for AppPolicy {
    fn clone(&self) -> (copy: AppPolicy)
        ensures
            copy@ == self@,
    {
        let tool_grants: Vec<ToolGrant> = copy_tool_grants(&self.tool_grants);
        AppPolicy { grants: self.grants.clone(), acls: self.acls.clone(), tool_grants }
    }
}

/// A grant takes nothing away: what the policy said before, it still says, and the channel the
/// grant names is allowed from then on.
pub proof fn a_grant_only_adds(policy: PolicyView, capability: AppCapability, name: Seq<char>)
    ensures
        policy.within(policy.granted(capability, name)),
        capability is MessagingPublish ==> policy.granted(capability, name).publishes_brenn(name),
        capability is EphemeralPublish ==> policy.granted(capability, name).publishes_ephemeral(
            name,
        ),
{
    let after = policy.granted(capability, name);
    if capability is MessagingPublish {
        assert(after.brenn_publish[policy.brenn_publish.len() as int].covers(name));
    }
    if capability is EphemeralPublish {
        assert(after.ephemeral_publish[policy.ephemeral_publish.len() as int].covers(name));
    }
}

/// What a policy allows, every policy that says the same and more allows too.
pub proof fn wider_policies_allow_more(small: PolicyView, large: PolicyView, address: Seq<char>)
    requires
        small.within(large),
    ensures
        small.delivers_on(address) ==> large.delivers_on(address),
        small.publishes_brenn(address) ==> large.publishes_brenn(address),
        small.publishes_ephemeral(address) ==> large.publishes_ephemeral(address),
{
    assert forall|a: Seq<MatcherView>, b: Seq<MatcherView>, name: Seq<char>|
        a.is_prefix_of(b) && #[trigger] covered(a, name) implies #[trigger] covered(b, name) by {
        let i = choose|i: int| 0 <= i < a.len() && (#[trigger] a[i]).covers(name);
        assert(b[i] == a[i]);
    }
    assert forall|a: Seq<Seq<char>>, b: Seq<Seq<char>>, t: Seq<char>|
        a.is_prefix_of(b) && #[trigger] a.contains(t) implies #[trigger] b.contains(t) by {
        let i = choose|i: int| 0 <= i < a.len() && a[i] == t;
        assert(b[i] == a[i]);
    }
}

/// Whether a channel list names `name`: word for word, or by what it begins with.
pub open spec fn lists_name(list: Seq<ChannelMatcher>, name: Seq<char>) -> bool {
    exists|i: int|
        0 <= i < list.len() && (match #[trigger] list[i] {
            ChannelMatcher::Exact(s) => s@ == name,
            ChannelMatcher::Prefix(p) => p@.is_prefix_of(name),
        })
}

/// A list covers exactly the names that one of its entries gives word for word or by what they
/// begin with.
pub proof fn a_list_covers_what_its_entries_name(list: Seq<ChannelMatcher>, name: Seq<char>)
    ensures
        covered(matchers(list), name) <==> lists_name(list, name),
{
    let views = matchers(list);
    if covered(views, name) {
        let i = choose|i: int| 0 <= i < views.len() && (#[trigger] views[i]).covers(name);
        assert(list[i]@.covers(name));
        assert(lists_name(list, name));
    }
    if lists_name(list, name) {
        let i = choose|i: int|
            0 <= i < list.len() && (match #[trigger] list[i] {
                ChannelMatcher::Exact(s) => s@ == name,
                ChannelMatcher::Prefix(p) => p@.is_prefix_of(name),
            });
        assert(views[i].covers(name));
    }
}

/// Receiving takes the capability of the channel's own transport and an entry of that
/// transport's own list; on a page-local channel, and where no transport is named, a policy
/// delivers nothing.
pub proof fn receiving_takes_the_grant_and_an_entry(policy: AppPolicy, name: Seq<char>)
    ensures
        policy@.delivers_on("brenn:"@ + name) <==> policy.grants@.contains(
            AppCapability::MessagingSubscribe,
        ) && lists_name(policy.acls.brenn_subscribe@, name),
        policy@.delivers_on("ephemeral:"@ + name) <==> policy.grants@.contains(
            AppCapability::EphemeralSubscribe,
        ) && lists_name(policy.acls.ephemeral_subscribe@, name),
        policy@.delivers_on("mqtt:"@ + name) <==> policy.grants@.contains(
            AppCapability::MqttSubscribe,
        ) && exists|i: int|
            0 <= i < policy.acls.mqtt_covered@.len() && (#[trigger] policy.acls.mqtt_covered@[i])@
                == "mqtt:"@ + name,
        policy@.delivers_on("webhook:"@ + name) <==> policy.grants@.contains(AppCapability::Webhook)
            && exists|i: int|
            0 <= i < policy.acls.webhook@.len() && (#[trigger] policy.acls.webhook@[i]).endpoint@
                == name,
        !policy@.delivers_on("local:"@ + name),
        address::scheme_of(name) is None ==> !policy@.delivers_on(name),
{
    address::an_address_is_its_prefix_and_its_name(name);
    a_list_covers_what_its_entries_name(policy.acls.brenn_subscribe@, name);
    a_list_covers_what_its_entries_name(policy.acls.ephemeral_subscribe@, name);
    let filters = policy@.mqtt_covered;
    let address = "mqtt:"@ + name;
    if filters.contains(address) {
        let i = choose|i: int| 0 <= i < filters.len() && filters[i] == address;
        assert(policy.acls.mqtt_covered@[i]@ == address);
    }
    assert forall|i: int| 0 <= i < policy.acls.mqtt_covered@.len() && (
    #[trigger] policy.acls.mqtt_covered@[i])@ == address implies filters.contains(address) by {
        assert(filters[i] == address);
    }
    let hooks = policy@.webhook;
    if hooks.contains(name) {
        let i = choose|i: int| 0 <= i < hooks.len() && hooks[i] == name;
        assert(policy.acls.webhook@[i].endpoint@ == name);
    }
    assert forall|i: int| 0 <= i < policy.acls.webhook@.len() && (
    #[trigger] policy.acls.webhook@[i]).endpoint@ == name implies hooks.contains(name) by {
        assert(hooks[i] == name);
    }
}

/// Publishing takes the capability of the transport and an entry of the transport's own list.
pub proof fn publishing_takes_the_grant_and_an_entry(policy: AppPolicy, name: Seq<char>)
    ensures
        policy@.publishes_brenn(name) <==> policy.grants@.contains(AppCapability::MessagingPublish)
            && lists_name(policy.acls.brenn_publish@, name),
        policy@.publishes_ephemeral(name) <==> policy.grants@.contains(
            AppCapability::EphemeralPublish,
        ) && lists_name(policy.acls.ephemeral_publish@, name),
{
    a_list_covers_what_its_entries_name(policy.acls.brenn_publish@, name);
    a_list_covers_what_its_entries_name(policy.acls.ephemeral_publish@, name);
}

proof fn one_more_entry_covers_one_more_name(
    list: Seq<MatcherView>,
    name: Seq<char>,
    other: Seq<char>,
)
    ensures
        covered(list.push(MatcherView::Exact(name)), other) <==> covered(list, other) || other
            == name,
{
    let after = list.push(MatcherView::Exact(name));
    if covered(list, other) {
        let i = choose|i: int| 0 <= i < list.len() && (#[trigger] list[i]).covers(other);
        assert(after[i].covers(other));
    }
    if other == name {
        assert(after[list.len() as int].covers(other));
    }
    if covered(after, other) {
        let i = choose|i: int| 0 <= i < after.len() && (#[trigger] after[i]).covers(other);
        if i < list.len() {
            assert(list[i].covers(other));
        }
    }
}

/// A grant gives its own capability and no other; on the bus it opens the one name it was given
/// for in its own direction on its own transport, and nothing else.
pub proof fn a_grant_opens_one_name_in_one_direction(
    policy: PolicyView,
    capability: AppCapability,
    name: Seq<char>,
    other: Seq<char>,
)
    ensures
        forall|c: AppCapability| #[trigger]
            policy.granted(capability, name).grants.contains(c) <==> policy.grants.contains(c) || c
                == capability,
        covered(policy.granted(capability, name).brenn_subscribe, other) <==> covered(
            policy.brenn_subscribe,
            other,
        ) || (capability == AppCapability::MessagingSubscribe && other == name),
        covered(policy.granted(capability, name).brenn_publish, other) <==> covered(
            policy.brenn_publish,
            other,
        ) || (capability == AppCapability::MessagingPublish && other == name),
        covered(policy.granted(capability, name).ephemeral_subscribe, other) <==> covered(
            policy.ephemeral_subscribe,
            other,
        ) || (capability == AppCapability::EphemeralSubscribe && other == name),
        covered(policy.granted(capability, name).ephemeral_publish, other) <==> covered(
            policy.ephemeral_publish,
            other,
        ) || (capability == AppCapability::EphemeralPublish && other == name),
        policy.granted(capability, name).mqtt_publish == policy.mqtt_publish,
        policy.granted(capability, name).mqtt_subscribe == policy.mqtt_subscribe,
        policy.granted(capability, name).mqtt_covered == policy.mqtt_covered,
        policy.granted(capability, name).webhook == policy.webhook,
        policy.granted(capability, name).tool_grants == policy.tool_grants,
{
    one_more_entry_covers_one_more_name(policy.brenn_subscribe, name, other);
    one_more_entry_covers_one_more_name(policy.brenn_publish, name, other);
    one_more_entry_covers_one_more_name(policy.ephemeral_subscribe, name, other);
    one_more_entry_covers_one_more_name(policy.ephemeral_publish, name, other);
}

/// A new policy lets nobody do anything.
pub proof fn a_new_policy_allows_nothing(name: Seq<char>, capability: AppCapability)
    ensures
        !PolicyView::nothing().grants.contains(capability),
        !PolicyView::nothing().delivers_on(name),
        !PolicyView::nothing().publishes_brenn(name),
        !PolicyView::nothing().publishes_ephemeral(name),
        PolicyView::nothing().mqtt_publish.len() == 0,
        PolicyView::nothing().mqtt_subscribe.len() == 0,
        PolicyView::nothing().mqtt_covered.len() == 0,
        PolicyView::nothing().webhook.len() == 0,
        PolicyView::nothing().tool_grants.len() == 0,
{
}

/// A tool grant allows a call where some clause finds each of its terms, name and value, among
/// the arguments of the call, and refuses it where every clause misses one. So no clause allows
/// nothing, a clause without terms allows every call, and further arguments never forbid one.
pub proof fn a_call_meets_every_term_of_some_clause(
    grant: ToolGrantView,
    arguments: Seq<(Seq<char>, Seq<char>)>,
    more: Seq<(Seq<char>, Seq<char>)>,
    clause: Seq<(Seq<char>, Seq<char>)>,
)
    ensures
        grant.acl.contains(clause) && (forall|t: int|
            0 <= t < clause.len() ==> arguments.contains(#[trigger] clause[t])) ==> grant.allows(
            arguments,
        ),
        (forall|c: int|
            #![trigger grant.acl[c]]
            0 <= c < grant.acl.len() ==> exists|t: int|
                0 <= t < grant.acl[c].len() && !arguments.contains(#[trigger] grant.acl[c][t]))
            ==> !grant.allows(arguments),
        grant.acl.contains(Seq::empty()) ==> grant.allows(arguments),
        grant.allows(arguments) ==> grant.allows(arguments + more),
{
    if grant.allows(arguments) {
        let c = choose|c: int|
            0 <= c < grant.acl.len() && meets(arguments, #[trigger] grant.acl[c]);
        let met = grant.acl[c];
        assert(meets(arguments, met));
        assert forall|t: int| 0 <= t < met.len() implies (arguments + more).contains(
            #[trigger] met[t],
        ) by {
            assert(arguments.contains(met[t]));
            let k = choose|k: int| 0 <= k < arguments.len() && arguments[k] == met[t];
            assert((arguments + more)[k] == met[t]);
        }
        assert(meets(arguments + more, grant.acl[c]));
    }
    if grant.acl.contains(clause) && (forall|t: int|
        0 <= t < clause.len() ==> arguments.contains(#[trigger] clause[t])) {
        let c = choose|c: int| 0 <= c < grant.acl.len() && grant.acl[c] == clause;
        assert(meets(arguments, grant.acl[c]));
    }
    if grant.acl.contains(Seq::empty()) {
        let c = choose|c: int| 0 <= c < grant.acl.len() && grant.acl[c] == Seq::<
            (Seq<char>, Seq<char>),
        >::empty();
        assert(meets(arguments, grant.acl[c]));
    }
}

/// What a policy says of MQTT and of tools is its own lists, one for one.
pub proof fn a_policy_says_what_it_has(policy: AppPolicy, i: int)
    ensures
        policy@.grants == policy.grants@,
        policy@.mqtt_publish.len() == policy.acls.mqtt_publish@.len(),
        0 <= i < policy.acls.mqtt_publish@.len() ==> policy@.mqtt_publish[i]
            == policy.acls.mqtt_publish@[i].client@,
        policy@.mqtt_subscribe.len() == policy.acls.mqtt_subscribe@.len(),
        0 <= i < policy.acls.mqtt_subscribe@.len() ==> policy@.mqtt_subscribe[i] == (
            policy.acls.mqtt_subscribe@[i].client@,
            policy.acls.mqtt_subscribe@[i].topic_filter@,
        ),
        policy@.tool_grants.len() == policy.tool_grants@.len(),
        0 <= i < policy.tool_grants@.len() ==> {
            &&& policy@.tool_grants[i].tool == policy.tool_grants@[i].tool@
            &&& policy@.tool_grants[i].rate_limit == policy.tool_grants@[i].rate_limit
            &&& policy@.tool_grants[i].acl == clause_views(policy.tool_grants@[i].acl@)
        },
{
}

/// What a clause says is each of its terms' own name and value, in order.
pub proof fn a_clause_says_its_terms(clauses: Seq<ToolClause>, c: int, t: int)
    requires
        0 <= c < clauses.len(),
        0 <= t < clauses[c].arguments@.len(),
    ensures
        clause_views(clauses).len() == clauses.len(),
        clause_views(clauses)[c].len() == clauses[c].arguments@.len(),
        clause_views(clauses)[c][t].0 == clauses[c].arguments@[t].0@,
        clause_views(clauses)[c][t].1 == clauses[c].arguments@[t].1@,
{
}

} // verus!
