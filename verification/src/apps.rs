//! The configured apps, and the messaging configuration each of them ends up with.

use indexmap::IndexMap;
use vstd::prelude::*;
use vstd::string::*;

use crate::address::ChannelScheme;
use crate::model;
use crate::model::{Depth, NoiseLevel, WakeMin};
use crate::policy::{AppPolicy, PolicyView};
use crate::surface_model::{MessagingGlobalConfig, ResolvedSubscription};

verus! {

/// What a subscription says.
#[verifier::ext_equal]
pub struct SubscriptionView {
    pub channel_uuid: u128,
    pub channel_address: Seq<char>,
    pub push_depth: Depth,
    pub retain_depth: Depth,
    pub noise: NoiseLevel,
    pub wake_min: WakeMin,
}

impl View for ResolvedSubscription {
    type V = SubscriptionView;

    open spec fn view(&self) -> SubscriptionView {
        SubscriptionView {
            channel_uuid: self.channel_uuid,
            channel_address: self.channel_address@,
            push_depth: self.push_depth,
            retain_depth: self.retain_depth,
            noise: self.noise,
            wake_min: self.wake_min,
        }
    }
}

/// What the subscriptions of a list say.
pub open spec fn subscription_views(list: Seq<ResolvedSubscription>) -> Seq<SubscriptionView> {
    Seq::new(list.len(), |i: int| list[i]@)
}

/// The messaging side of an app.
#[derive(Debug, PartialEq, Eq)]
pub struct ResolvedMessagingConfig {
    pub send_budget: u32,
    pub subscriptions: Vec<ResolvedSubscription>,
}

/// What the messaging side of an app says.
#[verifier::ext_equal]
pub struct MessagingView {
    pub send_budget: u32,
    pub subscriptions: Seq<SubscriptionView>,
}

impl View for ResolvedMessagingConfig {
    type V = MessagingView;

    open spec fn view(&self) -> MessagingView {
        MessagingView {
            send_budget: self.send_budget,
            subscriptions: subscription_views(self.subscriptions@),
        }
    }
}

impl Clone for ResolvedMessagingConfig {
    fn clone(&self) -> (copy: ResolvedMessagingConfig)
        ensures
            copy@ == self@,
    {
        let subscriptions: Vec<ResolvedSubscription> = self.subscriptions.clone();
        assert(subscriptions@ =~= self.subscriptions@);
        ResolvedMessagingConfig { send_budget: self.send_budget, subscriptions }
    }
}

/// An app's subscription to a webhook endpoint, with the channel the endpoint delivers on.
#[derive(Debug, PartialEq, Eq)]
pub struct ResolvedWebhookSubscription {
    pub endpoint_slug: String,
    pub channel_uuid: u128,
    pub wake_min: WakeMin,
}

impl Clone for ResolvedWebhookSubscription {
    fn clone(&self) -> (copy: ResolvedWebhookSubscription)
        ensures
            copy == *self,
    {
        ResolvedWebhookSubscription {
            endpoint_slug: self.endpoint_slug.clone(),
            channel_uuid: self.channel_uuid,
            wake_min: self.wake_min,
        }
    }
}

/// What an app's subscription to a webhook endpoint says.
#[verifier::ext_equal]
pub struct WebhookSubscriptionView {
    pub endpoint_slug: Seq<char>,
    pub channel_uuid: u128,
    pub wake_min: WakeMin,
}

impl View for ResolvedWebhookSubscription {
    type V = WebhookSubscriptionView;

    open spec fn view(&self) -> WebhookSubscriptionView {
        WebhookSubscriptionView {
            endpoint_slug: self.endpoint_slug@,
            channel_uuid: self.channel_uuid,
            wake_min: self.wake_min,
        }
    }
}

/// What an app's subscriptions to webhook endpoints say.
pub open spec fn webhook_views(list: Seq<ResolvedWebhookSubscription>) -> Seq<
    WebhookSubscriptionView,
> {
    Seq::new(list.len(), |i: int| list[i]@)
}

/// An app as far as boot reads it.
#[derive(Debug)]
pub struct AppConfig {
    pub policy: AppPolicy,
    pub messaging: Option<ResolvedMessagingConfig>,
    pub webhook_subscriptions: Vec<ResolvedWebhookSubscription>,
    /// The app's MQTT subscriptions, each with every knob already settled.
    pub mqtt_subscriptions: Vec<ResolvedSubscription>,
    /// Whether the app itself asks for the messaging side.
    pub messaging_enabled: bool,
}

/// What an app says, as far as boot reads it.
#[verifier::ext_equal]
pub struct AppView {
    pub policy: PolicyView,
    pub messaging: Option<MessagingView>,
    pub webhook: Seq<WebhookSubscriptionView>,
    pub mqtt: Seq<SubscriptionView>,
    pub messaging_enabled: bool,
}

impl View for AppConfig {
    type V = AppView;

    open spec fn view(&self) -> AppView {
        AppView {
            policy: self.policy@,
            messaging: match self.messaging {
                Some(m) => Some(m@),
                None => None,
            },
            webhook: webhook_views(self.webhook_subscriptions@),
            mqtt: subscription_views(self.mqtt_subscriptions@),
            messaging_enabled: self.messaging_enabled,
        }
    }
}

impl Clone for AppConfig {
    fn clone(&self) -> (copy: AppConfig)
        ensures
            copy@ == self@,
    {
        let webhook_subscriptions: Vec<ResolvedWebhookSubscription> =
            self.webhook_subscriptions.clone();
        assert(webhook_subscriptions@ =~= self.webhook_subscriptions@);
        let mqtt_subscriptions: Vec<ResolvedSubscription> = self.mqtt_subscriptions.clone();
        assert(mqtt_subscriptions@ =~= self.mqtt_subscriptions@);
        AppConfig {
            policy: self.policy.clone(),
            messaging: match &self.messaging {
                Some(m) => Some(m.clone()),
                None => None,
            },
            webhook_subscriptions,
            mqtt_subscriptions,
            messaging_enabled: self.messaging_enabled,
        }
    }
}

/// The slug of every app and what the app says, in configuration order.
pub uninterp spec fn app_list(apps: IndexMap<String, AppConfig>) -> Seq<(Seq<char>, AppView)>;

/// The position of `slug` in a list of apps, or the list's length where it is not there.
pub open spec fn app_position(list: Seq<(Seq<char>, AppView)>, slug: Seq<char>) -> int
    decreases list.len(),
{
    if list.len() == 0 {
        0
    } else if list[0].0 == slug {
        0
    } else {
        1 + app_position(list.drop_first(), slug)
    }
}

/// What the app `slug` of a list says.
pub open spec fn app_in(list: Seq<(Seq<char>, AppView)>, slug: Seq<char>) -> Option<AppView> {
    let i = app_position(list, slug);
    if i < list.len() {
        Some(list[i].1)
    } else {
        None
    }
}

/// The list with `app` under `slug`: in its place where the slug is listed, at the end otherwise.
pub open spec fn with_app(
    list: Seq<(Seq<char>, AppView)>,
    slug: Seq<char>,
    app: AppView,
) -> Seq<(Seq<char>, AppView)> {
    let i = app_position(list, slug);
    if i < list.len() {
        list.update(i, (slug, app))
    } else {
        list.push((slug, app))
    }
}

/// Whether no slug is listed twice.
pub open spec fn distinct_slugs(list: Seq<(Seq<char>, AppView)>) -> bool {
    forall|a: int, b: int|
        0 <= a < b < list.len() ==> (#[trigger] list[a]).0 != (#[trigger] list[b]).0
}

/// `IndexMap::len`: how many keys the map has. No two of them are equal.
#[verifier::external_body]
pub(crate) fn app_count(apps: &IndexMap<String, AppConfig>) -> (count: usize)
    ensures
        count == app_list(*apps).len(),
        forall|a: int, b: int|
            0 <= a < b < count ==> (#[trigger] app_list(*apps)[a]).0 != (
            #[trigger] app_list(*apps)[b]).0,
{
    apps.len()
}

/// `IndexMap::get_index`: the key and the value at a place of the insertion order.
#[verifier::external_body]
pub(crate) fn app_at(apps: &IndexMap<String, AppConfig>, i: usize) -> (entry: (
    &String,
    &AppConfig,
))
    requires
        i < app_list(*apps).len(),
    ensures
        entry.0@ == app_list(*apps)[i as int].0,
        entry.1@ == app_list(*apps)[i as int].1,
{
    apps.get_index(i).unwrap()
}

/// `IndexMap::get`: the value kept under the key, where the map has the key.
#[verifier::external_body]
pub(crate) fn find_app<'a>(apps: &'a IndexMap<String, AppConfig>, slug: &str) -> (found: Option<
    &'a AppConfig,
>)
    ensures
        app_in(app_list(*apps), slug@) == (match found {
            Some(app) => Some(app@),
            None => None,
        }),
{
    apps.get(slug)
}

/// `IndexMap::clone`: the same keys in the same order, each with a clone of its value.
#[verifier::external_body]
fn copy_apps(apps: &IndexMap<String, AppConfig>) -> (copy: IndexMap<String, AppConfig>)
    ensures
        app_list(copy) == app_list(*apps),
{
    apps.clone()
}

/// `IndexMap::insert`: a key the map has keeps its place and takes the new value, a key it does
/// not have goes last.
#[verifier::external_body]
fn keep_app(apps: &mut IndexMap<String, AppConfig>, slug: String, app: AppConfig)
    ensures
        app_list(*final(apps)) == with_app(app_list(*old(apps)), slug@, app@),
{
    apps.insert(slug, app);
}

/// The subscription to a webhook endpoint's channel: nothing is dropped until it is consumed.
pub open spec fn webhook_subscription(sub: WebhookSubscriptionView) -> SubscriptionView {
    SubscriptionView {
        channel_uuid: sub.channel_uuid,
        channel_address: ChannelScheme::Webhook.prefix_text() + sub.endpoint_slug,
        push_depth: Depth::Unbounded,
        retain_depth: Depth::Unbounded,
        noise: NoiseLevel::Silent,
        wake_min: sub.wake_min,
    }
}

/// The subscriptions an app has by its transports: webhooks, then MQTT.
pub open spec fn transport_subscriptions(app: AppView) -> Seq<SubscriptionView> {
    Seq::new(app.webhook.len(), |i: int| webhook_subscription(app.webhook[i])) + app.mqtt
}

/// The messaging side an app ends up with, where it has one: its own with the transport
/// subscriptions behind it, or one made for the transport subscriptions alone.
pub open spec fn messaging_of(app: AppView, default_send_budget: u32) -> Option<MessagingView> {
    let transport = transport_subscriptions(app);
    match app.messaging {
        Some(own) => Some(
            MessagingView {
                send_budget: own.send_budget,
                subscriptions: own.subscriptions + transport,
            },
        ),
        None => if transport.len() > 0 {
            Some(MessagingView { send_budget: default_send_budget, subscriptions: transport })
        } else {
            None
        },
    }
}

/// The messaging sides of the first `n` apps, in configuration order.
pub open spec fn messaging_apps(
    list: Seq<(Seq<char>, AppView)>,
    default_send_budget: u32,
    n: nat,
) -> Seq<(Seq<char>, MessagingView)>
    decreases n,
{
    if n == 0 {
        Seq::empty()
    } else {
        let before = messaging_apps(list, default_send_budget, (n - 1) as nat);
        match messaging_of(list[n - 1].1, default_send_budget) {
            Some(messaging) => before.push((list[n - 1].0, messaging)),
            None => before,
        }
    }
}

/// What a list of apps with their messaging sides says.
pub open spec fn listed_messaging(list: Seq<(String, ResolvedMessagingConfig)>) -> Seq<
    (Seq<char>, MessagingView),
> {
    Seq::new(list.len(), |i: int| (list[i].0@, list[i].1@))
}

fn derive_transport_subscriptions(app: &AppConfig) -> (subs: Vec<ResolvedSubscription>)
    ensures
        subscription_views(subs@) == transport_subscriptions(app@),
{
    let mut subs: Vec<ResolvedSubscription> = Vec::new();
    let n: usize = app.webhook_subscriptions.len();
    let mut i: usize = 0;
    while i < n
        invariant
            i <= n,
            n == app.webhook_subscriptions@.len(),
            subscription_views(subs@) =~= transport_subscriptions(app@).take(i as int),
        decreases n - i,
    {
        let sub: &ResolvedWebhookSubscription = &app.webhook_subscriptions[i];
        let mut channel_address: String = ChannelScheme::Webhook.prefix().to_owned();
        channel_address.append(sub.endpoint_slug.as_str());
        let ghost before = subs@;
        subs.push(
            ResolvedSubscription {
                channel_uuid: sub.channel_uuid,
                channel_address,
                push_depth: Depth::Unbounded,
                retain_depth: Depth::Unbounded,
                noise: NoiseLevel::Silent,
                wake_min: sub.wake_min,
            },
        );
        assert(app@.webhook[i as int] == sub@);
        assert(subs@.last()@ =~= transport_subscriptions(app@)[i as int]);
        assert(subscription_views(subs@) =~= subscription_views(before).push(subs@.last()@));
        i = i + 1;
    }
    let m: usize = app.mqtt_subscriptions.len();
    let mut j: usize = 0;
    while j < m
        invariant
            j <= m,
            m == app.mqtt_subscriptions@.len(),
            n == app.webhook_subscriptions@.len(),
            subscription_views(subs@) =~= transport_subscriptions(app@).take(n + j),
        decreases m - j,
    {
        let ghost before = subs@;
        subs.push(app.mqtt_subscriptions[j].clone());
        assert(subs@.last()@ == transport_subscriptions(app@)[n + j]);
        assert(subscription_views(subs@) =~= subscription_views(before).push(subs@.last()@));
        j = j + 1;
    }
    assert(transport_subscriptions(app@).take(n + m) =~= transport_subscriptions(app@));
    subs
}

fn derive_messaging(app: &AppConfig, default_send_budget: u32) -> (messaging: Option<
    ResolvedMessagingConfig,
>)
    ensures
        messaging_of(app@, default_send_budget) == (match messaging {
            Some(m) => Some(m@),
            None => None,
        }),
{
    let mut transport: Vec<ResolvedSubscription> = derive_transport_subscriptions(app);
    let ghost derived = transport@;
    match &app.messaging {
        Some(own) => {
            let mut messaging: ResolvedMessagingConfig = own.clone();
            let ghost kept = messaging.subscriptions@;
            messaging.subscriptions.append(&mut transport);
            assert(subscription_views(messaging.subscriptions@) =~= subscription_views(kept)
                + subscription_views(derived));
            Some(messaging)
        },
        None => {
            assert(subscription_views(derived).len() == derived.len());
            if transport.len() > 0 {
                Some(
                    ResolvedMessagingConfig {
                        send_budget: default_send_budget,
                        subscriptions: transport,
                    },
                )
            } else {
                None
            }
        },
    }
}

/// The apps that take part in messaging, each with the messaging side it ends up with. No slug of
/// the map is listed twice.
pub fn build_apps_with_messaging(
    apps: &IndexMap<String, AppConfig>,
    global_defaults: &MessagingGlobalConfig,
) -> (listed: Vec<(String, ResolvedMessagingConfig)>)
    ensures
        listed_messaging(listed@) == messaging_apps(
            app_list(*apps),
            global_defaults.default_send_budget,
            app_list(*apps).len(),
        ),
        distinct_slugs(app_list(*apps)),
{
    let n: usize = app_count(apps);
    let ghost list = app_list(*apps);
    let mut listed: Vec<(String, ResolvedMessagingConfig)> = Vec::new();
    let mut i: usize = 0;
    assert(listed_messaging(listed@) =~= messaging_apps(
        list,
        global_defaults.default_send_budget,
        0,
    ));
    while i < n
        invariant
            i <= n,
            list == app_list(*apps),
            n == list.len(),
            listed_messaging(listed@) == messaging_apps(
                list,
                global_defaults.default_send_budget,
                i as nat,
            ),
        decreases n - i,
    {
        let (slug, app) = app_at(apps, i);
        if let Some(messaging) = derive_messaging(app, global_defaults.default_send_budget) {
            let ghost before = listed@;
            listed.push((slug.clone(), messaging));
            assert(listed_messaging(listed@) =~= listed_messaging(before).push(
                (slug@, messaging@),
            ));
        }
        i = i + 1;
    }
    listed
}

/// The app with another messaging side.
pub open spec fn with_messaging(app: AppView, messaging: MessagingView) -> AppView {
    AppView { messaging: Some(messaging), ..app }
}

/// The apps after the first `n` messaging sides have been put in.
pub open spec fn merged_apps(
    list: Seq<(Seq<char>, AppView)>,
    sides: Seq<(Seq<char>, MessagingView)>,
    n: nat,
) -> Seq<(Seq<char>, AppView)>
    decreases n,
{
    if n == 0 {
        list
    } else {
        let before = merged_apps(list, sides, (n - 1) as nat);
        match app_in(before, sides[n - 1].0) {
            Some(app) => with_app(before, sides[n - 1].0, with_messaging(app, sides[n - 1].1)),
            None => before,
        }
    }
}

/// The check of one messaging side: its app is in the map.
pub open spec fn stray_sides(
    list: Seq<(Seq<char>, AppView)>,
    sides: Seq<(Seq<char>, MessagingView)>,
) -> spec_fn(int) -> Option<()> {
    |i: int|
        match app_in(list, sides[i].0) {
            Some(_) => None::<()>,
            None => Some(()),
        }
}

proof fn app_position_is_first(list: Seq<(Seq<char>, AppView)>, slug: Seq<char>)
    ensures
        0 <= app_position(list, slug) <= list.len(),
        app_position(list, slug) < list.len() ==> list[app_position(list, slug)].0 == slug,
        forall|i: int| 0 <= i < app_position(list, slug) ==> (#[trigger] list[i]).0 != slug,
    decreases list.len(),
{
    if list.len() > 0 && list[0].0 != slug {
        let rest = list.drop_first();
        app_position_is_first(rest, slug);
        assert forall|i: int| 0 <= i < app_position(list, slug) implies (#[trigger] list[i]).0
            != slug by {
            if i > 0 {
                assert(rest[i - 1] == list[i]);
            }
        }
    }
}

/// An app is found in a list exactly where the list has its slug.
pub proof fn apps_are_found_by_slug(list: Seq<(Seq<char>, AppView)>, slug: Seq<char>)
    ensures
        app_in(list, slug) is Some <==> exists|i: int|
            0 <= i < list.len() && (#[trigger] list[i]).0 == slug,
{
    app_position_is_first(list, slug);
}

/// Whether the two lists have the same slugs in the same order.
pub open spec fn same_slugs(a: Seq<(Seq<char>, AppView)>, b: Seq<(Seq<char>, AppView)>) -> bool {
    &&& a.len() == b.len()
    &&& forall|i: int| 0 <= i < a.len() ==> (#[trigger] a[i]).0 == (#[trigger] b[i]).0
}

proof fn positions_follow_slugs(
    a: Seq<(Seq<char>, AppView)>,
    b: Seq<(Seq<char>, AppView)>,
    slug: Seq<char>,
)
    requires
        same_slugs(a, b),
    ensures
        app_position(a, slug) == app_position(b, slug),
{
    app_position_is_first(a, slug);
    app_position_is_first(b, slug);
    let p = app_position(a, slug);
    let q = app_position(b, slug);
    if p < q {
        assert(a[p].0 == b[p].0);
    }
    if q < p {
        assert(a[q].0 == b[q].0);
    }
}

/// Putting messaging sides in changes neither which apps there are nor their order, and leaves an
/// app that no side names as it was.
pub proof fn merging_touches_only_named_apps(
    list: Seq<(Seq<char>, AppView)>,
    sides: Seq<(Seq<char>, MessagingView)>,
    n: nat,
)
    requires
        n <= sides.len(),
    ensures
        same_slugs(list, merged_apps(list, sides, n)),
        forall|i: int|
            0 <= i < list.len() && (forall|k: int| 0 <= k < n ==> (#[trigger] sides[k]).0 != list[i].0)
                ==> #[trigger] merged_apps(list, sides, n)[i] == list[i],
        forall|i: int|
            0 <= i < list.len() ==> (#[trigger] merged_apps(list, sides, n)[i]).1 == (AppView {
                messaging: merged_apps(list, sides, n)[i].1.messaging,
                ..list[i].1
            }),
    decreases n,
{
    if n > 0 {
        let m = (n - 1) as nat;
        merging_touches_only_named_apps(list, sides, m);
        let before = merged_apps(list, sides, m);
        app_position_is_first(before, sides[n - 1].0);
        assert forall|i: int|
            0 <= i < list.len() && (forall|k: int|
                0 <= k < n ==> (#[trigger] sides[k]).0 != list[i].0) implies #[trigger] merged_apps(
            list,
            sides,
            n,
        )[i] == list[i] by {
            assert(sides[n - 1].0 != list[i].0);
            assert(before[i] == list[i]);
        }
    }
}

/// Put each messaging side into its app. The place of the first side whose app the map lacks is
/// the error.
pub fn merge_apps_for_messenger(
    apps: &IndexMap<String, AppConfig>,
    apps_with_messaging: &[(String, ResolvedMessagingConfig)],
) -> (merged: Result<IndexMap<String, AppConfig>, usize>)
    ensures
        match model::first_fault(
            stray_sides(app_list(*apps), listed_messaging(apps_with_messaging@)),
            apps_with_messaging@.len(),
        ) {
            Some(fault) => merged matches Err(i) && i == fault.0,
            None => merged matches Ok(map) && app_list(map) == merged_apps(
                app_list(*apps),
                listed_messaging(apps_with_messaging@),
                apps_with_messaging@.len(),
            ),
        },
{
    let n: usize = apps_with_messaging.len();
    let ghost list = app_list(*apps);
    let ghost sides = listed_messaging(apps_with_messaging@);
    let mut merged: IndexMap<String, AppConfig> = copy_apps(apps);
    let mut i: usize = 0;
    while i < n
        invariant
            i <= n,
            n == apps_with_messaging@.len(),
            list == app_list(*apps),
            sides == listed_messaging(apps_with_messaging@),
            app_list(merged) == merged_apps(list, sides, i as nat),
            model::first_fault(stray_sides(list, sides), i as nat) is None,
        decreases n - i,
    {
        proof {
            merging_touches_only_named_apps(list, sides, i as nat);
            positions_follow_slugs(list, app_list(merged), sides[i as int].0);
        }
        let (slug, messaging) = &apps_with_messaging[i];
        let updated: AppConfig = match find_app(&merged, slug.as_str()) {
            Some(app) => {
                let mut app: AppConfig = app.clone();
                app.messaging = Some(messaging.clone());
                app
            },
            None => {
                proof {
                    model::fault_stands(stray_sides(list, sides), (i + 1) as nat, n as nat);
                }
                return Err(i);
            },
        };
        assert(updated@ =~= with_messaging(
            app_in(app_list(merged), slug@)->0,
            sides[i as int].1,
        ));
        keep_app(&mut merged, slug.clone(), updated);
        i = i + 1;
    }
    Ok(merged)
}

proof fn listed_apps_are_known(
    list: Seq<(Seq<char>, AppView)>,
    default_send_budget: u32,
    n: nat,
    k: int,
)
    requires
        n <= list.len(),
        0 <= k < messaging_apps(list, default_send_budget, n).len(),
    ensures
        exists|i: int|
            0 <= i < n && (#[trigger] list[i]).0 == messaging_apps(list, default_send_budget, n)[k].0
                && messaging_of(list[i].1, default_send_budget) == Some(
                messaging_apps(list, default_send_budget, n)[k].1,
            ),
    decreases n,
{
    let m = (n - 1) as nat;
    let before = messaging_apps(list, default_send_budget, m);
    if k < before.len() {
        listed_apps_are_known(list, default_send_budget, m, k);
    } else {
        assert(list[n - 1].0 == messaging_apps(list, default_send_budget, n)[k].0);
    }
}

/// The messaging sides derived from a map of apps can always be put back into it.
pub proof fn derived_sides_never_stray(list: Seq<(Seq<char>, AppView)>, default_send_budget: u32)
    ensures
        model::first_fault(
            stray_sides(list, messaging_apps(list, default_send_budget, list.len())),
            messaging_apps(list, default_send_budget, list.len()).len(),
        ) is None,
{
    let sides = messaging_apps(list, default_send_budget, list.len());
    assert forall|k: int| 0 <= k < sides.len() implies (#[trigger] stray_sides(list, sides)(k)) is None by {
        listed_apps_are_known(list, default_send_budget, list.len(), k);
        apps_are_found_by_slug(list, sides[k].0);
    }
    model::first_fault_is_first(stray_sides(list, sides), sides.len());
}

/// After the merge every app has exactly the messaging side that was derived for it, and is
/// otherwise as it was.
pub proof fn merged_apps_have_their_derived_side(
    list: Seq<(Seq<char>, AppView)>,
    default_send_budget: u32,
    i: int,
)
    requires
        0 <= i < list.len(),
        distinct_slugs(list),
    ensures
        merged_apps(
            list,
            messaging_apps(list, default_send_budget, list.len()),
            messaging_apps(list, default_send_budget, list.len()).len(),
        )[i] == (
            list[i].0,
            AppView { messaging: messaging_of(list[i].1, default_send_budget), ..list[i].1 },
        ),
{
    merged_prefix(list, default_send_budget, list.len(), i);
}

proof fn prefixes_agree(
    list: Seq<(Seq<char>, AppView)>,
    a: Seq<(Seq<char>, MessagingView)>,
    b: Seq<(Seq<char>, MessagingView)>,
    n: nat,
)
    requires
        n <= a.len(),
        n <= b.len(),
        forall|k: int| 0 <= k < n ==> #[trigger] a[k] == b[k],
    ensures
        merged_apps(list, a, n) == merged_apps(list, b, n),
    decreases n,
{
    if n > 0 {
        prefixes_agree(list, a, b, (n - 1) as nat);
    }
}

proof fn merged_prefix(
    list: Seq<(Seq<char>, AppView)>,
    default_send_budget: u32,
    n: nat,
    i: int,
)
    requires
        0 <= i < list.len(),
        n <= list.len(),
        distinct_slugs(list),
    ensures
        ({
            let sides = messaging_apps(list, default_send_budget, n);
            let merged = merged_apps(list, sides, sides.len());
            &&& same_slugs(list, merged)
            &&& i < n ==> merged[i] == (
                list[i].0,
                AppView { messaging: messaging_of(list[i].1, default_send_budget), ..list[i].1 },
            )
            &&& i >= n ==> merged[i] == list[i]
        }),
    decreases n,
{
    if n > 0 {
        let m = (n - 1) as nat;
        merged_prefix(list, default_send_budget, m, i);
        let earlier = messaging_apps(list, default_send_budget, m);
        let sides = messaging_apps(list, default_send_budget, n);
        merging_touches_only_named_apps(list, sides, sides.len());
        match messaging_of(list[n - 1].1, default_send_budget) {
            Some(messaging) => {
                merged_prefix(list, default_send_budget, m, n - 1);
                prefixes_agree(list, earlier, sides, earlier.len());
                let before = merged_apps(list, earlier, earlier.len());
                app_position_is_first(before, list[n - 1].0);
                let p = app_position(before, list[n - 1].0);
                assert(before[n - 1].0 == list[n - 1].0);
                if p < n - 1 {
                    assert(before[p].0 == list[p].0);
                }
                assert(p == n - 1);
            },
            None => {
                assert(list[n - 1].1.messaging is None);
            },
        }
    }
}

/// Every webhook subscription of an app comes out on its messaging side, in order and behind the
/// app's own subscriptions: at the endpoint's webhook address, with the uuid and the wake
/// threshold the subscription has, both depths unbounded and silent.
pub proof fn webhook_subscriptions_come_out_as_they_are(
    app: AppConfig,
    default_send_budget: u32,
    i: int,
)
    requires
        0 <= i < app.webhook_subscriptions@.len(),
    ensures
        messaging_of(app@, default_send_budget) matches Some(side) && {
            let own = match app.messaging {
                Some(m) => m.subscriptions@.len(),
                None => 0,
            };
            let sub = app.webhook_subscriptions@[i];
            let made = side.subscriptions[own + i];
            &&& own + i < side.subscriptions.len()
            &&& made.channel_address == "webhook:"@ + sub.endpoint_slug@
            &&& made.channel_uuid == sub.channel_uuid
            &&& made.wake_min == sub.wake_min
            &&& made.push_depth == Depth::Unbounded
            &&& made.retain_depth == Depth::Unbounded
            &&& made.noise == NoiseLevel::Silent
        },
{
    assert(app@.webhook[i] == app.webhook_subscriptions@[i]@);
    let transport = transport_subscriptions(app@);
    assert(transport.len() > 0);
    assert(transport[i] == webhook_subscription(app@.webhook[i]));
}

/// Every MQTT subscription of an app comes out on its messaging side unchanged, in order and
/// behind the app's own subscriptions and its webhook ones.
pub proof fn mqtt_subscriptions_come_out_as_they_are(
    app: AppConfig,
    default_send_budget: u32,
    j: int,
)
    requires
        0 <= j < app.mqtt_subscriptions@.len(),
    ensures
        messaging_of(app@, default_send_budget) matches Some(side) && {
            let own = match app.messaging {
                Some(m) => m.subscriptions@.len(),
                None => 0,
            };
            let sub = app.mqtt_subscriptions@[j];
            let made = side.subscriptions[own + app.webhook_subscriptions@.len() + j];
            &&& own + app.webhook_subscriptions@.len() + j < side.subscriptions.len()
            &&& made.channel_uuid == sub.channel_uuid
            &&& made.channel_address == sub.channel_address@
            &&& made.push_depth == sub.push_depth
            &&& made.retain_depth == sub.retain_depth
            &&& made.noise == sub.noise
            &&& made.wake_min == sub.wake_min
        },
{
    assert(app@.mqtt[j] == app.mqtt_subscriptions@[j]@);
    let transport = transport_subscriptions(app@);
    assert(transport[app@.webhook.len() + j] == app@.mqtt[j]);
}

/// An app has a messaging side exactly where it configures one or has a transport subscription.
/// Its own subscriptions come first and unchanged, nothing is there beside them and those of the
/// transports, and the send budget is its own, or the default where it configures no side.
pub proof fn a_messaging_side_is_the_apps_own_and_its_transports(
    app: AppConfig,
    default_send_budget: u32,
)
    ensures
        messaging_of(app@, default_send_budget) is Some <==> app.messaging is Some
            || app.webhook_subscriptions@.len() > 0 || app.mqtt_subscriptions@.len() > 0,
        messaging_of(app@, default_send_budget) matches Some(side) ==> {
            &&& app.messaging matches Some(own) ==> {
                &&& side.send_budget == own.send_budget
                &&& side.subscriptions.len() == own.subscriptions@.len()
                    + app.webhook_subscriptions@.len() + app.mqtt_subscriptions@.len()
                &&& forall|k: int|
                    #![trigger own.subscriptions@[k]]
                    0 <= k < own.subscriptions@.len() ==> side.subscriptions[k]
                        == own.subscriptions@[k]@
            }
            &&& app.messaging is None ==> {
                &&& side.send_budget == default_send_budget
                &&& side.subscriptions.len() == app.webhook_subscriptions@.len()
                    + app.mqtt_subscriptions@.len()
            }
        },
{
    let transport = transport_subscriptions(app@);
    assert(transport.len() == app@.webhook.len() + app@.mqtt.len());
}

/// The apps that take part in messaging are those with a messaging side, each listed once under
/// its own slug with that side, in configuration order.
pub proof fn exactly_the_apps_with_a_side_are_listed(
    list: Seq<(Seq<char>, AppView)>,
    default_send_budget: u32,
    n: nat,
    item: (Seq<char>, MessagingView),
)
    requires
        n <= list.len(),
    ensures
        messaging_apps(list, default_send_budget, n).contains(item) <==> exists|i: int|
            0 <= i < n && (#[trigger] list[i]).0 == item.0 && messaging_of(
                list[i].1,
                default_send_budget,
            ) == Some(item.1),
        messaging_apps(list, default_send_budget, n).len() <= n,
    decreases n,
{
    if n > 0 {
        let m = (n - 1) as nat;
        exactly_the_apps_with_a_side_are_listed(list, default_send_budget, m, item);
        let before = messaging_apps(list, default_send_budget, m);
        let after = messaging_apps(list, default_send_budget, n);
        if before.contains(item) {
            let k = choose|k: int| 0 <= k < before.len() && before[k] == item;
            assert(after[k] == item);
        }
        if list[n - 1].0 == item.0 && messaging_of(list[n - 1].1, default_send_budget) == Some(
            item.1,
        ) {
            assert(after[before.len() as int] == item);
        }
        if after.contains(item) {
            let k = choose|k: int| 0 <= k < after.len() && after[k] == item;
            if k < before.len() {
                assert(before[k] == item);
            } else {
                assert(list[n - 1].0 == item.0);
            }
        }
    }
}

/// Under a slug the first app of the list that has it is found.
pub proof fn the_first_app_of_a_slug_is_found(list: Seq<(Seq<char>, AppView)>, i: int)
    requires
        0 <= i < list.len(),
        forall|d: int| 0 <= d < i ==> (#[trigger] list[d]).0 != list[i].0,
    ensures
        app_in(list, list[i].0) == Some(list[i].1),
{
    app_position_is_first(list, list[i].0);
    let p = app_position(list, list[i].0);
    if p > i {
        assert(list[i].0 != list[i].0);
    }
}

/// Putting an app under a slug replaces the one that is there and leaves every other alone; a new
/// slug comes last.
pub proof fn an_app_replaces_its_own_slug_only(
    list: Seq<(Seq<char>, AppView)>,
    slug: Seq<char>,
    app: AppView,
    i: int,
)
    requires
        0 <= i < list.len(),
        distinct_slugs(list),
    ensures
        list[i].0 == slug ==> with_app(list, slug, app) == list.update(i, (slug, app)),
        (forall|k: int| 0 <= k < list.len() ==> (#[trigger] list[k]).0 != slug) ==> with_app(
            list,
            slug,
            app,
        ) == list.push((slug, app)),
{
    app_position_is_first(list, slug);
    if list[i].0 == slug {
        let p = app_position(list, slug);
        if p > i {
            assert(list[i].0 != slug);
        }
        if p < i {
            assert(list[p].0 != list[i].0);
        }
    }
}

/// What an app says is its own policy, its own wish for messaging, and its own messaging side.
pub proof fn an_app_says_what_it_has(app: AppConfig)
    ensures
        app@.policy == app.policy@,
        app@.messaging_enabled == app.messaging_enabled,
        app@.messaging is Some <==> app.messaging is Some,
        app@.webhook.len() == app.webhook_subscriptions@.len(),
        app@.mqtt.len() == app.mqtt_subscriptions@.len(),
{
}

/// What a list of messaging sides says is each app's slug with its own side, in order.
pub proof fn sides_are_listed_with_their_slugs(
    list: Seq<(String, ResolvedMessagingConfig)>,
    i: int,
    j: int,
)
    requires
        0 <= i < list.len(),
        0 <= j < list[i].1.subscriptions@.len(),
    ensures
        listed_messaging(list).len() == list.len(),
        listed_messaging(list)[i].0 == list[i].0@,
        listed_messaging(list)[i].1.send_budget == list[i].1.send_budget,
        listed_messaging(list)[i].1.subscriptions.len() == list[i].1.subscriptions@.len(),
        ({
            let said = listed_messaging(list)[i].1.subscriptions[j];
            let sub = list[i].1.subscriptions@[j];
            &&& said.channel_uuid == sub.channel_uuid
            &&& said.channel_address == sub.channel_address@
            &&& said.push_depth == sub.push_depth
            &&& said.retain_depth == sub.retain_depth
            &&& said.noise == sub.noise
            &&& said.wake_min == sub.wake_min
        }),
{
}

/// Apps with a messaging side are listed in configuration order: one more app adds itself, behind
/// the others, where it has a side.
pub proof fn listed_apps_follow_the_configuration(
    list: Seq<(Seq<char>, AppView)>,
    default_send_budget: u32,
    n: nat,
)
    requires
        n < list.len(),
    ensures
        messaging_apps(list, default_send_budget, n).is_prefix_of(
            messaging_apps(list, default_send_budget, n + 1),
        ),
        messaging_apps(list, default_send_budget, n + 1).len() == messaging_apps(
            list,
            default_send_budget,
            n,
        ).len() + (if messaging_of(list[n as int].1, default_send_budget) is Some {
            1int
        } else {
            0int
        }),
{
}

} // verus!
