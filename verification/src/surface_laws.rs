//! What holds of every surface that boot accepts.

use vstd::prelude::*;

use crate::address;
use crate::address::ChannelScheme;
use crate::directory;
use crate::directory::ChannelEntry;
use crate::model;
use crate::model::{Depth, NoiseLevel};
use crate::policy::AppCapability;
use crate::rings;
use crate::rings::ResolvedLocalChannel;
use crate::surface_model::{
    AutoWiring, MessagingGlobalConfig, ResolvedSurface, ResolvedSurfaceSubscription, SurfaceBinding,
    SurfaceConfigRaw, SurfaceFault, SurfaceFaultKind, SurfaceLimits,
};
use crate::surface_rules;
use crate::surface_scene;
use crate::surface_scene::Scene;
use crate::surfaces;

verus! {

/// Whether a subscription is the one of `instance` on the channel `uuid`.
pub open spec fn is_for(
    subscription: ResolvedSurfaceSubscription,
    instance: Seq<char>,
    uuid: u128,
) -> bool {
    subscription.instance@ == instance && subscription.subscription.channel_uuid == uuid
}

proof fn wire_position_is_first(
    list: Seq<ResolvedSurfaceSubscription>,
    instance: Seq<char>,
    uuid: u128,
)
    ensures
        0 <= surface_scene::wire_position(list, instance, uuid) <= list.len(),
        surface_scene::wire_position(list, instance, uuid) < list.len() ==> is_for(
            list[surface_scene::wire_position(list, instance, uuid)],
            instance,
            uuid,
        ),
        forall|i: int|
            0 <= i < surface_scene::wire_position(list, instance, uuid) ==> !is_for(
                #[trigger] list[i],
                instance,
                uuid,
            ),
    decreases list.len(),
{
    if list.len() > 0 && !is_for(list[0], instance, uuid) {
        let rest = list.drop_first();
        wire_position_is_first(rest, instance, uuid);
        assert forall|i: int|
            0 <= i < surface_scene::wire_position(list, instance, uuid) implies !is_for(
            #[trigger] list[i],
            instance,
            uuid,
        ) by {
            if i > 0 {
                assert(rest[i - 1] == list[i]);
            }
        }
    }
}

/// Whether input binding `k` installs a subscription for `instance` on `uuid`.
pub open spec fn installs(scene: Scene, k: int, instance: Seq<char>, uuid: u128) -> bool {
    scene.wire_at(k) matches Some(wire) && wire.channel_uuid == uuid && scene.subs()[k].instance@
        == instance
}

/// Whether a subscription is as wide as the one binding `k` installs, and as loud.
pub open spec fn serves(scene: Scene, k: int, shared: ResolvedSurfaceSubscription) -> bool {
    let wire = scene.wire_at(k)->0;
    &&& is_for(shared, scene.subs()[k].instance@, wire.channel_uuid)
    &&& shared.subscription.push_depth.wider(wire.push_depth) == shared.subscription.push_depth
    &&& shared.subscription.retain_depth.wider(wire.retain_depth)
        == shared.subscription.retain_depth
    &&& shared.subscription.noise == wire.noise
}

/// Whether the first `n` bindings account for a subscription: one of them asks for exactly its
/// queue and one for exactly its retention.
pub open spec fn accounted(scene: Scene, n: nat, shared: ResolvedSurfaceSubscription) -> bool {
    &&& exists|k: int|
        0 <= k < n && #[trigger] installs(
            scene,
            k,
            shared.instance@,
            shared.subscription.channel_uuid,
        ) && scene.wire_at(k)->0.push_depth == shared.subscription.push_depth
    &&& exists|k: int|
        0 <= k < n && #[trigger] installs(
            scene,
            k,
            shared.instance@,
            shared.subscription.channel_uuid,
        ) && scene.wire_at(k)->0.retain_depth == shared.subscription.retain_depth
}

/// One subscription for each instance and channel, as wide as the widest binding on it in each
/// direction and no wider, and of the one loudness all its bindings agree on. The order in which
/// the bindings are declared does not enter.
pub proof fn shared_subscriptions_fold_by_maximum(scene: Scene, n: nat)
    requires
        forall|j: int| 0 <= j < n ==> !(#[trigger] scene.noise_conflict(j)),
    ensures
        forall|i: int, j: int|
            0 <= i < j < scene.wires(n).len() ==> !is_for(
                #[trigger] scene.wires(n)[i],
                (#[trigger] scene.wires(n)[j]).instance@,
                scene.wires(n)[j].subscription.channel_uuid,
            ),
        forall|k: int|
            0 <= k < n && (#[trigger] scene.wire_at(k)) is Some ==> exists|i: int|
                0 <= i < scene.wires(n).len() && serves(scene, k, #[trigger] scene.wires(n)[i]),
        forall|i: int|
            0 <= i < scene.wires(n).len() ==> accounted(scene, n, #[trigger] scene.wires(n)[i]),
    decreases n,
{
    if n > 0 {
        let m = (n - 1) as nat;
        shared_subscriptions_fold_by_maximum(scene, m);
        let before = scene.wires(m);
        let after = scene.wires(n);
        match scene.wire_at(m as int) {
            None => {
                assert forall|i: int| 0 <= i < after.len() implies accounted(
                    scene,
                    n,
                    #[trigger] after[i],
                ) by {
                    accounted_grows(scene, m, n, before[i]);
                }
            },
            Some(wire) => {
                let instance = scene.subs()[m as int].instance;
                wire_position_is_first(before, instance@, wire.channel_uuid);
                let p = surface_scene::wire_position(before, instance@, wire.channel_uuid);
                assert(!scene.noise_conflict(m as int));
                assert forall|i: int, j: int| 0 <= i < j < after.len() implies !is_for(
                    #[trigger] after[i],
                    (#[trigger] after[j]).instance@,
                    after[j].subscription.channel_uuid,
                ) by {
                    if p < before.len() {
                        assert(!is_for(
                            before[i],
                            before[j].instance@,
                            before[j].subscription.channel_uuid,
                        ));
                    } else if j < before.len() {
                        assert(!is_for(
                            before[i],
                            before[j].instance@,
                            before[j].subscription.channel_uuid,
                        ));
                    }
                }
                assert forall|k: int| 0 <= k < n && (#[trigger] scene.wire_at(k)) is Some implies exists|
                    i: int,
                | 0 <= i < after.len() && serves(scene, k, #[trigger] after[i]) by {
                    if k < m {
                        let i = choose|i: int|
                            0 <= i < before.len() && serves(scene, k, #[trigger] before[i]);
                        assert(serves(scene, k, after[i]));
                    } else {
                        assert(serves(scene, k, after[p]));
                    }
                }
                assert(installs(scene, m as int, instance@, wire.channel_uuid));
                assert forall|i: int| 0 <= i < after.len() implies accounted(
                    scene,
                    n,
                    #[trigger] after[i],
                ) by {
                    if i != p {
                        accounted_grows(scene, m, n, before[i]);
                    } else if p < before.len() {
                        accounted_grows(scene, m, n, before[p]);
                        widest_is_one_of_both(
                            before[p].subscription.push_depth,
                            wire.push_depth,
                        );
                        widest_is_one_of_both(
                            before[p].subscription.retain_depth,
                            wire.retain_depth,
                        );
                        assert(installs(
                            scene,
                            m as int,
                            after[p].instance@,
                            after[p].subscription.channel_uuid,
                        ));
                        let kp = choose|k: int|
                            0 <= k < n && #[trigger] installs(
                                scene,
                                k,
                                before[p].instance@,
                                before[p].subscription.channel_uuid,
                            ) && scene.wire_at(k)->0.push_depth
                                == before[p].subscription.push_depth;
                        let kr = choose|k: int|
                            0 <= k < n && #[trigger] installs(
                                scene,
                                k,
                                before[p].instance@,
                                before[p].subscription.channel_uuid,
                            ) && scene.wire_at(k)->0.retain_depth
                                == before[p].subscription.retain_depth;
                        assert(installs(
                            scene,
                            kp,
                            after[p].instance@,
                            after[p].subscription.channel_uuid,
                        ));
                        assert(installs(
                            scene,
                            kr,
                            after[p].instance@,
                            after[p].subscription.channel_uuid,
                        ));
                    }
                }
            },
        }
    }
}

proof fn widest_is_one_of_both(a: Depth, b: Depth)
    ensures
        a.wider(b) == a || a.wider(b) == b,
{
}

proof fn accounted_grows(scene: Scene, m: nat, n: nat, shared: ResolvedSurfaceSubscription)
    requires
        m <= n,
        accounted(scene, m, shared),
    ensures
        accounted(scene, n, shared),
{
    let kp = choose|k: int|
        0 <= k < m && #[trigger] installs(
            scene,
            k,
            shared.instance@,
            shared.subscription.channel_uuid,
        ) && scene.wire_at(k)->0.push_depth == shared.subscription.push_depth;
    let kr = choose|k: int|
        0 <= k < m && #[trigger] installs(
            scene,
            k,
            shared.instance@,
            shared.subscription.channel_uuid,
        ) && scene.wire_at(k)->0.retain_depth == shared.subscription.retain_depth;
    assert(installs(scene, kp, shared.instance@, shared.subscription.channel_uuid));
    assert(installs(scene, kr, shared.instance@, shared.subscription.channel_uuid));
}

/// Every subscription a surface installs holds a bounded queue and a bounded retention.
pub proof fn surface_windows_are_bounded(scene: Scene, n: nat)
    ensures
        forall|i: int|
            0 <= i < scene.wires(n).len() ==> (#[trigger] scene.wires(n)[i]).subscription.push_depth
                != Depth::Unbounded && scene.wires(n)[i].subscription.retain_depth
                != Depth::Unbounded,
    decreases n,
{
    if n > 0 {
        surface_windows_are_bounded(scene, (n - 1) as nat);
        if let Some(wire) = scene.wire_at(n - 1) {
            assert(wire.push_depth != Depth::Unbounded && wire.retain_depth != Depth::Unbounded) by {
                reveal(Scene::input_of);
            }
            wire_position_is_first(
                scene.wires((n - 1) as nat),
                scene.subs()[n - 1].instance@,
                wire.channel_uuid,
            );
        }
    }
}

/// An accepted input binding sits on a declared instance and a well-formed port of its own; its
/// channel is page-local, or a declared bus channel that the surface may receive on and that
/// retains something; it is loud only with the alert grant; and it can activate its component or
/// carry context.
pub proof fn accepted_inputs_can_deliver(scene: Scene, j: int)
    requires
        0 <= j < scene.subs().len(),
        model::first_fault(scene.sub_faults(), scene.subs().len()) is None,
    ensures
        scene.declares(scene.binding(j).instance@),
        address::all_unreserved(scene.binding(j).port@),
        scene.binding(j).port@.len() > 0,
        forall|k: int|
            0 <= k < scene.subs().len() && k != j ==> (#[trigger] scene.subs()[k]).instance@
                != scene.subs()[j].instance@ || scene.subs()[k].port@ != scene.subs()[j].port@,
        ChannelScheme::Local.names(scene.binding(j).channel_address@) || {
            &&& scene.policy.delivers_on(scene.binding(j).channel_address@)
            &&& directory::channel_at(
                scene.entries,
                scene.binding(j).channel_address@,
            ) matches Some(entry)
            &&& entry.resolved_channel.retain_depth != Depth::Bounded(0)
        },
        scene.binding(j).noise.loud() ==> scene.policy.grants.contains(
            AppCapability::SurfaceAlert,
        ),
        scene.binding(j).push_depth >= 1 || scene.binding(j).retain_depth >= 1,
{
    reveal(Scene::input_of);
    model::first_fault_is_first(scene.sub_faults(), scene.subs().len());
    assert((scene.sub_faults())(j) is None);
    assert forall|k: int| 0 <= k < scene.subs().len() && k != j implies (
    #[trigger] scene.subs()[k]).instance@ != scene.subs()[j].instance@ || scene.subs()[k].port@
        != scene.subs()[j].port@ by {
        if k < j {
            assert(!scene.sub_repeats(j));
        } else {
            assert((scene.sub_faults())(k) is None);
            assert(!scene.sub_repeats(k));
            assert(scene.subs()[j].instance@ == scene.subs()[j].instance@);
        }
    }
}

/// An accepted output binding never lies on a plane only the kernel may publish, and lies on the
/// takeover plane only with the takeover grant.
pub proof fn accepted_outputs_respect_the_planes(scene: Scene, j: int)
    requires
        0 <= j < scene.outs().len(),
        model::first_fault(scene.out_faults(), scene.outs().len()) is None,
    ensures
        address::reserved_plane(scene.output(j).channel_address@) matches Some(plane)
            ==> ChannelScheme::Local.names(scene.output(j).channel_address@) ==> {
            &&& !plane.kernel_publish_only
            &&& plane.requires_takeover_grant ==> scene.policy.grants.contains(
                AppCapability::SurfaceTakeover,
            )
        },
{
    model::first_fault_is_first(scene.out_faults(), scene.outs().len());
    assert((scene.out_faults())(j) is None);
}

proof fn ask_is_recorded(scene: Scene, n: nat, j: int)
    requires
        0 <= j < n,
        scene.sub_channel(j) is Ok,
        ChannelScheme::Local.names(scene.sub_channel(j)->Ok_0@),
    ensures
        exists|k: int|
            0 <= k < scene.sub_asks(n).len() && #[trigger] scene.sub_asks(n)[k] == (
                scene.sub_channel(j)->Ok_0@,
                surface_rules::context_depth(
                    scene.sub_channel(j)->Ok_0@,
                    scene.subs()[j].retain_depth,
                ),
            ),
    decreases n,
{
    let m = (n - 1) as nat;
    if j < m {
        ask_is_recorded(scene, m, j);
        let k = choose|k: int|
            0 <= k < scene.sub_asks(m).len() && #[trigger] scene.sub_asks(m)[k] == (
                scene.sub_channel(j)->Ok_0@,
                surface_rules::context_depth(
                    scene.sub_channel(j)->Ok_0@,
                    scene.subs()[j].retain_depth,
                ),
            );
        assert(scene.sub_asks(n)[k] == scene.sub_asks(m)[k]);
    } else {
        assert(scene.sub_asks(n)[scene.sub_asks(m).len() as int] == (
            scene.sub_channel(j)->Ok_0@,
            surface_rules::context_depth(
                scene.sub_channel(j)->Ok_0@,
                scene.subs()[j].retain_depth,
            ),
        ));
    }
}

/// A page-local binding never reads deeper than the ring of its channel, whatever the other
/// bindings and outputs on the channel ask for.
pub proof fn no_binding_outreads_its_ring(scene: Scene, j: int)
    requires
        0 <= j < scene.subs().len(),
        model::first_fault(scene.sub_faults(), scene.subs().len()) is None,
        ChannelScheme::Local.names(scene.binding(j).channel_address@),
    ensures
        ({
            let kept = rings::rings_of(
                scene.sub_asks(scene.subs().len()) + scene.out_asks(scene.outs().len()),
            );
            &&& rings::depth_in(kept, scene.binding(j).channel_address@) matches Some(depth)
            &&& scene.binding(j).retain_depth <= depth
        }),
{
    reveal(Scene::input_of);
    model::first_fault_is_first(scene.sub_faults(), scene.subs().len());
    assert((scene.sub_faults())(j) is None);
    let subs = scene.sub_asks(scene.subs().len());
    let all = subs + scene.out_asks(scene.outs().len());
    ask_is_recorded(scene, scene.subs().len(), j);
    let k = choose|k: int|
        0 <= k < subs.len() && #[trigger] subs[k] == (
            scene.sub_channel(j)->Ok_0@,
            surface_rules::context_depth(
                scene.sub_channel(j)->Ok_0@,
                scene.subs()[j].retain_depth,
            ),
        );
    assert(all[k] == subs[k]);
    rings::rings_cover_the_deepest_binding(all);
}

/// A ring that no control plane fixes is at least one message deep: a component that attaches
/// late still sees the last message.
pub proof fn operator_rings_hold_the_last_message(channel: Seq<char>, retain_depth: Option<Depth>)
    requires
        address::reserved_plane(channel) is None,
    ensures
        surface_rules::context_depth(channel, retain_depth) >= 1,
{
}

/// An accepted surface has exactly one chrome component, distinct instance ids, and a publish
/// budget that runs dry no later than the bus's own; every instance with input bindings has one
/// that can activate it.
pub proof fn accepted_surfaces_are_whole(
    raw: SurfaceConfigRaw,
    entries: Seq<ChannelEntry>,
    globals: MessagingGlobalConfig,
    auto_wiring: AutoWiring,
    limits: SurfaceLimits,
)
    requires
        surfaces::surface_fault(raw, entries, globals, auto_wiring, limits) is None,
    ensures
        surface_scene::chrome_count(raw.components@) == 1,
        forall|i: int, j: int|
            0 <= i < j < raw.components@.len() ==> surface_rules::instance_of(
                #[trigger] raw.components@[i],
            )@ != surface_rules::instance_of(#[trigger] raw.components@[j])@,
        1 <= surfaces::publish_burst_of(raw, limits) <= globals.default_send_rate.burst,
        1 <= surfaces::publish_per_sec_of(raw, limits) <= globals.default_send_rate.refill,
        forall|j: int|
            0 <= j < raw.components@.len() ==> !surface_rules::never_activates(
                surface_scene::depths_of(
                    surfaces::scene_of(raw, entries, globals, auto_wiring).bindings(
                        surfaces::scene_of(raw, entries, globals, auto_wiring).subs().len(),
                    ),
                    surface_rules::instance_of(#[trigger] raw.components@[j])@,
                ),
            ),
{
    let scene = surfaces::scene_of(raw, entries, globals, auto_wiring);
    let n = raw.components@.len();
    model::first_fault_is_first(surfaces::component_faults(raw, limits), n);
    model::first_fault_is_first(surfaces::activation_faults(scene), n);
    assert forall|i: int, j: int| 0 <= i < j < raw.components@.len() implies surface_rules::instance_of(
        #[trigger] raw.components@[i],
    )@ != surface_rules::instance_of(#[trigger] raw.components@[j])@ by {
        assert((surfaces::component_faults(raw, limits))(j) is None);
        assert(surfaces::component_fault(raw, limits, j) is None);
    }
    assert forall|j: int| 0 <= j < raw.components@.len() implies !surface_rules::never_activates(
        surface_scene::depths_of(
            scene.bindings(scene.subs().len()),
            surface_rules::instance_of(#[trigger] raw.components@[j])@,
        ),
    ) by {
        assert((surfaces::activation_faults(scene))(j) is None);
        assert(surfaces::activation_fault(scene, j) is None);
    }
}

/// Whether `order` lists the places `0..n`, each once.
pub open spec fn is_order(order: Seq<int>, n: nat) -> bool {
    &&& order.len() == n
    &&& order.no_duplicates()
    &&& forall|i: int| 0 <= i < n ==> 0 <= #[trigger] order[i] < n
}

/// Whether `other` is `raw` with its subscriptions in another order: place `i` of `other` has the
/// one at place `order[i]` of `raw`.
pub open spec fn reordered(
    raw: SurfaceConfigRaw,
    other: SurfaceConfigRaw,
    order: Seq<int>,
) -> bool {
    &&& other == (SurfaceConfigRaw { subscriptions: other.subscriptions, ..raw })
    &&& other.subscriptions@.len() == raw.subscriptions@.len()
    &&& is_order(order, raw.subscriptions@.len())
    &&& forall|i: int|
        0 <= i < order.len() ==> #[trigger] other.subscriptions@[i] == raw.subscriptions@[order[i]]
}

proof fn every_place_is_listed(order: Seq<int>, n: nat, k: int)
    requires
        is_order(order, n),
        0 <= k < n,
    ensures
        exists|i: int| 0 <= i < n && #[trigger] order[i] == k,
{
    let listed = order.to_set();
    let places = vstd::set_lib::set_int_range(0, n as int);
    order.unique_seq_to_set();
    vstd::set_lib::lemma_int_range(0, n as int);
    assert(listed.subset_of(places)) by {
        assert forall|x: int| listed.contains(x) implies places.contains(x) by {
            let i = choose|i: int| 0 <= i < order.len() && order[i] == x;
            assert(0 <= order[i] < n);
        }
    }
    assert(listed.finite()) by {
        vstd::seq_lib::seq_to_set_is_finite(order);
    }
    vstd::set_lib::lemma_subset_equality(listed, places);
    assert(listed.contains(k));
    let i = choose|i: int| 0 <= i < order.len() && order[i] == k;
    assert(order[i] == k);
}

spec fn place_of(order: Seq<int>, k: int) -> int {
    choose|i: int| 0 <= i < order.len() && #[trigger] order[i] == k
}

spec fn undone(order: Seq<int>) -> Seq<int> {
    Seq::new(order.len(), |k: int| place_of(order, k))
}

proof fn an_order_can_be_undone(order: Seq<int>, n: nat)
    requires
        is_order(order, n),
    ensures
        is_order(undone(order), n),
        forall|k: int| 0 <= k < n ==> order[#[trigger] undone(order)[k]] == k,
{
    let back = undone(order);
    assert forall|k: int| 0 <= k < n implies 0 <= #[trigger] back[k] < n && order[back[k]] == k by {
        every_place_is_listed(order, n, k);
    }
    assert forall|i: int, j: int| 0 <= i < n && 0 <= j < n && i != j implies back[i] != back[j] by {
        assert(order[back[i]] == i);
        assert(order[back[j]] == j);
    }
}

proof fn reordering_back(raw: SurfaceConfigRaw, other: SurfaceConfigRaw, order: Seq<int>)
    requires
        reordered(raw, other, order),
    ensures
        reordered(other, raw, undone(order)),
{
    let n = raw.subscriptions@.len();
    an_order_can_be_undone(order, n);
    let back = undone(order);
    assert forall|k: int| 0 <= k < n implies #[trigger] raw.subscriptions@[k]
        == other.subscriptions@[back[k]] by {
        assert(0 <= back[k] < n);
        assert(order[back[k]] == k);
        assert(other.subscriptions@[back[k]] == raw.subscriptions@[order[back[k]]]);
    }
}

/// Whether the input bindings of `b` are those of `a` in the order `order`, all else being equal.
spec fn shuffled(a: Scene, b: Scene, order: Seq<int>) -> bool {
    &&& b.raw == (SurfaceConfigRaw { subscriptions: b.raw.subscriptions, ..a.raw })
    &&& b.entries == a.entries
    &&& b.globals == a.globals
    &&& b.ports == a.ports
    &&& b.policy == a.policy
    &&& b.subs().len() == a.subs().len()
    &&& b.outs() == a.outs()
    &&& is_order(order, a.subs().len())
    &&& forall|i: int| 0 <= i < order.len() ==> #[trigger] b.subs()[i] == a.subs()[order[i]]
}

spec fn whole_order(order: Seq<int>, total: nat) -> Seq<int> {
    Seq::new(
        total,
        |i: int|
            if i < order.len() {
                order[i]
            } else {
                i
            },
    )
}

proof fn reordering_shuffles(
    raw: SurfaceConfigRaw,
    other: SurfaceConfigRaw,
    order: Seq<int>,
    entries: Seq<ChannelEntry>,
    globals: MessagingGlobalConfig,
    auto_wiring: AutoWiring,
)
    requires
        reordered(raw, other, order),
    ensures
        shuffled(
            surfaces::scene_of(raw, entries, globals, auto_wiring),
            surfaces::scene_of(other, entries, globals, auto_wiring),
            whole_order(
                order,
                surfaces::scene_of(raw, entries, globals, auto_wiring).subs().len(),
            ),
        ),
{
    let a = surfaces::scene_of(raw, entries, globals, auto_wiring);
    let b = surfaces::scene_of(other, entries, globals, auto_wiring);
    let n = order.len() as int;
    let whole = whole_order(order, a.subs().len());
    assert(surface_scene::authored_policy(raw) == surface_scene::authored_policy(other));
    assert(b.outs() =~= a.outs());
    assert forall|i: int| 0 <= i < whole.len() implies 0 <= #[trigger] whole[i] < whole.len() by {
        if i < n {
            assert(0 <= order[i] < n);
        }
    }
    assert forall|i: int, j: int|
        0 <= i < whole.len() && 0 <= j < whole.len() && i != j implies whole[i] != whole[j] by {
        if i < n {
            assert(0 <= order[i] < n);
        }
        if j < n {
            assert(0 <= order[j] < n);
        }
    }
    assert forall|i: int| 0 <= i < whole.len() implies #[trigger] b.subs()[i]
        == a.subs()[whole[i]] by {
        if i < n {
            assert(0 <= order[i] < n);
            assert(other.subscriptions@[i] == raw.subscriptions@[order[i]]);
        }
    }
}

proof fn shuffled_bindings_are_the_same(a: Scene, b: Scene, order: Seq<int>, i: int)
    requires
        shuffled(a, b, order),
        0 <= i < order.len(),
    ensures
        0 <= order[i] < order.len(),
        b.subs()[i] == a.subs()[order[i]],
        b.sub_channel(i) == a.sub_channel(order[i]),
        b.knobs(i) == a.knobs(order[i]),
        b.wire_at(i) == a.wire_at(order[i]),
        b.binding(i) == a.binding(order[i]),
{
    reveal(Scene::input_of);
    assert(0 <= order[i] < a.subs().len());
    assert(b.subs()[i] == a.subs()[order[i]]);
}

/// Whether all bindings of one instance on one channel agree on their loudness.
pub open spec fn noise_agrees(scene: Scene, n: nat) -> bool {
    forall|j: int, k: int|
        0 <= j < n && 0 <= k < n && (#[trigger] scene.wire_at(j)) is Some && (
        #[trigger] scene.wire_at(k)) is Some && scene.wire_at(j)->0.channel_uuid
            == scene.wire_at(k)->0.channel_uuid && scene.subs()[j].instance@
            == scene.subs()[k].instance@ ==> scene.wire_at(j)->0.noise == scene.wire_at(k)->0.noise
}

/// A loudness conflict is found somewhere exactly where two bindings of one instance on one
/// channel disagree, whichever of them is declared first.
pub proof fn conflicts_are_disagreements(scene: Scene, n: nat)
    ensures
        (forall|j: int| 0 <= j < n ==> !(#[trigger] scene.noise_conflict(j))) <==> noise_agrees(
            scene,
            n,
        ),
    decreases n,
{
    if forall|j: int| 0 <= j < n ==> !(#[trigger] scene.noise_conflict(j)) {
        shared_subscriptions_fold_by_maximum(scene, n);
        let all = scene.wires(n);
        assert forall|j: int, k: int|
            0 <= j < n && 0 <= k < n && (#[trigger] scene.wire_at(j)) is Some && (
            #[trigger] scene.wire_at(k)) is Some && scene.wire_at(j)->0.channel_uuid
                == scene.wire_at(k)->0.channel_uuid && scene.subs()[j].instance@
                == scene.subs()[k].instance@ implies scene.wire_at(j)->0.noise == scene.wire_at(
            k,
        )->0.noise by {
            let x = choose|x: int| 0 <= x < all.len() && serves(scene, j, #[trigger] all[x]);
            let y = choose|y: int| 0 <= y < all.len() && serves(scene, k, #[trigger] all[y]);
            if x < y {
                assert(!is_for(all[x], all[y].instance@, all[y].subscription.channel_uuid));
            } else if y < x {
                assert(!is_for(all[y], all[x].instance@, all[x].subscription.channel_uuid));
            }
        }
    }
    if noise_agrees(scene, n) && n > 0 {
        let m = (n - 1) as nat;
        conflicts_are_disagreements(scene, m);
        assert(noise_agrees(scene, m));
        shared_subscriptions_fold_by_maximum(scene, m);
        if scene.noise_conflict(m as int) {
            let before = scene.wires(m);
            let wire = scene.wire_at(m as int)->0;
            let instance = scene.subs()[m as int].instance@;
            wire_position_is_first(before, instance, wire.channel_uuid);
            let p = surface_scene::wire_position(before, instance, wire.channel_uuid);
            assert(accounted(scene, m, before[p]));
            let k = choose|k: int|
                0 <= k < m && #[trigger] installs(
                    scene,
                    k,
                    before[p].instance@,
                    before[p].subscription.channel_uuid,
                ) && scene.wire_at(k)->0.push_depth == before[p].subscription.push_depth;
            assert(scene.wire_at(k) is Some);
            let x = choose|x: int| 0 <= x < before.len() && serves(scene, k, #[trigger] before[x]);
            if x < p {
                assert(!is_for(
                    before[x],
                    before[p].instance@,
                    before[p].subscription.channel_uuid,
                ));
            } else if p < x {
                assert(!is_for(
                    before[p],
                    before[x].instance@,
                    before[x].subscription.channel_uuid,
                ));
            }
            assert(scene.wire_at(k)->0.noise == wire.noise);
            assert(false);
        }
    }
}

proof fn shuffling_keeps_inputs(a: Scene, b: Scene, order: Seq<int>)
    requires
        shuffled(a, b, order),
        model::first_fault(a.sub_faults(), a.subs().len()) is None,
    ensures
        model::first_fault(b.sub_faults(), b.subs().len()) is None,
{
    let n = a.subs().len();
    model::first_fault_is_first(a.sub_faults(), n);
    model::first_fault_is_first(b.sub_faults(), n);
    assert forall|j: int| 0 <= j < n implies !(#[trigger] a.noise_conflict(j)) by {
        assert((a.sub_faults())(j) is None);
        assert(a.sub_fault(j) is None);
    }
    conflicts_are_disagreements(a, n);
    assert forall|j: int, k: int|
        0 <= j < n && 0 <= k < n && (#[trigger] b.wire_at(j)) is Some && (#[trigger] b.wire_at(
            k,
        )) is Some && b.wire_at(j)->0.channel_uuid == b.wire_at(k)->0.channel_uuid
            && b.subs()[j].instance@ == b.subs()[k].instance@ implies b.wire_at(j)->0.noise
        == b.wire_at(k)->0.noise by {
        shuffled_bindings_are_the_same(a, b, order, j);
        shuffled_bindings_are_the_same(a, b, order, k);
        assert(a.wire_at(order[j]) is Some && a.wire_at(order[k]) is Some);
    }
    conflicts_are_disagreements(b, n);
    assert forall|i: int| 0 <= i < n implies (#[trigger] (b.sub_faults())(i)) is None by {
        shuffled_bindings_are_the_same(a, b, order, i);
        let k = order[i];
        assert((a.sub_faults())(k) is None);
        assert(a.sub_fault(k) is None);
        assert(!b.noise_conflict(i));
        if b.sub_repeats(i) {
            let j = choose|j: int|
                0 <= j < i && (#[trigger] b.subs()[j]).instance@ == b.subs()[i].instance@
                    && b.subs()[j].port@ == b.subs()[i].port@;
            shuffled_bindings_are_the_same(a, b, order, j);
            accepted_inputs_can_deliver(a, k);
            assert(order[j] != order[i]);
            assert(a.subs()[order[j]].instance@ == a.subs()[k].instance@);
        }
        let channel = a.sub_channel(k)->Ok_0;
        let sub = a.subs()[k];
        assert(b.declares(sub.instance@) == a.declares(sub.instance@));
        assert(b.shape_fault(channel@, sub.instance@, sub.port@) == a.shape_fault(
            channel@,
            sub.instance@,
            sub.port@,
        ));
        assert(b.sub_fault(i) is None);
    }
}

proof fn depths_are_the_bindings(bindings: Seq<SurfaceBinding>, instance: Seq<char>)
    ensures
        forall|k: int|
            0 <= k < bindings.len() && (#[trigger] bindings[k]).instance@ == instance
                ==> surface_scene::depths_of(bindings, instance).contains(bindings[k].push_depth),
        forall|d: u64| #[trigger]
            surface_scene::depths_of(bindings, instance).contains(d) ==> exists|k: int|
                0 <= k < bindings.len() && (#[trigger] bindings[k]).instance@ == instance
                    && bindings[k].push_depth == d,
    decreases bindings.len(),
{
    if bindings.len() > 0 {
        let before = bindings.drop_last();
        let last = bindings.last();
        depths_are_the_bindings(before, instance);
        let old_depths = surface_scene::depths_of(before, instance);
        let depths = surface_scene::depths_of(bindings, instance);
        assert forall|k: int|
            0 <= k < bindings.len() && (#[trigger] bindings[k]).instance@
                == instance implies depths.contains(bindings[k].push_depth) by {
            if k < before.len() {
                assert(before[k] == bindings[k]);
                let i = choose|i: int|
                    0 <= i < old_depths.len() && old_depths[i] == bindings[k].push_depth;
                assert(depths[i] == old_depths[i]);
            } else {
                assert(depths[old_depths.len() as int] == last.push_depth);
            }
        }
        assert forall|d: u64| #[trigger] depths.contains(d) implies exists|k: int|
            0 <= k < bindings.len() && (#[trigger] bindings[k]).instance@ == instance
                && bindings[k].push_depth == d by {
            let i = choose|i: int| 0 <= i < depths.len() && depths[i] == d;
            if i < old_depths.len() {
                assert(old_depths[i] == d);
                assert(old_depths.contains(d));
                let k = choose|k: int|
                    0 <= k < before.len() && (#[trigger] before[k]).instance@ == instance
                        && before[k].push_depth == d;
                assert(bindings[k] == before[k]);
            } else {
                assert(bindings[before.len() as int] == last);
            }
        }
    }
}

proof fn shuffling_keeps_activation(a: Scene, b: Scene, order: Seq<int>, instance: Seq<char>)
    requires
        shuffled(a, b, order),
        surface_rules::never_activates(
            surface_scene::depths_of(b.bindings(b.subs().len()), instance),
        ),
    ensures
        surface_rules::never_activates(
            surface_scene::depths_of(a.bindings(a.subs().len()), instance),
        ),
{
    let n = a.subs().len();
    let ours = a.bindings(n);
    let theirs = b.bindings(n);
    let depths = surface_scene::depths_of(ours, instance);
    let others = surface_scene::depths_of(theirs, instance);
    depths_are_the_bindings(ours, instance);
    depths_are_the_bindings(theirs, instance);
    assert(others.contains(others[0]));
    let k = choose|k: int|
        0 <= k < theirs.len() && (#[trigger] theirs[k]).instance@ == instance
            && theirs[k].push_depth == others[0];
    shuffled_bindings_are_the_same(a, b, order, k);
    assert(ours[order[k]] == theirs[k]);
    assert(depths.contains(ours[order[k]].push_depth));
    assert forall|i: int| 0 <= i < depths.len() implies #[trigger] depths[i] == 0 by {
        assert(depths.contains(depths[i]));
        let m = choose|m: int|
            0 <= m < ours.len() && (#[trigger] ours[m]).instance@ == instance
                && ours[m].push_depth == depths[i];
        every_place_is_listed(order, n, m);
        let j = choose|j: int| 0 <= j < n && #[trigger] order[j] == m;
        shuffled_bindings_are_the_same(a, b, order, j);
        assert(theirs[j] == ours[m]);
        assert(others.contains(theirs[j].push_depth));
    }
}

proof fn reordering_keeps_acceptance(
    raw: SurfaceConfigRaw,
    other: SurfaceConfigRaw,
    order: Seq<int>,
    entries: Seq<ChannelEntry>,
    globals: MessagingGlobalConfig,
    auto_wiring: AutoWiring,
    limits: SurfaceLimits,
)
    requires
        reordered(raw, other, order),
        surfaces::surface_fault(raw, entries, globals, auto_wiring, limits) is None,
    ensures
        surfaces::surface_fault(other, entries, globals, auto_wiring, limits) is None,
{
    let a = surfaces::scene_of(raw, entries, globals, auto_wiring);
    let b = surfaces::scene_of(other, entries, globals, auto_wiring);
    let whole = whole_order(order, a.subs().len());
    let n = raw.components@.len();
    reordering_shuffles(raw, other, order, entries, globals, auto_wiring);
    shuffling_keeps_inputs(a, b, whole);
    assert forall|j: int| 0 <= j < n implies #[trigger] (surfaces::component_faults(
        raw,
        limits,
    ))(j) == (surfaces::component_faults(other, limits))(j) by {
        assert(surfaces::component_fault(raw, limits, j) == surfaces::component_fault(
            other,
            limits,
            j,
        ));
    }
    model::equal_checks_agree(
        surfaces::component_faults(raw, limits),
        surfaces::component_faults(other, limits),
        n,
    );
    model::first_fault_is_first(surfaces::activation_faults(a), n);
    model::first_fault_is_first(surfaces::activation_faults(b), n);
    assert forall|j: int| 0 <= j < n implies (#[trigger] (surfaces::activation_faults(
        b,
    ))(j)) is None by {
        assert((surfaces::activation_faults(a))(j) is None);
        assert(surfaces::activation_fault(a, j) is None);
        let instance = surface_rules::instance_of(raw.components@[j])@;
        if surface_rules::never_activates(
            surface_scene::depths_of(b.bindings(b.subs().len()), instance),
        ) {
            shuffling_keeps_activation(a, b, whole, instance);
        }
        assert(surfaces::activation_fault(b, j) is None);
    }
    assert forall|j: int| 0 <= j < a.outs().len() implies #[trigger] (a.out_faults())(j) == (
    b.out_faults())(j) by {
        let out = a.outs()[j];
        assert(b.outs()[j] == out);
        assert(b.out_channel(j) == a.out_channel(j));
        assert(b.out_repeats(j) == a.out_repeats(j));
        assert(b.declares(out.instance@) == a.declares(out.instance@));
        assert(b.out_fault(j) == a.out_fault(j));
    }
    model::equal_checks_agree(a.out_faults(), b.out_faults(), a.outs().len());
}

/// The window a list of subscriptions has for an instance on a channel: the depth of its queue,
/// the depth of its retention, and its loudness.
pub open spec fn window_of(
    list: Seq<ResolvedSurfaceSubscription>,
    instance: Seq<char>,
    uuid: u128,
) -> Option<(Depth, Depth, NoiseLevel)> {
    let i = surface_scene::wire_position(list, instance, uuid);
    if i < list.len() {
        Some(
            (
                list[i].subscription.push_depth,
                list[i].subscription.retain_depth,
                list[i].subscription.noise,
            ),
        )
    } else {
        None
    }
}

/// The depth of the ring a list of page-local channels has for an address.
pub open spec fn ring_of(list: Seq<ResolvedLocalChannel>, address: Seq<char>) -> Option<u64> {
    rings::depth_in(Seq::new(list.len(), |i: int| (list[i].address@, list[i].ring_depth)), address)
}

/// Whether two resolved surfaces have the same windows and the same rings.
pub open spec fn same_windows(one: ResolvedSurface, other: ResolvedSurface) -> bool {
    &&& forall|instance: Seq<char>, uuid: u128|
        #[trigger] window_of(one.wire_subscriptions@, instance, uuid) == window_of(
            other.wire_subscriptions@,
            instance,
            uuid,
        )
    &&& forall|address: Seq<char>|
        #[trigger] ring_of(one.local_channels@, address) == ring_of(other.local_channels@, address)
}

proof fn serving_place(scene: Scene, n: nat, k: int) -> (x: int)
    requires
        noise_agrees(scene, n),
        0 <= k < n,
        scene.wire_at(k) is Some,
    ensures
        0 <= x < scene.wires(n).len(),
        serves(scene, k, scene.wires(n)[x]),
{
    conflicts_are_disagreements(scene, n);
    shared_subscriptions_fold_by_maximum(scene, n);
    let all = scene.wires(n);
    choose|x: int| 0 <= x < all.len() && serves(scene, k, #[trigger] all[x])
}

proof fn places_differ(scene: Scene, n: nat, i: int, j: int)
    requires
        0 <= i < j < scene.wires(n).len(),
    ensures
        !is_for(
            scene.wires(n)[i],
            scene.wires(n)[j].instance@,
            scene.wires(n)[j].subscription.channel_uuid,
        ),
    decreases n,
{
    if n > 0 {
        let m = (n - 1) as nat;
        let before = scene.wires(m);
        if j < before.len() {
            places_differ(scene, m, i, j);
        }
        if let Some(wire) = scene.wire_at(m as int) {
            wire_position_is_first(before, scene.subs()[m as int].instance@, wire.channel_uuid);
        }
    }
}

proof fn place_serves(scene: Scene, n: nat, instance: Seq<char>, uuid: u128, k: int)
    requires
        noise_agrees(scene, n),
        0 <= k < n,
        installs(scene, k, instance, uuid),
    ensures
        surface_scene::wire_position(scene.wires(n), instance, uuid) < scene.wires(n).len(),
        serves(
            scene,
            k,
            scene.wires(n)[surface_scene::wire_position(scene.wires(n), instance, uuid)],
        ),
{
    let all = scene.wires(n);
    let p = surface_scene::wire_position(all, instance, uuid);
    let x = serving_place(scene, n, k);
    wire_position_is_first(all, instance, uuid);
    assert(is_for(all[x], instance, uuid));
    if p < x {
        places_differ(scene, n, p, x);
    }
}

proof fn place_is_accounted(scene: Scene, n: nat, instance: Seq<char>, uuid: u128)
    requires
        noise_agrees(scene, n),
        surface_scene::wire_position(scene.wires(n), instance, uuid) < scene.wires(n).len(),
    ensures
        ({
            let shared = scene.wires(n)[surface_scene::wire_position(
                scene.wires(n),
                instance,
                uuid,
            )];
            &&& is_for(shared, instance, uuid)
            &&& accounted(scene, n, shared)
        }),
{
    conflicts_are_disagreements(scene, n);
    shared_subscriptions_fold_by_maximum(scene, n);
    wire_position_is_first(scene.wires(n), instance, uuid);
}

/// Where the list has a window for an instance and channel, some binding asks for it and the
/// window is as wide as each binding on it, and as wide as one of them.
proof fn window_is_the_widest(scene: Scene, n: nat, instance: Seq<char>, uuid: u128)
    requires
        noise_agrees(scene, n),
    ensures
        window_of(scene.wires(n), instance, uuid) is Some <==> exists|k: int|
            0 <= k < n && #[trigger] installs(scene, k, instance, uuid),
        window_of(scene.wires(n), instance, uuid) matches Some(window) ==> {
            &&& forall|k: int|
                0 <= k < n && #[trigger] installs(scene, k, instance, uuid) ==> window.0.wider(
                    scene.wire_at(k)->0.push_depth,
                ) == window.0 && window.1.wider(scene.wire_at(k)->0.retain_depth) == window.1
                    && window.2 == scene.wire_at(k)->0.noise
            &&& exists|k: int|
                0 <= k < n && #[trigger] installs(scene, k, instance, uuid) && scene.wire_at(
                    k,
                )->0.push_depth == window.0
            &&& exists|k: int|
                0 <= k < n && #[trigger] installs(scene, k, instance, uuid) && scene.wire_at(
                    k,
                )->0.retain_depth == window.1
        },
{
    let p = surface_scene::wire_position(scene.wires(n), instance, uuid);
    assert forall|k: int| 0 <= k < n && #[trigger] installs(scene, k, instance, uuid) implies p
        < scene.wires(n).len() && serves(scene, k, scene.wires(n)[p]) by {
        place_serves(scene, n, instance, uuid, k);
    }
    if p < scene.wires(n).len() {
        place_is_accounted(scene, n, instance, uuid);
        let shared = scene.wires(n)[p];
        let kp = choose|k: int|
            0 <= k < n && #[trigger] installs(
                scene,
                k,
                shared.instance@,
                shared.subscription.channel_uuid,
            ) && scene.wire_at(k)->0.push_depth == shared.subscription.push_depth;
        let kr = choose|k: int|
            0 <= k < n && #[trigger] installs(
                scene,
                k,
                shared.instance@,
                shared.subscription.channel_uuid,
            ) && scene.wire_at(k)->0.retain_depth == shared.subscription.retain_depth;
        assert(installs(scene, kp, instance, uuid));
        assert(installs(scene, kr, instance, uuid));
    }
}

proof fn shuffling_keeps_windows(
    a: Scene,
    b: Scene,
    order: Seq<int>,
    instance: Seq<char>,
    uuid: u128,
)
    requires
        shuffled(a, b, order),
        noise_agrees(a, a.subs().len()),
        noise_agrees(b, b.subs().len()),
    ensures
        window_of(a.wires(a.subs().len()), instance, uuid) == window_of(
            b.wires(b.subs().len()),
            instance,
            uuid,
        ),
{
    let n = a.subs().len();
    window_is_the_widest(a, n, instance, uuid);
    window_is_the_widest(b, n, instance, uuid);
    assert forall|i: int| 0 <= i < n implies 0 <= order[i] < n && #[trigger] installs(
        b,
        i,
        instance,
        uuid,
    ) == installs(a, order[i], instance, uuid) && b.wire_at(i) == a.wire_at(order[i]) by {
        shuffled_bindings_are_the_same(a, b, order, i);
    }
    assert forall|k: int| 0 <= k < n && #[trigger] installs(a, k, instance, uuid) implies exists|
        i: int,
    | 0 <= i < n && order[i] == k && #[trigger] installs(b, i, instance, uuid) by {
        every_place_is_listed(order, n, k);
        let i = choose|i: int| 0 <= i < n && #[trigger] order[i] == k;
        assert(installs(b, i, instance, uuid) == installs(a, order[i], instance, uuid));
    }
    let ours = window_of(a.wires(n), instance, uuid);
    let theirs = window_of(b.wires(n), instance, uuid);
    if ours is Some {
        let k = choose|k: int| 0 <= k < n && #[trigger] installs(a, k, instance, uuid);
        let i = choose|i: int|
            0 <= i < n && order[i] == k && #[trigger] installs(b, i, instance, uuid);
        assert(theirs is Some);
    }
    if theirs is Some {
        let i = choose|i: int| 0 <= i < n && #[trigger] installs(b, i, instance, uuid);
        assert(installs(a, order[i], instance, uuid));
        assert(ours is Some);
        let x = ours->0;
        let y = theirs->0;
        let kp = choose|k: int|
            0 <= k < n && #[trigger] installs(a, k, instance, uuid) && a.wire_at(k)->0.push_depth
                == x.0;
        let ip = choose|i: int|
            0 <= i < n && order[i] == kp && #[trigger] installs(b, i, instance, uuid);
        assert(b.wire_at(ip) == a.wire_at(order[ip]));
        assert(y.0.wider(x.0) == y.0);
        let kr = choose|k: int|
            0 <= k < n && #[trigger] installs(a, k, instance, uuid) && a.wire_at(k)->0.retain_depth
                == x.1;
        let ir = choose|i: int|
            0 <= i < n && order[i] == kr && #[trigger] installs(b, i, instance, uuid);
        assert(b.wire_at(ir) == a.wire_at(order[ir]));
        assert(y.1.wider(x.1) == y.1);
        let jp = choose|i: int|
            0 <= i < n && #[trigger] installs(b, i, instance, uuid) && b.wire_at(i)->0.push_depth
                == y.0;
        assert(installs(a, order[jp], instance, uuid));
        assert(x.0.wider(y.0) == x.0);
        let jr = choose|i: int|
            0 <= i < n && #[trigger] installs(b, i, instance, uuid) && b.wire_at(i)->0.retain_depth
                == y.1;
        assert(installs(a, order[jr], instance, uuid));
        assert(x.1.wider(y.1) == x.1);
        model::widening_is_a_maximum(x.0, y.0, x.0);
        model::widening_is_a_maximum(x.1, y.1, x.1);
        assert(b.wire_at(i) == a.wire_at(order[i]));
        assert(x.2 == y.2);
    }
}

proof fn asks_come_from_bindings(scene: Scene, n: nat, k: int)
    requires
        0 <= k < scene.sub_asks(n).len(),
    ensures
        exists|j: int|
            0 <= j < n && (#[trigger] scene.sub_channel(j)) is Ok && ChannelScheme::Local.names(
                scene.sub_channel(j)->Ok_0@,
            ) && scene.sub_asks(n)[k] == (
                scene.sub_channel(j)->Ok_0@,
                surface_rules::context_depth(
                    scene.sub_channel(j)->Ok_0@,
                    scene.subs()[j].retain_depth,
                ),
            ),
    decreases n,
{
    let m = (n - 1) as nat;
    if n > 0 {
        if k < scene.sub_asks(m).len() {
            asks_come_from_bindings(scene, m, k);
            assert(scene.sub_asks(n)[k] == scene.sub_asks(m)[k]);
        } else {
            assert(scene.sub_channel(m as int) is Ok);
        }
    }
}

proof fn shuffling_keeps_asks(a: Scene, b: Scene, order: Seq<int>, ask: (Seq<char>, u64))
    requires
        shuffled(a, b, order),
        b.sub_asks(b.subs().len()).contains(ask),
    ensures
        a.sub_asks(a.subs().len()).contains(ask),
{
    let n = a.subs().len();
    let theirs = b.sub_asks(n);
    let k = choose|k: int| 0 <= k < theirs.len() && theirs[k] == ask;
    asks_come_from_bindings(b, n, k);
    let j = choose|j: int|
        0 <= j < n && (#[trigger] b.sub_channel(j)) is Ok && ChannelScheme::Local.names(
            b.sub_channel(j)->Ok_0@,
        ) && theirs[k] == (
            b.sub_channel(j)->Ok_0@,
            surface_rules::context_depth(b.sub_channel(j)->Ok_0@, b.subs()[j].retain_depth),
        );
    shuffled_bindings_are_the_same(a, b, order, j);
    ask_is_recorded(a, n, order[j]);
}

proof fn equal_asks_make_equal_rings(
    some: Seq<(Seq<char>, u64)>,
    others: Seq<(Seq<char>, u64)>,
    address: Seq<char>,
)
    requires
        forall|ask: (Seq<char>, u64)| some.contains(ask) <==> #[trigger] others.contains(ask),
    ensures
        rings::depth_in(rings::rings_of(some), address) == rings::depth_in(
            rings::rings_of(others),
            address,
        ),
{
    rings::deepest_ask_is_the_ring(some, address);
    rings::deepest_ask_is_the_ring(others, address);
    let x = rings::depth_in(rings::rings_of(some), address);
    let y = rings::depth_in(rings::rings_of(others), address);
    if x is Some {
        assert(others.contains((address, x->0)));
    }
    if y is Some {
        assert(some.contains((address, y->0)));
    }
}

proof fn listed_rings_are_the_rings(
    channels: Seq<ResolvedLocalChannel>,
    list: Seq<(Seq<char>, u64)>,
    address: Seq<char>,
)
    requires
        rings::lists_rings(channels, list),
    ensures
        ring_of(channels, address) == rings::depth_in(list, address),
{
    assert(Seq::new(channels.len(), |i: int| (channels[i].address@, channels[i].ring_depth))
        =~= list);
}

proof fn reordering_keeps_windows(
    raw: SurfaceConfigRaw,
    other: SurfaceConfigRaw,
    order: Seq<int>,
    entries: Seq<ChannelEntry>,
    globals: MessagingGlobalConfig,
    auto_wiring: AutoWiring,
    limits: SurfaceLimits,
    one: ResolvedSurface,
    two: ResolvedSurface,
)
    requires
        reordered(raw, other, order),
        surfaces::surface_fault(raw, entries, globals, auto_wiring, limits) is None,
        surfaces::surface_fault(other, entries, globals, auto_wiring, limits) is None,
        surfaces::surface_resolved(raw, entries, globals, auto_wiring, limits, one),
        surfaces::surface_resolved(other, entries, globals, auto_wiring, limits, two),
    ensures
        same_windows(one, two),
{
    let a = surfaces::scene_of(raw, entries, globals, auto_wiring);
    let b = surfaces::scene_of(other, entries, globals, auto_wiring);
    let n = a.subs().len();
    let whole = whole_order(order, n);
    let back = whole_order(undone(order), n);
    reordering_back(raw, other, order);
    reordering_shuffles(raw, other, order, entries, globals, auto_wiring);
    reordering_shuffles(other, raw, undone(order), entries, globals, auto_wiring);
    accepted_inputs_agree(a);
    accepted_inputs_agree(b);
    assert forall|instance: Seq<char>, uuid: u128|
        #[trigger] window_of(one.wire_subscriptions@, instance, uuid) == window_of(
            two.wire_subscriptions@,
            instance,
            uuid,
        ) by {
        shuffling_keeps_windows(a, b, whole, instance, uuid);
    }
    let outs = a.out_asks(a.outs().len());
    outputs_ask_the_same(a, b, whole, a.outs().len());
    let ours = a.sub_asks(n) + outs;
    let theirs = b.sub_asks(n) + outs;
    assert forall|ask: (Seq<char>, u64)| ours.contains(ask) <==> #[trigger] theirs.contains(
        ask,
    ) by {
        in_either(a.sub_asks(n), outs, ask);
        in_either(b.sub_asks(n), outs, ask);
        if a.sub_asks(n).contains(ask) {
            shuffling_keeps_asks(b, a, back, ask);
        }
        if b.sub_asks(n).contains(ask) {
            shuffling_keeps_asks(a, b, whole, ask);
        }
    }
    assert forall|address: Seq<char>|
        #[trigger] ring_of(one.local_channels@, address) == ring_of(
            two.local_channels@,
            address,
        ) by {
        equal_asks_make_equal_rings(ours, theirs, address);
        listed_rings_are_the_rings(one.local_channels@, rings::rings_of(ours), address);
        listed_rings_are_the_rings(two.local_channels@, rings::rings_of(theirs), address);
    }
}

proof fn in_either(some: Seq<(Seq<char>, u64)>, more: Seq<(Seq<char>, u64)>, ask: (Seq<char>, u64))
    ensures
        (some + more).contains(ask) <==> some.contains(ask) || more.contains(ask),
{
    let all = some + more;
    if all.contains(ask) {
        let k = choose|k: int| 0 <= k < all.len() && all[k] == ask;
        if k < some.len() {
            assert(some[k] == ask);
        } else {
            assert(more[k - some.len()] == ask);
        }
    }
    if some.contains(ask) {
        let k = choose|k: int| 0 <= k < some.len() && some[k] == ask;
        assert(all[k] == ask);
    }
    if more.contains(ask) {
        let k = choose|k: int| 0 <= k < more.len() && more[k] == ask;
        assert(all[some.len() + k] == ask);
    }
}

proof fn outputs_ask_the_same(a: Scene, b: Scene, order: Seq<int>, n: nat)
    requires
        shuffled(a, b, order),
        n <= a.outs().len(),
    ensures
        a.out_asks(n) == b.out_asks(n),
    decreases n,
{
    if n > 0 {
        outputs_ask_the_same(a, b, order, (n - 1) as nat);
        assert(b.out_channel(n - 1) == a.out_channel(n - 1));
    }
}

proof fn accepted_inputs_agree(scene: Scene)
    requires
        model::first_fault(scene.sub_faults(), scene.subs().len()) is None,
    ensures
        noise_agrees(scene, scene.subs().len()),
{
    let n = scene.subs().len();
    model::first_fault_is_first(scene.sub_faults(), n);
    assert forall|j: int| 0 <= j < n implies !(#[trigger] scene.noise_conflict(j)) by {
        assert((scene.sub_faults())(j) is None);
        assert(scene.sub_fault(j) is None);
    }
    conflicts_are_disagreements(scene, n);
}

spec fn all_reordered(
    raws: Seq<SurfaceConfigRaw>,
    others: Seq<SurfaceConfigRaw>,
    orders: Seq<Seq<int>>,
) -> bool {
    &&& others.len() == raws.len()
    &&& orders.len() == raws.len()
    &&& forall|s: int|
        0 <= s < raws.len() ==> reordered(raws[s], others[s], #[trigger] orders[s])
}

proof fn reordered_slugs_are_the_same(
    raws: Seq<SurfaceConfigRaw>,
    others: Seq<SurfaceConfigRaw>,
    orders: Seq<Seq<int>>,
)
    requires
        all_reordered(raws, others, orders),
    ensures
        model::first_fault(surfaces::slug_faults(raws), raws.len()) == model::first_fault(
            surfaces::slug_faults(others),
            others.len(),
        ),
{
    let n = raws.len();
    assert forall|s: int| 0 <= s < n implies (#[trigger] raws[s]).slug == others[s].slug by {
        assert(reordered(raws[s], others[s], orders[s]));
    }
    assert forall|s: int| 0 <= s < n implies #[trigger] (surfaces::slug_faults(raws))(s) == (
    surfaces::slug_faults(others))(s) by {
        assert(raws[s].slug == others[s].slug);
        if exists|k: int| 0 <= k < s && (#[trigger] raws[k]).slug@ == raws[s].slug@ {
            let k = choose|k: int| 0 <= k < s && (#[trigger] raws[k]).slug@ == raws[s].slug@;
            assert(others[k].slug@ == others[s].slug@);
        }
        if exists|k: int| 0 <= k < s && (#[trigger] others[k]).slug@ == others[s].slug@ {
            let k = choose|k: int| 0 <= k < s && (#[trigger] others[k]).slug@ == others[s].slug@;
            assert(raws[k].slug@ == raws[s].slug@);
        }
        assert(surfaces::slug_fault(raws, s) == surfaces::slug_fault(others, s));
    }
    model::equal_checks_agree(surfaces::slug_faults(raws), surfaces::slug_faults(others), n);
}

proof fn reordering_decides_nothing(
    raw: SurfaceConfigRaw,
    other: SurfaceConfigRaw,
    order: Seq<int>,
    entries: Seq<ChannelEntry>,
    globals: MessagingGlobalConfig,
    auto_wiring: AutoWiring,
    limits: SurfaceLimits,
)
    requires
        reordered(raw, other, order),
    ensures
        surfaces::surface_fault(raw, entries, globals, auto_wiring, limits) is None
            <==> surfaces::surface_fault(other, entries, globals, auto_wiring, limits) is None,
{
    reordering_back(raw, other, order);
    if surfaces::surface_fault(raw, entries, globals, auto_wiring, limits) is None {
        reordering_keeps_acceptance(raw, other, order, entries, globals, auto_wiring, limits);
    }
    if surfaces::surface_fault(other, entries, globals, auto_wiring, limits) is None {
        reordering_keeps_acceptance(
            other,
            raw,
            undone(order),
            entries,
            globals,
            auto_wiring,
            limits,
        );
    }
}

proof fn reordered_surfaces_are_accepted_alike(
    raws: Seq<SurfaceConfigRaw>,
    others: Seq<SurfaceConfigRaw>,
    orders: Seq<Seq<int>>,
    entries: Seq<ChannelEntry>,
    globals: MessagingGlobalConfig,
    auto_wiring: AutoWiring,
    limits: SurfaceLimits,
)
    requires
        all_reordered(raws, others, orders),
    ensures
        model::first_fault(
            surfaces::surface_faults(raws, entries, globals, auto_wiring, limits),
            raws.len(),
        ) is None <==> model::first_fault(
            surfaces::surface_faults(others, entries, globals, auto_wiring, limits),
            others.len(),
        ) is None,
{
    let n = raws.len();
    let faults = surfaces::surface_faults(raws, entries, globals, auto_wiring, limits);
    let other_faults = surfaces::surface_faults(others, entries, globals, auto_wiring, limits);
    assert forall|s: int| 0 <= s < n implies (#[trigger] faults(s) is None) == (other_faults(
        s,
    ) is None) by {
        assert(reordered(raws[s], others[s], orders[s]));
        reordering_decides_nothing(
            raws[s],
            others[s],
            orders[s],
            entries,
            globals,
            auto_wiring,
            limits,
        );
    }
    faults_found_alike(faults, other_faults, n);
}

proof fn faults_found_alike(
    faults: spec_fn(int) -> Option<(nat, SurfaceFaultKind)>,
    others: spec_fn(int) -> Option<(nat, SurfaceFaultKind)>,
    n: nat,
)
    requires
        forall|s: int| 0 <= s < n ==> (#[trigger] faults(s) is None) == (others(s) is None),
    ensures
        model::first_fault(faults, n) is None <==> model::first_fault(others, n) is None,
    decreases n,
{
    if n > 0 {
        faults_found_alike(faults, others, (n - 1) as nat);
        assert((faults(n - 1) is None) == (others(n - 1) is None));
    }
}

proof fn reordered_surfaces_have_the_same_windows(
    raws: Seq<SurfaceConfigRaw>,
    others: Seq<SurfaceConfigRaw>,
    orders: Seq<Seq<int>>,
    entries: Seq<ChannelEntry>,
    globals: MessagingGlobalConfig,
    auto_wiring: AutoWiring,
    limits: SurfaceLimits,
    list: Seq<ResolvedSurface>,
    other_list: Seq<ResolvedSurface>,
)
    requires
        all_reordered(raws, others, orders),
        model::first_fault(
            surfaces::surface_faults(raws, entries, globals, auto_wiring, limits),
            raws.len(),
        ) is None,
        model::first_fault(
            surfaces::surface_faults(others, entries, globals, auto_wiring, limits),
            others.len(),
        ) is None,
        list.len() == raws.len(),
        other_list.len() == raws.len(),
        forall|s: int|
            0 <= s < list.len() ==> surfaces::surface_resolved(
                raws[s],
                entries,
                globals,
                auto_wiring,
                limits,
                #[trigger] list[s],
            ),
        forall|s: int|
            0 <= s < other_list.len() ==> surfaces::surface_resolved(
                others[s],
                entries,
                globals,
                auto_wiring,
                limits,
                #[trigger] other_list[s],
            ),
    ensures
        forall|s: int| 0 <= s < raws.len() ==> same_windows(#[trigger] list[s], other_list[s]),
{
    let n = raws.len();
    let faults = surfaces::surface_faults(raws, entries, globals, auto_wiring, limits);
    let other_faults = surfaces::surface_faults(others, entries, globals, auto_wiring, limits);
    model::first_fault_is_first(faults, n);
    model::first_fault_is_first(other_faults, n);
    assert forall|s: int| 0 <= s < n implies same_windows(#[trigger] list[s], other_list[s]) by {
        assert(reordered(raws[s], others[s], orders[s]));
        assert(faults(s) is None);
        assert(other_faults(s) is None);
        assert(surfaces::surface_resolved(
            others[s],
            entries,
            globals,
            auto_wiring,
            limits,
            other_list[s],
        ));
        reordering_keeps_windows(
            raws[s],
            others[s],
            orders[s],
            entries,
            globals,
            auto_wiring,
            limits,
            list[s],
            other_list[s],
        );
    }
}

/// The order in which surfaces declare their subscriptions decides nothing: with the
/// subscriptions of each surface in any other order, the surfaces are accepted or refused alike,
/// and where they are accepted each has the same window for every instance and channel and the
/// same ring for every page-local address.
pub proof fn the_order_of_subscriptions_decides_nothing(
    raws: Seq<SurfaceConfigRaw>,
    others: Seq<SurfaceConfigRaw>,
    orders: Seq<Seq<int>>,
    entries: Seq<ChannelEntry>,
    globals: MessagingGlobalConfig,
    auto_wiring: AutoWiring,
    limits: SurfaceLimits,
    resolved: Result<Vec<ResolvedSurface>, SurfaceFault>,
    other_resolved: Result<Vec<ResolvedSurface>, SurfaceFault>,
)
    requires
        others.len() == raws.len(),
        orders.len() == raws.len(),
        forall|s: int|
            0 <= s < raws.len() ==> reordered(raws[s], others[s], #[trigger] orders[s]),
        surfaces::surfaces_outcome(raws, entries, globals, auto_wiring, limits, resolved),
        surfaces::surfaces_outcome(others, entries, globals, auto_wiring, limits, other_resolved),
    ensures
        resolved is Ok <==> other_resolved is Ok,
        resolved is Ok && other_resolved is Ok ==> forall|s: int|
            0 <= s < raws.len() ==> same_windows(
                #[trigger] resolved->Ok_0@[s],
                other_resolved->Ok_0@[s],
            ),
{
    reordered_slugs_are_the_same(raws, others, orders);
    reordered_surfaces_are_accepted_alike(
        raws,
        others,
        orders,
        entries,
        globals,
        auto_wiring,
        limits,
    );
    if resolved is Ok && other_resolved is Ok {
        reordered_surfaces_have_the_same_windows(
            raws,
            others,
            orders,
            entries,
            globals,
            auto_wiring,
            limits,
            resolved->Ok_0@,
            other_resolved->Ok_0@,
        );
    }
}

proof fn output_asks_come_from_outputs(scene: Scene, n: nat, k: int)
    requires
        0 <= k < scene.out_asks(n).len(),
    ensures
        exists|j: int|
            0 <= j < n && (#[trigger] scene.out_channel(j)) is Ok && ChannelScheme::Local.names(
                scene.out_channel(j)->Ok_0@,
            ) && scene.out_asks(n)[k].0 == scene.out_channel(j)->Ok_0@ && scene.out_asks(n)[k].1
                == surface_rules::context_depth(scene.out_asks(n)[k].0, None),
    decreases n,
{
    if n > 0 {
        let before = scene.out_asks((n - 1) as nat);
        if k < before.len() {
            output_asks_come_from_outputs(scene, (n - 1) as nat, k);
            assert(scene.out_asks(n)[k] == before[k]);
        } else {
            assert(scene.out_channel(n - 1) is Ok);
        }
    }
}

proof fn output_ask_is_recorded(scene: Scene, n: nat, j: int)
    requires
        0 <= j < n,
        scene.out_channel(j) is Ok,
        ChannelScheme::Local.names(scene.out_channel(j)->Ok_0@),
    ensures
        scene.out_asks(n).contains(
            (
                scene.out_channel(j)->Ok_0@,
                surface_rules::context_depth(scene.out_channel(j)->Ok_0@, None),
            ),
        ),
    decreases n,
{
    let ask = (
        scene.out_channel(j)->Ok_0@,
        surface_rules::context_depth(scene.out_channel(j)->Ok_0@, None),
    );
    let before = scene.out_asks((n - 1) as nat);
    let after = scene.out_asks(n);
    if j == n - 1 {
        assert(after[before.len() as int] == ask);
    } else {
        output_ask_is_recorded(scene, (n - 1) as nat, j);
        let k = choose|k: int| 0 <= k < before.len() && before[k] == ask;
        assert(after[k] == ask);
    }
}

/// A page keeps no ring for nothing and none deeper than asked: every ring is as deep as the
/// context of some input on its channel, or as an output on its channel asks for without one.
pub proof fn every_ring_has_its_asker(scene: Scene, i: int)
    requires
        0 <= i < rings::rings_of(
            scene.sub_asks(scene.subs().len()) + scene.out_asks(scene.outs().len()),
        ).len(),
    ensures
        ({
            let ring = rings::rings_of(
                scene.sub_asks(scene.subs().len()) + scene.out_asks(scene.outs().len()),
            )[i];
            ||| exists|j: int|
                0 <= j < scene.subs().len() && (#[trigger] scene.sub_channel(j)) is Ok
                    && scene.sub_channel(j)->Ok_0@ == ring.0 && ring.1
                    == surface_rules::context_depth(ring.0, scene.subs()[j].retain_depth)
            ||| exists|j: int|
                0 <= j < scene.outs().len() && (#[trigger] scene.out_channel(j)) is Ok
                    && scene.out_channel(j)->Ok_0@ == ring.0 && ring.1
                    == surface_rules::context_depth(ring.0, None)
        }),
{
    let subs = scene.sub_asks(scene.subs().len());
    let outs = scene.out_asks(scene.outs().len());
    let asked = subs + outs;
    rings::rings_cover_the_deepest_binding(asked);
    let ring = rings::rings_of(asked)[i];
    let k = choose|k: int| 0 <= k < asked.len() && asked[k] == ring;
    if k < subs.len() {
        asks_come_from_bindings(scene, scene.subs().len(), k);
        assert(subs[k] == ring);
    } else {
        output_asks_come_from_outputs(scene, scene.outs().len(), k - subs.len());
        assert(outs[k - subs.len()] == ring);
    }
}

/// Every page-local output has a ring on its channel, at least as deep as a control plane's own
/// ring there, or as one message elsewhere.
pub proof fn page_outputs_have_a_ring(scene: Scene, j: int)
    requires
        0 <= j < scene.outs().len(),
        scene.out_channel(j) is Ok,
        ChannelScheme::Local.names(scene.out_channel(j)->Ok_0@),
    ensures
        ({
            let channel = scene.out_channel(j)->Ok_0@;
            let kept = rings::rings_of(
                scene.sub_asks(scene.subs().len()) + scene.out_asks(scene.outs().len()),
            );
            &&& rings::depth_in(kept, channel) matches Some(depth)
            &&& address::reserved_plane(channel) is None ==> depth >= 1
            &&& address::reserved_plane(channel) matches Some(plane) ==> depth >= plane.ring_depth
        }),
{
    let subs = scene.sub_asks(scene.subs().len());
    let outs = scene.out_asks(scene.outs().len());
    let asked = subs + outs;
    let channel = scene.out_channel(j)->Ok_0@;
    let ask = (channel, surface_rules::context_depth(channel, None));
    output_ask_is_recorded(scene, scene.outs().len(), j);
    let k = choose|k: int| 0 <= k < outs.len() && outs[k] == ask;
    assert(asked[subs.len() + k] == ask);
    rings::rings_cover_the_deepest_binding(asked);
}

/// An accepted component is activated where it reads at all: if some input has its instance id,
/// some input with its instance id has a queue. That is the only thing the check asks.
pub proof fn a_reading_component_has_a_queue(scene: Scene, j: int, id: Seq<char>)
    requires
        0 <= j < scene.raw.components@.len(),
        scene.raw.components@[j].instance matches Some(own) ==> id == own@,
        scene.raw.components@[j].instance is None ==> id == scene.raw.components@[j].kind@,
    ensures
        surfaces::activation_fault(scene, j) is None <==> ((exists|k: int|
            0 <= k < scene.subs().len() && (#[trigger] scene.binding(k)).instance@ == id) ==> exists|
            k: int,
        |
            0 <= k < scene.subs().len() && (#[trigger] scene.binding(k)).instance@ == id
                && scene.binding(k).push_depth > 0),
        surfaces::activation_fault(scene, j) is Some ==> surfaces::activation_fault(scene, j)
            == Some(SurfaceFaultKind::CannotActivate),
{
    let bindings = scene.bindings(scene.subs().len());
    let depths = surface_scene::depths_of(bindings, id);
    depths_are_the_bindings(bindings, id);
    assert forall|k: int| 0 <= k < scene.subs().len() implies bindings[k] == (
    #[trigger] scene.binding(k)) by {}
    if surface_rules::never_activates(depths) {
        assert(depths.contains(depths[0]));
        let k = choose|k: int|
            0 <= k < bindings.len() && (#[trigger] bindings[k]).instance@ == id
                && bindings[k].push_depth == depths[0];
        assert(scene.binding(k).instance@ == id);
        assert forall|k: int|
            0 <= k < scene.subs().len() && (#[trigger] scene.binding(k)).instance@ == id implies
            scene.binding(k).push_depth == 0 by {
            assert(depths.contains(bindings[k].push_depth));
        }
    } else if exists|k: int|
        0 <= k < scene.subs().len() && (#[trigger] scene.binding(k)).instance@ == id {
        let k = choose|k: int|
            0 <= k < scene.subs().len() && (#[trigger] scene.binding(k)).instance@ == id;
        assert(depths.contains(bindings[k].push_depth));
        let d = choose|d: int| 0 <= d < depths.len() && depths[d] != 0;
        assert(depths.contains(depths[d]));
        let m = choose|m: int|
            0 <= m < bindings.len() && (#[trigger] bindings[m]).instance@ == id
                && bindings[m].push_depth == depths[d];
        assert(scene.binding(m).push_depth > 0);
    }
}

} // verus!
