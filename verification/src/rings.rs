//! The page-local rings of one surface, kept in the order their channels were first bound.

use indexmap::IndexMap;
use vstd::prelude::*;
use vstd::string::*;

verus! {

/// The insertion-ordered map of the `indexmap` crate.
#[verifier::external_type_specification]
#[verifier::external_body]
#[verifier::reject_recursive_types(K)]
#[verifier::reject_recursive_types(V)]
#[verifier::reject_recursive_types(S)]
pub struct ExIndexMap<K, V, S>(indexmap::IndexMap<K, V, S>);

/// The address and depth of every ring, in the order in which the addresses were first inserted.
pub uninterp spec fn ring_list(rings: IndexMap<String, u64>) -> Seq<(Seq<char>, u64)>;

/// The position of `address` in a list of rings, or the list's length where it is not there.
pub open spec fn position(list: Seq<(Seq<char>, u64)>, address: Seq<char>) -> int
    decreases list.len(),
{
    if list.len() == 0 {
        0
    } else if list[0].0 == address {
        0
    } else {
        1 + position(list.drop_first(), address)
    }
}

/// The list with `address` at `depth`: in its place where it is listed, at the end otherwise.
pub open spec fn with_ring(
    list: Seq<(Seq<char>, u64)>,
    address: Seq<char>,
    depth: u64,
) -> Seq<(Seq<char>, u64)> {
    let i = position(list, address);
    if i < list.len() {
        list.update(i, (address, depth))
    } else {
        list.push((address, depth))
    }
}

/// The depth a list has for `address`.
pub open spec fn depth_in(list: Seq<(Seq<char>, u64)>, address: Seq<char>) -> Option<u64> {
    let i = position(list, address);
    if i < list.len() {
        Some(list[i].1)
    } else {
        None
    }
}

/// `IndexMap::new`: the map has no entry.
#[verifier::external_body]
pub(crate) fn no_rings() -> (rings: IndexMap<String, u64>)
    ensures
        ring_list(rings) == Seq::<(Seq<char>, u64)>::empty(),
{
    IndexMap::new()
}

/// `IndexMap::get`: the value kept under the key, where the map has the key.
#[verifier::external_body]
fn kept_depth(rings: &IndexMap<String, u64>, address: &str) -> (depth: Option<u64>)
    ensures
        depth == depth_in(ring_list(*rings), address@),
{
    rings.get(address).copied()
}

/// `IndexMap::insert`: a key the map has keeps its place and takes the new value, a key it does
/// not have goes last.
#[verifier::external_body]
pub(crate) fn keep_depth(rings: &mut IndexMap<String, u64>, address: String, depth: u64)
    ensures
        ring_list(*final(rings)) == with_ring(ring_list(*old(rings)), address@, depth),
{
    rings.insert(address, depth);
}

/// `IndexMap::len`: how many keys the map has.
#[verifier::external_body]
fn ring_count(rings: &IndexMap<String, u64>) -> (count: usize)
    ensures
        count == ring_list(*rings).len(),
{
    rings.len()
}

/// `IndexMap::get_index`: the key and the value at a place of the insertion order.
#[verifier::external_body]
fn ring_at(rings: &IndexMap<String, u64>, i: usize) -> (ring: (String, u64))
    requires
        i < ring_list(*rings).len(),
    ensures
        ring.0@ == ring_list(*rings)[i as int].0,
        ring.1 == ring_list(*rings)[i as int].1,
{
    let (address, depth) = rings.get_index(i).unwrap();
    (address.clone(), *depth)
}

/// The list after one more binding asks for `depth` on `address`: the ring covers the deepest
/// binding on its channel.
pub open spec fn widened(
    list: Seq<(Seq<char>, u64)>,
    address: Seq<char>,
    depth: u64,
) -> Seq<(Seq<char>, u64)> {
    with_ring(
        list,
        address,
        match depth_in(list, address) {
            Some(kept) => if kept < depth {
                depth
            } else {
                kept
            },
            None => depth,
        },
    )
}

/// The rings that a sequence of bindings, each with its address and depth, adds up to.
pub open spec fn rings_of(asked: Seq<(Seq<char>, u64)>) -> Seq<(Seq<char>, u64)>
    decreases asked.len(),
{
    if asked.len() == 0 {
        Seq::empty()
    } else {
        widened(rings_of(asked.drop_last()), asked.last().0, asked.last().1)
    }
}

/// Take one more binding into the rings.
pub(crate) fn widen_ring(rings: &mut IndexMap<String, u64>, address: &str, depth: u64)
    ensures
        ring_list(*final(rings)) == widened(ring_list(*old(rings)), address@, depth),
{
    let kept: Option<u64> = kept_depth(rings, address);
    let wide: u64 = match kept {
        Some(k) => if k < depth {
            depth
        } else {
            k
        },
        None => depth,
    };
    keep_depth(rings, address.to_owned(), wide);
}

/// A page-local channel of a surface and the depth of its ring.
#[derive(Debug, PartialEq, Eq)]
pub struct ResolvedLocalChannel {
    pub address: String,
    pub ring_depth: u64,
}

/// Whether the channels are exactly the rings of `list`, in order.
pub open spec fn lists_rings(
    channels: Seq<ResolvedLocalChannel>,
    list: Seq<(Seq<char>, u64)>,
) -> bool {
    &&& channels.len() == list.len()
    &&& forall|i: int|
        0 <= i < list.len() ==> (#[trigger] channels[i]).address@ == list[i].0
            && channels[i].ring_depth == list[i].1
}

/// The rings as a list of channels, in the order in which they were first bound.
pub(crate) fn list_rings(rings: &IndexMap<String, u64>) -> (channels: Vec<ResolvedLocalChannel>)
    ensures
        lists_rings(channels@, ring_list(*rings)),
{
    let n: usize = ring_count(rings);
    let mut out: Vec<ResolvedLocalChannel> = Vec::new();
    let mut i: usize = 0;
    while i < n
        invariant
            i <= n,
            n == ring_list(*rings).len(),
            lists_rings(out@, ring_list(*rings).take(i as int)),
        decreases n - i,
    {
        let (address, ring_depth) = ring_at(rings, i);
        out.push(ResolvedLocalChannel { address, ring_depth });
        i = i + 1;
    }
    assert(ring_list(*rings).take(n as int) =~= ring_list(*rings));
    out
}

proof fn position_is_first(list: Seq<(Seq<char>, u64)>, address: Seq<char>)
    ensures
        0 <= position(list, address) <= list.len(),
        position(list, address) < list.len() ==> list[position(list, address)].0 == address,
        forall|i: int| 0 <= i < position(list, address) ==> (#[trigger] list[i]).0 != address,
    decreases list.len(),
{
    if list.len() > 0 && list[0].0 != address {
        let rest = list.drop_first();
        position_is_first(rest, address);
        assert forall|i: int| 0 <= i < position(list, address) implies (#[trigger] list[i]).0
            != address by {
            if i > 0 {
                assert(rest[i - 1] == list[i]);
            }
        }
    }
}

/// No channel has two rings; every bound channel has one; and each ring is as deep as the
/// deepest binding on its channel and no deeper. The order of the bindings does not enter.
pub proof fn rings_cover_the_deepest_binding(asked: Seq<(Seq<char>, u64)>)
    ensures
        forall|i: int, j: int|
            0 <= i < j < rings_of(asked).len() ==> (#[trigger] rings_of(asked)[i]).0 != (
            #[trigger] rings_of(asked)[j]).0,
        forall|k: int|
            0 <= k < asked.len() ==> depth_in(rings_of(asked), (#[trigger] asked[k]).0) is Some
                && depth_in(rings_of(asked), asked[k].0)->0 >= asked[k].1,
        forall|i: int|
            0 <= i < rings_of(asked).len() ==> asked.contains(#[trigger] rings_of(asked)[i]),
    decreases asked.len(),
{
    if asked.len() > 0 {
        let before = asked.drop_last();
        let (address, depth) = asked.last();
        let list = rings_of(before);
        rings_cover_the_deepest_binding(before);
        position_is_first(list, address);
        let p = position(list, address);
        let after = rings_of(asked);
        assert forall|a: Seq<char>| #![trigger depth_in(after, a)]
            (a == address ==> depth_in(after, a) is Some && depth_in(after, a)->0 == after[p].1 && p
                < after.len()) && (a != address ==> depth_in(after, a) == depth_in(list, a)) by {
            position_is_first(list, a);
            position_is_first(after, a);
            let q = position(after, a);
            if a == address {
                assert(after[p].0 == address);
                if q < p {
                    assert(after[q] == list[q]);
                }
            } else {
                let r = position(list, a);
                if r < list.len() {
                    assert(after[r] == list[r]);
                    if q < r {
                        if q == p {
                        } else {
                            assert(after[q] == list[q]);
                        }
                    }
                } else if q < after.len() {
                    if q == p {
                    } else {
                        assert(after[q] == list[q]);
                    }
                }
            }
        }
        assert forall|k: int| 0 <= k < asked.len() implies depth_in(
            rings_of(asked),
            (#[trigger] asked[k]).0,
        ) is Some && depth_in(rings_of(asked), asked[k].0)->0 >= asked[k].1 by {
            if k < before.len() {
                assert(before[k] == asked[k]);
            }
        }
        assert forall|i: int| 0 <= i < after.len() implies asked.contains(#[trigger] after[i]) by {
            if i == p {
                if p < list.len() && list[p].1 >= depth {
                    assert(before.contains(list[p]));
                    let k = choose|k: int| 0 <= k < before.len() && before[k] == list[p];
                    assert(asked[k] == list[p]);
                    assert(after[i] == list[p]);
                } else {
                    assert(asked[asked.len() - 1] == after[i]);
                }
            } else {
                assert(before.contains(list[i]));
                let k = choose|k: int| 0 <= k < before.len() && before[k] == list[i];
                assert(asked[k] == after[i]);
            }
        }
        assert forall|i: int, j: int| 0 <= i < j < after.len() implies (#[trigger] after[i]).0 != (
        #[trigger] after[j]).0 by {
            if i != p && j != p {
                assert(list[i].0 != list[j].0);
            } else if j == p && p < list.len() {
                assert(list[i].0 != list[j].0);
            } else if i == p {
                assert(list[i].0 != list[j].0);
            }
        }
    }
}

/// The ring of an address is the deepest ask on it, where there is one.
pub proof fn deepest_ask_is_the_ring(asked: Seq<(Seq<char>, u64)>, address: Seq<char>)
    ensures
        match depth_in(rings_of(asked), address) {
            Some(depth) => asked.contains((address, depth)) && forall|d: u64|
                #[trigger] asked.contains((address, d)) ==> d <= depth,
            None => forall|d: u64| !(#[trigger] asked.contains((address, d))),
        },
{
    rings_cover_the_deepest_binding(asked);
    let list = rings_of(asked);
    position_is_first(list, address);
    let p = position(list, address);
    if p < list.len() {
        assert(asked.contains(list[p]));
    }
    assert forall|d: u64| #[trigger] asked.contains((address, d)) implies p < list.len() && d
        <= list[p].1 by {
        let k = choose|k: int| 0 <= k < asked.len() && asked[k] == (address, d);
        assert(depth_in(list, asked[k].0) is Some);
    }
}

/// Where every binding on a channel asks for one depth, one more that asks for it may write that
/// depth over the ring's: it is what widening gives.
pub(crate) proof fn equal_asks_keep_their_depth(
    asked: Seq<(Seq<char>, u64)>,
    address: Seq<char>,
    depth: u64,
)
    requires
        forall|k: int|
            0 <= k < asked.len() && (#[trigger] asked[k]).0 == address ==> asked[k].1 == depth,
    ensures
        with_ring(rings_of(asked), address, depth) == widened(rings_of(asked), address, depth),
{
    rings_cover_the_deepest_binding(asked);
    let list = rings_of(asked);
    position_is_first(list, address);
    let p = position(list, address);
    if p < list.len() {
        assert(asked.contains(list[p]));
    }
}

} // verus!
