//! Subscriptions made at run time that outlive a restart.

use vstd::prelude::*;
use vstd::string::*;

use crate::address;
use crate::address::{split_mqtt_address, ChannelScheme};
use crate::directory;
use crate::directory::{ChannelEntry, MessagingDirectory};
use crate::model;
use crate::mqtt::{DynamicMqttIngress, ResolvedMqttIngressChannel};

verus! {

/// A stored subscription of an app.
#[derive(Debug, PartialEq, Eq)]
pub struct DynamicSubscription {
    pub channel_uuid: u128,
    pub app_slug: String,
    /// The quality of service of an MQTT subscription.
    pub qos: Option<u8>,
}

/// Whether one of the first `n` rows is on the channel `uuid`.
pub open spec fn seen_before(rows: Seq<DynamicSubscription>, n: int, uuid: u128) -> bool {
    exists|k: int| 0 <= k < n && (#[trigger] rows[k]).channel_uuid == uuid
}

/// The channels the first `n` rows are on, each once, in the order of the first row on it.
pub open spec fn distinct_channels(rows: Seq<DynamicSubscription>, n: nat) -> Seq<u128>
    decreases n,
{
    if n == 0 {
        Seq::empty()
    } else {
        let before = distinct_channels(rows, (n - 1) as nat);
        if seen_before(rows, n - 1, rows[n - 1].channel_uuid) {
            before
        } else {
            before.push(rows[n - 1].channel_uuid)
        }
    }
}

fn was_seen(rows: &[DynamicSubscription], n: usize, uuid: u128) -> (seen: bool)
    requires
        n <= rows@.len(),
    ensures
        seen == seen_before(rows@, n as int, uuid),
{
    let mut k: usize = 0;
    while k < n
        invariant
            k <= n <= rows@.len(),
            forall|m: int| 0 <= m < k ==> (#[trigger] rows@[m]).channel_uuid != uuid,
        decreases n - k,
    {
        if rows[k].channel_uuid == uuid {
            assert(rows@[k as int].channel_uuid == uuid);
            return true;
        }
        k = k + 1;
    }
    false
}

/// The channels the stored rows are on, each once: only these are loaded.
pub fn referenced_channels(rows: &[DynamicSubscription]) -> (uuids: Vec<u128>)
    ensures
        uuids@ == distinct_channels(rows@, rows@.len()),
{
    let mut uuids: Vec<u128> = Vec::new();
    let n: usize = rows.len();
    let mut i: usize = 0;
    assert(uuids@ =~= distinct_channels(rows@, 0));
    while i < n
        invariant
            i <= n,
            n == rows@.len(),
            uuids@ == distinct_channels(rows@, i as nat),
        decreases n - i,
    {
        if !was_seen(rows, i, rows[i].channel_uuid) {
            uuids.push(rows[i].channel_uuid);
        }
        i = i + 1;
    }
    uuids
}

/// Every channel a row is on is loaded, none that no row is on is, and none twice.
pub proof fn exactly_the_referenced_channels_are_loaded(
    rows: Seq<DynamicSubscription>,
    n: nat,
    uuid: u128,
)
    requires
        n <= rows.len(),
    ensures
        distinct_channels(rows, n).contains(uuid) <==> seen_before(rows, n as int, uuid),
        distinct_channels(rows, n).no_duplicates(),
    decreases n,
{
    if n > 0 {
        let m = (n - 1) as nat;
        let before = distinct_channels(rows, m);
        let after = distinct_channels(rows, n);
        let last = rows[n - 1].channel_uuid;
        exactly_the_referenced_channels_are_loaded(rows, m, uuid);
        exactly_the_referenced_channels_are_loaded(rows, m, last);
        if before.contains(uuid) {
            let k = choose|k: int| 0 <= k < before.len() && before[k] == uuid;
            assert(after[k] == uuid);
        }
        if uuid == last && !seen_before(rows, m as int, last) {
            assert(after[before.len() as int] == uuid);
        }
        if after.contains(uuid) {
            let k = choose|k: int| 0 <= k < after.len() && after[k] == uuid;
            if k < before.len() {
                assert(before[k] == uuid);
            } else {
                assert(rows[n - 1].channel_uuid == uuid);
            }
        }
        if seen_before(rows, n as int, uuid) {
            let k = choose|k: int| 0 <= k < n && (#[trigger] rows[k]).channel_uuid == uuid;
            if k < m {
                assert(seen_before(rows, m as int, uuid));
            }
        }
        if !seen_before(rows, m as int, last) {
            assert forall|i: int, j: int|
                0 <= i < after.len() && 0 <= j < after.len() && i != j implies after[i]
                != after[j] by {
                if i < before.len() && j == before.len() {
                    assert(before.contains(before[i]));
                }
                if j < before.len() && i == before.len() {
                    assert(before.contains(before[j]));
                }
            }
        }
    }
}

/// The directory after the first `n` loaded channels: those it did not have, behind the others.
pub open spec fn with_loaded(
    entries: Seq<ChannelEntry>,
    loaded: Seq<ChannelEntry>,
    n: nat,
) -> Seq<ChannelEntry>
    decreases n,
{
    if n == 0 {
        entries
    } else {
        let before = with_loaded(entries, loaded, (n - 1) as nat);
        if directory::channel_with(before, loaded[n - 1].uuid) is None {
            before.push(loaded[n - 1])
        } else {
            before
        }
    }
}

/// Add the channels that only the store knows; a configured channel stays as it is.
pub fn restore_channels(directory: &mut MessagingDirectory, loaded: Vec<ChannelEntry>)
    ensures
        final(directory).entries@ == with_loaded(
            old(directory).entries@,
            loaded@,
            loaded@.len(),
        ),
{
    let ghost all = loaded@;
    let ghost start = directory.entries@;
    let mut left: Vec<ChannelEntry> = loaded;
    let n: usize = left.len();
    let mut i: usize = 0;
    assert(left@ =~= all.skip(0));
    while i < n
        invariant
            i <= n,
            n == all.len(),
            left@ == all.skip(i as int),
            directory.entries@ == with_loaded(start, all, i as nat),
        decreases n - i,
    {
        let channel: ChannelEntry = left.remove(0);
        assert(channel == all[i as int]);
        assert(left@ =~= all.skip(i + 1));
        if directory.by_uuid(channel.uuid).is_none() {
            directory.add_channel(channel);
        }
        i = i + 1;
    }
}

/// Restoring leaves every configured channel where it was and as it was.
pub proof fn restoring_keeps_configured_channels(
    entries: Seq<ChannelEntry>,
    loaded: Seq<ChannelEntry>,
    n: nat,
)
    ensures
        entries.is_prefix_of(with_loaded(entries, loaded, n)),
    decreases n,
{
    if n > 0 {
        restoring_keeps_configured_channels(entries, loaded, (n - 1) as nat);
    }
}

/// Whether a declared ingress channel has `uuid`.
pub open spec fn is_static(ingress: Seq<ResolvedMqttIngressChannel>, uuid: u128) -> bool {
    exists|k: int| 0 <= k < ingress.len() && (#[trigger] ingress[k]).channel_uuid == uuid
}

/// The channel that row `i` makes an ingress channel of: an MQTT channel of the directory that no
/// declared ingress channel and no earlier row is on.
pub open spec fn needs_ingress(
    rows: Seq<DynamicSubscription>,
    ingress: Seq<ResolvedMqttIngressChannel>,
    entries: Seq<ChannelEntry>,
    i: int,
) -> Option<ChannelEntry> {
    let uuid = rows[i].channel_uuid;
    if is_static(ingress, uuid) || seen_before(rows, i, uuid) {
        None
    } else {
        match directory::channel_with(entries, uuid) {
            Some(entry) if entry.transport_type == ChannelScheme::Mqtt => Some(entry),
            _ => None,
        }
    }
}

/// What is wrong with a stored MQTT subscription.
#[derive(Clone, Copy, Debug, PartialEq, Eq, Structural)]
pub enum StoredFault {
    /// The channel's address is no `mqtt:<client>:<topic>` address.
    Address,
    /// The row has no quality of service.
    MissingQos,
}

/// The check of one row.
pub open spec fn stored_faults(
    rows: Seq<DynamicSubscription>,
    ingress: Seq<ResolvedMqttIngressChannel>,
    entries: Seq<ChannelEntry>,
) -> spec_fn(int) -> Option<StoredFault> {
    |i: int|
        match needs_ingress(rows, ingress, entries, i) {
            None => None,
            Some(entry) => if !is_mqtt_address(entry.address@) {
                Some(StoredFault::Address)
            } else {
                model::unless(rows[i].qos is Some, StoredFault::MissingQos)
            },
        }
}

/// Whether `address` is an `mqtt:<client>:<topic>` address.
pub open spec fn is_mqtt_address(address: Seq<char>) -> bool {
    exists|client: Seq<char>, topic: Seq<char>| #[trigger]
        address::mqtt_parts(address, client, topic)
}

/// The rows among the first `n` that need an ingress channel.
pub open spec fn rows_needing_ingress(
    rows: Seq<DynamicSubscription>,
    ingress: Seq<ResolvedMqttIngressChannel>,
    entries: Seq<ChannelEntry>,
    n: nat,
) -> Seq<int>
    decreases n,
{
    if n == 0 {
        Seq::empty()
    } else {
        let before = rows_needing_ingress(rows, ingress, entries, (n - 1) as nat);
        if needs_ingress(rows, ingress, entries, n - 1) is Some {
            before.push(n - 1)
        } else {
            before
        }
    }
}

/// Whether `made` is the ingress of a row on the channel `entry`.
pub open spec fn is_ingress_of(
    made: DynamicMqttIngress,
    row: DynamicSubscription,
    entry: ChannelEntry,
) -> bool {
    &&& made.channel_address == entry.address
    &&& made.channel_uuid == row.channel_uuid
    &&& address::mqtt_parts(entry.address@, made.client_slug@, made.topic@)
    &&& row.qos == Some(made.qos)
}

/// Whether the ingresses are those of the rows among the first `n` that need one, in order.
pub open spec fn are_ingresses_of(
    made: Seq<DynamicMqttIngress>,
    rows: Seq<DynamicSubscription>,
    ingress: Seq<ResolvedMqttIngressChannel>,
    entries: Seq<ChannelEntry>,
    n: nat,
) -> bool {
    let needing = rows_needing_ingress(rows, ingress, entries, n);
    &&& made.len() == needing.len()
    &&& forall|k: int|
        0 <= k < made.len() ==> is_ingress_of(
            #[trigger] made[k],
            rows[needing[k]],
            needs_ingress(rows, ingress, entries, needing[k])->0,
        )
}

fn has_static(ingress: &[ResolvedMqttIngressChannel], uuid: u128) -> (found: bool)
    ensures
        found == is_static(ingress@, uuid),
{
    let n: usize = ingress.len();
    let mut k: usize = 0;
    while k < n
        invariant
            k <= n,
            n == ingress@.len(),
            forall|m: int| 0 <= m < k ==> (#[trigger] ingress@[m]).channel_uuid != uuid,
        decreases n - k,
    {
        if ingress[k].channel_uuid == uuid {
            assert(ingress@[k as int].channel_uuid == uuid);
            return true;
        }
        k = k + 1;
    }
    false
}

/// A stored row that cannot be brought back to life.
#[derive(Clone, Copy, Debug, PartialEq, Eq, Structural)]
pub struct StoredRowFault {
    pub row: usize,
    pub fault: StoredFault,
}

/// The MQTT subscriptions among the kept rows whose topic filter no declared ingress channel has:
/// one for each channel, in the order of the first row on it.
pub fn dynamic_mqtt_ingress(
    kept: &[DynamicSubscription],
    mqtt_ingress_channels: &[ResolvedMqttIngressChannel],
    directory: &MessagingDirectory,
) -> (made: Result<Vec<DynamicMqttIngress>, StoredRowFault>)
    ensures
        match model::first_fault(
            stored_faults(kept@, mqtt_ingress_channels@, directory.entries@),
            kept@.len(),
        ) {
            Some(fault) => made matches Err(e) && e.row == fault.0 && e.fault == fault.1,
            None => made matches Ok(list) && are_ingresses_of(
                list@,
                kept@,
                mqtt_ingress_channels@,
                directory.entries@,
                kept@.len(),
            ),
        },
{
    let ghost ingress = mqtt_ingress_channels@;
    let ghost entries = directory.entries@;
    let ghost faults = stored_faults(kept@, ingress, entries);
    let mut made: Vec<DynamicMqttIngress> = Vec::new();
    let n: usize = kept.len();
    let mut i: usize = 0;
    while i < n
        invariant
            i <= n,
            n == kept@.len(),
            ingress == mqtt_ingress_channels@,
            entries == directory.entries@,
            faults == stored_faults(kept@, ingress, entries),
            model::first_fault(faults, i as nat) is None,
            are_ingresses_of(made@, kept@, ingress, entries, i as nat),
        decreases n - i,
    {
        let row: &DynamicSubscription = &kept[i];
        let fresh: bool = !has_static(mqtt_ingress_channels, row.channel_uuid) && !was_seen(
            kept,
            i,
            row.channel_uuid,
        );
        let found: Option<&ChannelEntry> = if fresh {
            directory.by_uuid(row.channel_uuid)
        } else {
            None
        };
        match found {
            Some(entry) => if entry.transport_type == ChannelScheme::Mqtt {
                assert(needs_ingress(kept@, ingress, entries, i as int) == Some(*entry));
                match split_mqtt_address(entry.address.as_str()) {
                    None => {
                        assert(!is_mqtt_address(entry.address@));
                        assert(faults(i as int) == Some(StoredFault::Address));
                        proof {
                            model::fault_stands(faults, (i + 1) as nat, n as nat);
                        }
                        return Err(StoredRowFault { row: i, fault: StoredFault::Address });
                    },
                    Some(parts) => {
                        assert(is_mqtt_address(entry.address@));
                        match row.qos {
                            None => {
                                assert(faults(i as int) == Some(StoredFault::MissingQos));
                                proof {
                                    model::fault_stands(faults, (i + 1) as nat, n as nat);
                                }
                                return Err(
                                    StoredRowFault { row: i, fault: StoredFault::MissingQos },
                                );
                            },
                            Some(qos) => {
                                made.push(
                                    DynamicMqttIngress {
                                        channel_address: entry.address.clone(),
                                        channel_uuid: row.channel_uuid,
                                        client_slug: parts.client,
                                        topic: parts.topic,
                                        qos,
                                    },
                                );
                            },
                        }
                    },
                }
            },
            None => {},
        }
        i = i + 1;
    }
    Ok(made)
}

proof fn needing_rows_are_fresh(
    rows: Seq<DynamicSubscription>,
    ingress: Seq<ResolvedMqttIngressChannel>,
    entries: Seq<ChannelEntry>,
    n: nat,
)
    requires
        n <= rows.len(),
    ensures
        forall|k: int|
            0 <= k < rows_needing_ingress(rows, ingress, entries, n).len() ==> 0 <= (
            #[trigger] rows_needing_ingress(rows, ingress, entries, n)[k]) < n && needs_ingress(
                rows,
                ingress,
                entries,
                rows_needing_ingress(rows, ingress, entries, n)[k],
            ) is Some,
        forall|a: int, b: int|
            0 <= a < b < rows_needing_ingress(rows, ingress, entries, n).len() ==> (
            #[trigger] rows_needing_ingress(rows, ingress, entries, n)[a]) < (
            #[trigger] rows_needing_ingress(rows, ingress, entries, n)[b]),
    decreases n,
{
    if n > 0 {
        let m = (n - 1) as nat;
        needing_rows_are_fresh(rows, ingress, entries, m);
        let before = rows_needing_ingress(rows, ingress, entries, m);
        let after = rows_needing_ingress(rows, ingress, entries, n);
        assert forall|k: int| 0 <= k < after.len() implies 0 <= (#[trigger] after[k]) < n
            && needs_ingress(rows, ingress, entries, after[k]) is Some by {
            if k < before.len() {
                assert(after[k] == before[k]);
            }
        }
        assert forall|a: int, b: int| 0 <= a < b < after.len() implies (#[trigger] after[a]) < (
        #[trigger] after[b]) by {
            assert(after[a] == before[a]);
            if b < before.len() {
                assert(after[b] == before[b]);
            }
        }
    }
}

/// A channel gets at most one ingress however many apps subscribe to it, and never one where a
/// declared ingress channel already has it.
pub proof fn one_ingress_per_channel(
    made: Seq<DynamicMqttIngress>,
    rows: Seq<DynamicSubscription>,
    ingress: Seq<ResolvedMqttIngressChannel>,
    entries: Seq<ChannelEntry>,
)
    requires
        are_ingresses_of(made, rows, ingress, entries, rows.len()),
    ensures
        forall|a: int, b: int|
            0 <= a < b < made.len() ==> (#[trigger] made[a]).channel_uuid != (
            #[trigger] made[b]).channel_uuid,
        forall|a: int| 0 <= a < made.len() ==> !is_static(ingress, (#[trigger] made[a]).channel_uuid),
{
    let needing = rows_needing_ingress(rows, ingress, entries, rows.len());
    needing_rows_are_fresh(rows, ingress, entries, rows.len());
    assert forall|a: int| 0 <= a < made.len() implies !is_static(
        ingress,
        (#[trigger] made[a]).channel_uuid,
    ) by {
        assert(needs_ingress(rows, ingress, entries, needing[a]) is Some);
    }
    assert forall|a: int, b: int| 0 <= a < b < made.len() implies (#[trigger] made[a]).channel_uuid
        != (#[trigger] made[b]).channel_uuid by {
        assert(needing[a] < needing[b]);
        assert(needs_ingress(rows, ingress, entries, needing[b]) is Some);
        if made[a].channel_uuid == made[b].channel_uuid {
            assert(rows[needing[a]].channel_uuid == rows[needing[b]].channel_uuid);
            assert(seen_before(rows, needing[b], rows[needing[b]].channel_uuid));
        }
    }
}

proof fn needing_rows_are_listed(
    rows: Seq<DynamicSubscription>,
    ingress: Seq<ResolvedMqttIngressChannel>,
    entries: Seq<ChannelEntry>,
    n: nat,
    i: int,
)
    requires
        0 <= i < n <= rows.len(),
        needs_ingress(rows, ingress, entries, i) is Some,
    ensures
        rows_needing_ingress(rows, ingress, entries, n).contains(i),
    decreases n,
{
    let before = rows_needing_ingress(rows, ingress, entries, (n - 1) as nat);
    let after = rows_needing_ingress(rows, ingress, entries, n);
    if i == n - 1 {
        assert(after[before.len() as int] == i);
    } else {
        needing_rows_are_listed(rows, ingress, entries, (n - 1) as nat, i);
        let k = choose|k: int| 0 <= k < before.len() && before[k] == i;
        assert(after[k] == i);
    }
}

proof fn first_row_on(rows: Seq<DynamicSubscription>, i: int) -> (f: int)
    requires
        0 <= i < rows.len(),
    ensures
        0 <= f <= i,
        rows[f].channel_uuid == rows[i].channel_uuid,
        forall|g: int| 0 <= g < f ==> (#[trigger] rows[g]).channel_uuid != rows[i].channel_uuid,
    decreases i,
{
    if seen_before(rows, i, rows[i].channel_uuid) {
        let k = choose|k: int| 0 <= k < i && (#[trigger] rows[k]).channel_uuid == rows[i].channel_uuid;
        first_row_on(rows, k)
    } else {
        i
    }
}

/// Every kept subscription to an MQTT channel that no declared ingress channel is on comes back,
/// whatever its quality of service: with the channel's uuid and address, the client and topic
/// that the address names, and the quality of service of the first row on the channel.
pub proof fn every_kept_subscription_comes_back(
    made: Seq<DynamicMqttIngress>,
    rows: Seq<DynamicSubscription>,
    ingress: Seq<ResolvedMqttIngressChannel>,
    entries: Seq<ChannelEntry>,
    i: int,
    e: int,
)
    requires
        are_ingresses_of(made, rows, ingress, entries, rows.len()),
        0 <= i < rows.len(),
        forall|k: int|
            0 <= k < ingress.len() ==> (#[trigger] ingress[k]).channel_uuid != rows[i].channel_uuid,
        0 <= e < entries.len(),
        entries[e].uuid == rows[i].channel_uuid,
        forall|d: int| 0 <= d < e ==> (#[trigger] entries[d]).uuid != rows[i].channel_uuid,
        entries[e].transport_type == ChannelScheme::Mqtt,
    ensures
        exists|k: int, f: int|
            #![trigger made[k], rows[f]]
            {
                &&& 0 <= k < made.len()
                &&& 0 <= f <= i
                &&& rows[f].channel_uuid == rows[i].channel_uuid
                &&& forall|g: int|
                    0 <= g < f ==> (#[trigger] rows[g]).channel_uuid != rows[i].channel_uuid
                &&& made[k].channel_uuid == rows[i].channel_uuid
                &&& made[k].channel_address == entries[e].address
                &&& made[k].channel_address@ == "mqtt:"@ + made[k].client_slug@ + ":"@
                    + made[k].topic@
                &&& rows[f].qos == Some(made[k].qos)
            },
{
    let f = first_row_on(rows, i);
    directory::the_first_channel_is_found(entries, e);
    let needing = rows_needing_ingress(rows, ingress, entries, rows.len());
    assert(needs_ingress(rows, ingress, entries, f) == Some(entries[e]));
    needing_rows_are_listed(rows, ingress, entries, rows.len(), f);
    let k = choose|k: int| 0 <= k < needing.len() && needing[k] == f;
    assert(is_ingress_of(made[k], rows[needing[k]], entries[e]));
    address::an_mqtt_address_names_its_parts(
        entries[e].address@,
        made[k].client_slug@,
        made[k].topic@,
    );
    assert(made[k].channel_uuid == rows[f].channel_uuid);
}

/// Nothing comes back that was not kept: every ingress is that of a kept row on an MQTT channel
/// of the directory that no declared ingress channel is on.
pub proof fn only_kept_subscriptions_come_back(
    made: Seq<DynamicMqttIngress>,
    rows: Seq<DynamicSubscription>,
    ingress: Seq<ResolvedMqttIngressChannel>,
    entries: Seq<ChannelEntry>,
    k: int,
)
    requires
        are_ingresses_of(made, rows, ingress, entries, rows.len()),
        0 <= k < made.len(),
    ensures
        exists|i: int, e: int|
            #![trigger rows[i], entries[e]]
            {
                &&& 0 <= i < rows.len()
                &&& 0 <= e < entries.len()
                &&& rows[i].channel_uuid == made[k].channel_uuid
                &&& rows[i].qos == Some(made[k].qos)
                &&& entries[e].uuid == made[k].channel_uuid
                &&& entries[e].transport_type == ChannelScheme::Mqtt
                &&& entries[e].address == made[k].channel_address
            },
        forall|s: int|
            0 <= s < ingress.len() ==> (#[trigger] ingress[s]).channel_uuid != made[k].channel_uuid,
{
    let needing = rows_needing_ingress(rows, ingress, entries, rows.len());
    needing_rows_are_fresh(rows, ingress, entries, rows.len());
    let i = needing[k];
    let entry = needs_ingress(rows, ingress, entries, i)->0;
    directory::lookup_by_uuid_finds_what_is_there(entries, rows[i].channel_uuid);
    let e = choose|e: int| 0 <= e < entries.len() && entries[e] == entry;
    assert(rows[i].channel_uuid == made[k].channel_uuid && entries[e].uuid == made[k].channel_uuid);
    assert(!is_static(ingress, rows[i].channel_uuid));
}

/// A stored row is refused only where it would come back and cannot: the first such row, because
/// the address of its channel names no client and topic, or else because it has no quality of
/// service.
pub proof fn a_refused_row_cannot_come_back(
    rows: Seq<DynamicSubscription>,
    ingress: Seq<ResolvedMqttIngressChannel>,
    entries: Seq<ChannelEntry>,
    i: int,
    e: int,
)
    requires
        0 <= i < rows.len(),
        0 <= e < entries.len(),
        entries[e].uuid == rows[i].channel_uuid,
        forall|d: int| 0 <= d < e ==> (#[trigger] entries[d]).uuid != rows[i].channel_uuid,
    ensures
        stored_faults(rows, ingress, entries)(i) is Some ==> {
            &&& entries[e].transport_type == ChannelScheme::Mqtt
            &&& forall|k: int|
                0 <= k < ingress.len() ==> (#[trigger] ingress[k]).channel_uuid
                    != rows[i].channel_uuid
            &&& forall|g: int|
                0 <= g < i ==> (#[trigger] rows[g]).channel_uuid != rows[i].channel_uuid
        },
        stored_faults(rows, ingress, entries)(i) == Some(StoredFault::MissingQos)
            ==> rows[i].qos is None,
        stored_faults(rows, ingress, entries)(i) == Some(StoredFault::Address) ==> forall|
            client: Seq<char>,
            topic: Seq<char>,
        |
            !(#[trigger] address::mqtt_parts(entries[e].address@, client, topic)),
{
    directory::the_first_channel_is_found(entries, e);
    let faults = stored_faults(rows, ingress, entries);
    if faults(i) is Some {
        assert(!is_static(ingress, rows[i].channel_uuid));
        assert(!seen_before(rows, i, rows[i].channel_uuid));
    }
}

/// After a restore every loaded channel is in the directory under its uuid; what was added is one
/// of the loaded channels, and its uuid was not in the directory before.
pub proof fn restored_channels_are_all_there(
    entries: Seq<ChannelEntry>,
    loaded: Seq<ChannelEntry>,
    n: nat,
)
    requires
        n <= loaded.len(),
    ensures
        forall|k: int|
            #![trigger loaded[k]]
            0 <= k < n ==> exists|j: int|
                0 <= j < with_loaded(entries, loaded, n).len() && (#[trigger] with_loaded(
                    entries,
                    loaded,
                    n,
                )[j]).uuid == loaded[k].uuid,
        forall|j: int|
            #![trigger with_loaded(entries, loaded, n)[j]]
            entries.len() <= j < with_loaded(entries, loaded, n).len() ==> (exists|k: int|
                0 <= k < n && #[trigger] loaded[k] == with_loaded(entries, loaded, n)[j]) && (
            forall|d: int|
                0 <= d < j ==> (#[trigger] with_loaded(entries, loaded, n)[d]).uuid != with_loaded(
                    entries,
                    loaded,
                    n,
                )[j].uuid),
        entries.len() <= with_loaded(entries, loaded, n).len(),
    decreases n,
{
    if n > 0 {
        let m = (n - 1) as nat;
        restored_channels_are_all_there(entries, loaded, m);
        let before = with_loaded(entries, loaded, m);
        let after = with_loaded(entries, loaded, n);
        let last = loaded[n - 1];
        directory::lookup_by_uuid_finds_what_is_there(before, last.uuid);
        assert forall|k: int| #![trigger loaded[k]] 0 <= k < n implies exists|j: int|
            0 <= j < after.len() && (#[trigger] after[j]).uuid == loaded[k].uuid by {
            if k < m {
                let j = choose|j: int|
                    0 <= j < before.len() && (#[trigger] before[j]).uuid == loaded[k].uuid;
                assert(after[j] == before[j]);
            } else if directory::channel_with(before, last.uuid) is None {
                assert(after[before.len() as int].uuid == last.uuid);
            } else {
                let j = choose|j: int|
                    0 <= j < before.len() && (#[trigger] before[j]).uuid == last.uuid;
                assert(after[j].uuid == last.uuid);
            }
        }
        assert forall|j: int| #![trigger after[j]] entries.len() <= j < after.len() implies (exists|
            k: int,
        |
            0 <= k < n && #[trigger] loaded[k] == after[j]) && (forall|d: int|
            0 <= d < j ==> (#[trigger] after[d]).uuid != after[j].uuid) by {
            if j < before.len() {
                assert(after[j] == before[j]);
                let k = choose|k: int| 0 <= k < m && #[trigger] loaded[k] == before[j];
                assert(loaded[k] == after[j]);
                assert forall|d: int| 0 <= d < j implies (#[trigger] after[d]).uuid
                    != after[j].uuid by {
                    assert(after[d] == before[d]);
                }
            } else {
                assert(loaded[n - 1] == after[j]);
                assert forall|d: int| 0 <= d < j implies (#[trigger] after[d]).uuid
                    != after[j].uuid by {
                    assert(after[d] == before[d]);
                }
            }
        }
    }
}

/// A channel is loaded exactly where one of the rows is on it.
pub proof fn loaded_channels_have_a_row(rows: Seq<DynamicSubscription>, uuid: u128)
    ensures
        distinct_channels(rows, rows.len()).contains(uuid) <==> exists|k: int|
            0 <= k < rows.len() && (#[trigger] rows[k]).channel_uuid == uuid,
{
    exactly_the_referenced_channels_are_loaded(rows, rows.len(), uuid);
}

/// Channels are loaded, and subscriptions come back, in the order of the rows: one more row adds
/// at most one, behind the others.
pub proof fn what_comes_back_follows_the_rows(
    rows: Seq<DynamicSubscription>,
    ingress: Seq<ResolvedMqttIngressChannel>,
    entries: Seq<ChannelEntry>,
    n: nat,
)
    requires
        n < rows.len(),
    ensures
        distinct_channels(rows, n).is_prefix_of(distinct_channels(rows, n + 1)),
        distinct_channels(rows, n + 1).len() <= distinct_channels(rows, n).len() + 1,
        rows_needing_ingress(rows, ingress, entries, n).is_prefix_of(
            rows_needing_ingress(rows, ingress, entries, n + 1),
        ),
        rows_needing_ingress(rows, ingress, entries, n + 1).len() <= rows_needing_ingress(
            rows,
            ingress,
            entries,
            n,
        ).len() + 1,
{
}

} // verus!
