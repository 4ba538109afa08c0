//! The channel directory: which channels exist, how they retain, and who subscribes.

use vstd::prelude::*;
use vstd::string::*;

use crate::address::ChannelScheme;
use crate::model::{Depth, NoiseLevel, Sink, WakeMin};
use crate::text::same_text;

verus! {

/// A channel's own rung of every knob.
#[derive(Clone, Copy, Debug, PartialEq, Eq, Structural)]
pub struct ResolvedChannel {
    pub push_depth: Depth,
    pub retain_depth: Depth,
    pub standing_retain_depth: Depth,
    pub noise: NoiseLevel,
    pub sink: Sink,
    pub wake_min: WakeMin,
}

/// Who a subscriber is.
#[derive(Debug, PartialEq, Eq)]
pub enum SubscriberEntryKind {
    App(String),
    Wasm(String),
    Surface { slug: String, instance: Option<String> },
    System(String),
}

/// Who a subscriber is, in texts.
pub enum SubscriberView {
    App(Seq<char>),
    Wasm(Seq<char>),
    Surface { slug: Seq<char>, instance: Option<Seq<char>> },
    System(Seq<char>),
}

impl View for SubscriberEntryKind {
    type V = SubscriberView;

    open spec fn view(&self) -> SubscriberView {
        match self {
            SubscriberEntryKind::App(s) => SubscriberView::App(s@),
            SubscriberEntryKind::Wasm(s) => SubscriberView::Wasm(s@),
            SubscriberEntryKind::Surface { slug, instance } => SubscriberView::Surface {
                slug: slug@,
                instance: match instance {
                    Some(i) => Some(i@),
                    None => None,
                },
            },
            SubscriberEntryKind::System(s) => SubscriberView::System(s@),
        }
    }
}

impl SubscriberEntryKind {
    /// Whether both name the same subscriber.
    pub fn same(&self, other: &SubscriberEntryKind) -> (same: bool)
        ensures
            same == (self@ == other@),
    {
        match (self, other) {
            (SubscriberEntryKind::App(a), SubscriberEntryKind::App(b)) => *a == *b,
            (SubscriberEntryKind::Wasm(a), SubscriberEntryKind::Wasm(b)) => *a == *b,
            (
                SubscriberEntryKind::Surface { slug: a, instance: i },
                SubscriberEntryKind::Surface { slug: b, instance: j },
            ) => *a == *b && match (i, j) {
                (Some(x), Some(y)) => *x == *y,
                (None, None) => true,
                _ => false,
            },
            (SubscriberEntryKind::System(a), SubscriberEntryKind::System(b)) => *a == *b,
            _ => false,
        }
    }

    /// The slug the subscriber's rows are kept under.
    pub open spec fn slug_text(self) -> Seq<char> {
        match self {
            SubscriberEntryKind::App(s) => s@,
            SubscriberEntryKind::Wasm(s) => s@,
            SubscriberEntryKind::Surface { slug, instance } => match instance {
                Some(i) => slug@ + seq!['#'] + i@,
                None => slug@,
            },
            SubscriberEntryKind::System(s) => s@,
        }
    }

    /// The slug the subscriber's rows are kept under.
    pub fn slug(&self) -> (slug: String)
        ensures
            slug@ == self.slug_text(),
    {
        match self {
            SubscriberEntryKind::App(s) => s.clone(),
            SubscriberEntryKind::Wasm(s) => s.clone(),
            SubscriberEntryKind::Surface { slug, instance } => match instance {
                Some(i) => {
                    let mut out: String = slug.clone();
                    proof {
                        reveal_strlit("#");
                    }
                    out.append("#");
                    assert("#"@ =~= seq!['#']);
                    out.append(i.as_str());
                    out
                },
                None => slug.clone(),
            },
            SubscriberEntryKind::System(s) => s.clone(),
        }
    }
}

impl Clone for SubscriberEntryKind {
    fn clone(&self) -> (copy: SubscriberEntryKind)
        ensures
            copy == *self,
    {
        match self {
            SubscriberEntryKind::App(s) => SubscriberEntryKind::App(s.clone()),
            SubscriberEntryKind::Wasm(s) => SubscriberEntryKind::Wasm(s.clone()),
            SubscriberEntryKind::Surface { slug, instance } => SubscriberEntryKind::Surface {
                slug: slug.clone(),
                instance: match instance {
                    Some(i) => Some(i.clone()),
                    None => None,
                },
            },
            SubscriberEntryKind::System(s) => SubscriberEntryKind::System(s.clone()),
        }
    }
}

/// One subscriber of a channel and the knobs of its subscription.
#[derive(Debug, PartialEq, Eq)]
pub struct SubscriberEntry {
    pub kind: SubscriberEntryKind,
    pub push_depth: Depth,
    pub retain_depth: Depth,
    pub noise: NoiseLevel,
    pub wake_min: Option<WakeMin>,
}

/// One channel.
#[derive(Debug)]
pub struct ChannelEntry {
    pub uuid: u128,
    pub address: String,
    pub description: Option<String>,
    pub resolved_channel: ResolvedChannel,
    pub subscribers: Vec<SubscriberEntry>,
    pub transport_type: ChannelScheme,
    pub mount: Option<String>,
}

/// The channels, in declaration order.
#[derive(Debug)]
pub struct MessagingDirectory {
    pub entries: Vec<ChannelEntry>,
}

/// The first channel at `address`.
pub open spec fn channel_at(entries: Seq<ChannelEntry>, address: Seq<char>) -> Option<ChannelEntry>
    decreases entries.len(),
{
    if entries.len() == 0 {
        None
    } else if entries[0].address@ == address {
        Some(entries[0])
    } else {
        channel_at(entries.drop_first(), address)
    }
}

/// The first channel with `uuid`.
pub open spec fn channel_with(entries: Seq<ChannelEntry>, uuid: u128) -> Option<ChannelEntry>
    decreases entries.len(),
{
    if entries.len() == 0 {
        None
    } else if entries[0].uuid == uuid {
        Some(entries[0])
    } else {
        channel_with(entries.drop_first(), uuid)
    }
}

/// A directory knows an address exactly where one of its channels has it, and what it finds
/// there is such a channel.
pub proof fn lookup_finds_what_is_there(entries: Seq<ChannelEntry>, address: Seq<char>)
    ensures
        channel_at(entries, address) is Some <==> exists|i: int|
            0 <= i < entries.len() && (#[trigger] entries[i]).address@ == address,
        channel_at(entries, address) matches Some(e) ==> e.address@ == address && entries.contains(e),
    decreases entries.len(),
{
    if entries.len() > 0 && entries[0].address@ != address {
        let rest = entries.drop_first();
        lookup_finds_what_is_there(rest, address);
        if channel_at(rest, address) is Some {
            let i = choose|i: int| 0 <= i < rest.len() && (#[trigger] rest[i]).address@ == address;
            assert(entries[i + 1] == rest[i]);
            let e = channel_at(rest, address)->0;
            let k = choose|k: int| 0 <= k < rest.len() && rest[k] == e;
            assert(entries[k + 1] == e);
        }
        if exists|i: int| 0 <= i < entries.len() && (#[trigger] entries[i]).address@ == address {
            let i = choose|i: int|
                0 <= i < entries.len() && (#[trigger] entries[i]).address@ == address;
            assert(rest[i - 1] == entries[i]);
        }
    } else if entries.len() > 0 {
        assert(entries.contains(entries[0]));
    }
}

impl MessagingDirectory {
    /// The directory of these channels.
    pub fn with_entries(entries: Vec<ChannelEntry>) -> (directory: MessagingDirectory)
        ensures
            directory.entries == entries,
    {
        MessagingDirectory { entries }
    }

    /// The channel at `address`.
    pub fn resolve(&self, address: &str) -> (found: Option<&ChannelEntry>)
        ensures
            channel_at(self.entries@, address@) == (match found {
                Some(e) => Some(*e),
                None => None,
            }),
    {
        let n: usize = self.entries.len();
        let mut i: usize = 0;
        assert(self.entries@.skip(0) =~= self.entries@);
        while i < n
            invariant
                i <= n,
                n == self.entries@.len(),
                channel_at(self.entries@, address@) == channel_at(
                    self.entries@.skip(i as int),
                    address@,
                ),
            decreases n - i,
        {
            if same_text(self.entries[i].address.as_str(), address) {
                return Some(&self.entries[i]);
            }
            assert(self.entries@.skip(i as int).drop_first() =~= self.entries@.skip(i as int + 1));
            i = i + 1;
        }
        None
    }

    /// The channel with `uuid`.
    pub fn by_uuid(&self, uuid: u128) -> (found: Option<&ChannelEntry>)
        ensures
            channel_with(self.entries@, uuid) == (match found {
                Some(e) => Some(*e),
                None => None,
            }),
    {
        let n: usize = self.entries.len();
        let mut i: usize = 0;
        assert(self.entries@.skip(0) =~= self.entries@);
        while i < n
            invariant
                i <= n,
                n == self.entries@.len(),
                channel_with(self.entries@, uuid) == channel_with(
                    self.entries@.skip(i as int),
                    uuid,
                ),
            decreases n - i,
        {
            if self.entries[i].uuid == uuid {
                return Some(&self.entries[i]);
            }
            assert(self.entries@.skip(i as int).drop_first() =~= self.entries@.skip(i as int + 1));
            i = i + 1;
        }
        None
    }

    /// Add a channel behind the ones there are.
    pub fn add_channel(&mut self, channel: ChannelEntry)
        ensures
            final(self).entries@ == old(self).entries@.push(channel),
    {
        self.entries.push(channel);
    }
}

/// A directory knows a uuid exactly where one of its channels has it, and what it finds there is
/// such a channel.
pub proof fn lookup_by_uuid_finds_what_is_there(entries: Seq<ChannelEntry>, uuid: u128)
    ensures
        channel_with(entries, uuid) is Some <==> exists|i: int|
            0 <= i < entries.len() && (#[trigger] entries[i]).uuid == uuid,
        channel_with(entries, uuid) matches Some(e) ==> e.uuid == uuid && entries.contains(e),
    decreases entries.len(),
{
    if entries.len() > 0 && entries[0].uuid != uuid {
        let rest = entries.drop_first();
        lookup_by_uuid_finds_what_is_there(rest, uuid);
        if channel_with(rest, uuid) is Some {
            let e = channel_with(rest, uuid)->0;
            let k = choose|k: int| 0 <= k < rest.len() && rest[k] == e;
            assert(entries[k + 1] == e);
        }
        if exists|i: int| 0 <= i < entries.len() && (#[trigger] entries[i]).uuid == uuid {
            let i = choose|i: int| 0 <= i < entries.len() && (#[trigger] entries[i]).uuid == uuid;
            assert(rest[i - 1] == entries[i]);
        }
    } else if entries.len() > 0 {
        assert(entries.contains(entries[0]));
    }
}

/// Where several channels share an address or a uuid, the one declared first is found.
pub proof fn the_first_channel_is_found(entries: Seq<ChannelEntry>, i: int)
    requires
        0 <= i < entries.len(),
    ensures
        (forall|d: int| 0 <= d < i ==> (#[trigger] entries[d]).address@ != entries[i].address@)
            ==> channel_at(entries, entries[i].address@) == Some(entries[i]),
        (forall|d: int| 0 <= d < i ==> (#[trigger] entries[d]).uuid != entries[i].uuid)
            ==> channel_with(entries, entries[i].uuid) == Some(entries[i]),
    decreases i,
{
    if i > 0 {
        let rest = entries.drop_first();
        the_first_channel_is_found(rest, i - 1);
        assert(rest[i - 1] == entries[i]);
        if forall|d: int| 0 <= d < i ==> (#[trigger] entries[d]).address@ != entries[i].address@ {
            assert forall|d: int| 0 <= d < i - 1 implies (#[trigger] rest[d]).address@
                != rest[i - 1].address@ by {
                assert(rest[d] == entries[d + 1]);
            }
            assert(entries[0].address@ != entries[i].address@);
        }
        if forall|d: int| 0 <= d < i ==> (#[trigger] entries[d]).uuid != entries[i].uuid {
            assert forall|d: int| 0 <= d < i - 1 implies (#[trigger] rest[d]).uuid
                != rest[i - 1].uuid by {
                assert(rest[d] == entries[d + 1]);
            }
            assert(entries[0].uuid != entries[i].uuid);
        }
    }
}

/// Rows are kept under the subscriber's own name; only an instance of a surface has its id behind
/// it, after a hash sign.
pub proof fn rows_are_kept_under_the_subscribers_name(kind: SubscriberEntryKind)
    ensures
        kind matches SubscriberEntryKind::App(s) ==> kind.slug_text() == s@,
        kind matches SubscriberEntryKind::Wasm(s) ==> kind.slug_text() == s@,
        kind matches SubscriberEntryKind::System(s) ==> kind.slug_text() == s@,
        kind matches SubscriberEntryKind::Surface { slug, instance: None } ==> kind.slug_text()
            == slug@,
        kind matches SubscriberEntryKind::Surface { slug, instance: Some(id) } ==> kind.slug_text()
            == slug@ + "#"@ + id@,
{
    reveal_strlit("#");
    assert("#"@ =~= seq!['#']);
}

/// Two subscribers are the same exactly where they are of one kind and have the same names.
pub proof fn subscribers_are_told_apart(a: String, b: String, id: String)
    ensures
        SubscriberEntryKind::App(a)@ == SubscriberEntryKind::App(b)@ <==> a@ == b@,
        SubscriberEntryKind::Wasm(a)@ == SubscriberEntryKind::Wasm(b)@ <==> a@ == b@,
        SubscriberEntryKind::System(a)@ == SubscriberEntryKind::System(b)@ <==> a@ == b@,
        SubscriberEntryKind::App(a)@ != SubscriberEntryKind::Wasm(b)@,
        SubscriberEntryKind::App(a)@ != SubscriberEntryKind::System(b)@,
        SubscriberEntryKind::Wasm(a)@ != SubscriberEntryKind::System(b)@,
        (SubscriberEntryKind::Surface { slug: a, instance: Some(id) })@ != (
        SubscriberEntryKind::Surface { slug: a, instance: None })@,
        (SubscriberEntryKind::Surface { slug: id, instance: Some(a) })@ == (
        SubscriberEntryKind::Surface { slug: id, instance: Some(b) })@ <==> a@ == b@,
        (SubscriberEntryKind::Surface { slug: a, instance: Some(id) })@ == (
        SubscriberEntryKind::Surface { slug: b, instance: Some(id) })@ <==> a@ == b@,
        (SubscriberEntryKind::Surface { slug: a, instance: None })@ == (
        SubscriberEntryKind::Surface { slug: b, instance: None })@ <==> a@ == b@,
{
}

} // verus!
