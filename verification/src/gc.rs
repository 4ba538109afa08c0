//! The hourly cleanup passes: when each runs, and what the bus pass does with a channel.

use vstd::prelude::*;
use vstd::string::*;

use crate::directory::ChannelEntry;
use crate::model::Depth;

verus! {

/// How long each cleanup loop sleeps between passes, in seconds.
pub const HOURLY_INTERVAL_SECS: u64 = 3600;

/// How long the bus loop waits before it starts, in seconds.
pub const BUS_GC_STAGGER_SECS: u64 = 45 * 60;

/// A cleanup loop.
#[derive(Clone, Copy, Debug, PartialEq, Eq, Structural)]
pub enum CleanupLoop {
    Sessions,
    Ingress,
    Bus,
}

impl CleanupLoop {
    /// How long the loop waits before it starts, in seconds.
    pub open spec fn stagger(self) -> u64 {
        match self {
            CleanupLoop::Sessions => 0,
            CleanupLoop::Ingress => HOURLY_INTERVAL_SECS / 2,
            CleanupLoop::Bus => BUS_GC_STAGGER_SECS,
        }
    }

    /// How long the loop waits before it starts, in seconds.
    pub fn stagger_secs(self) -> (secs: u64)
        ensures
            secs == self.stagger(),
    {
        match self {
            CleanupLoop::Sessions => 0,
            CleanupLoop::Ingress => HOURLY_INTERVAL_SECS / 2,
            CleanupLoop::Bus => BUS_GC_STAGGER_SECS,
        }
    }

    /// When the loop's pass `k` begins, in seconds after the start, where passes take no time.
    pub open spec fn pass_at(self, k: nat) -> int {
        self.stagger() + (k + 1) * HOURLY_INTERVAL_SECS
    }
}

/// No two loops ever begin a pass at the same moment: between the passes of two of them there is
/// always a quarter of an hour.
pub proof fn loops_never_coincide(a: CleanupLoop, b: CleanupLoop, j: nat, k: nat)
    requires
        a != b,
    ensures
        a.pass_at(j) - b.pass_at(k) >= 900 || b.pass_at(k) - a.pass_at(j) >= 900,
{
    let x = a.stagger() as int;
    let y = b.stagger() as int;
    assert(a.pass_at(j) == x + 3600 * (j + 1));
    assert(b.pass_at(k) == y + 3600 * (k + 1));
    if j > k {
        assert(3600 * (j + 1) >= 3600 * (k + 1) + 3600);
    }
    if k > j {
        assert(3600 * (k + 1) >= 3600 * (j + 1) + 3600);
    }
}

/// The push claims of one subscriber: those past the newest `keep` are retired.
#[derive(Debug, PartialEq, Eq)]
pub struct PushRetirement {
    pub subscriber: String,
    pub keep: u64,
}

/// What the bus pass does with a channel.
#[derive(Debug, PartialEq, Eq)]
pub struct ChannelSweep {
    /// Bodies past this many are evicted.
    pub frontier: u64,
    pub retirements: Vec<PushRetirement>,
}

/// The retirements for the first `n` subscribers of a channel: one for each with a bounded window
/// that is not shut.
pub open spec fn retirements_of(entry: ChannelEntry, n: nat) -> Seq<(Seq<char>, u64)>
    decreases n,
{
    if n == 0 {
        Seq::empty()
    } else {
        let before = retirements_of(entry, (n - 1) as nat);
        let sub = entry.subscribers@[n - 1];
        match sub.push_depth {
            Depth::Bounded(keep) if keep > 0 => before.push((sub.kind.slug_text(), keep)),
            _ => before,
        }
    }
}

/// What a list of retirements says.
pub open spec fn retirement_views(list: Seq<PushRetirement>) -> Seq<(Seq<char>, u64)> {
    Seq::new(list.len(), |i: int| (list[i].subscriber@, list[i].keep))
}

/// What the bus pass does with a channel whose reap frontier is `frontier`. A channel without one
/// is pinned and left alone altogether.
pub fn sweep_channel(entry: &ChannelEntry, frontier: Option<u64>) -> (sweep: Option<ChannelSweep>)
    ensures
        match frontier {
            None => sweep is None,
            Some(depth) => sweep matches Some(s) && s.frontier == depth && retirement_views(
                s.retirements@,
            ) == retirements_of(*entry, entry.subscribers@.len()),
        },
{
    let depth: u64 = match frontier {
        Some(depth) => depth,
        None => {
            return None;
        },
    };
    let mut retirements: Vec<PushRetirement> = Vec::new();
    let n: usize = entry.subscribers.len();
    let mut i: usize = 0;
    assert(retirement_views(retirements@) =~= retirements_of(*entry, 0));
    while i < n
        invariant
            i <= n,
            n == entry.subscribers@.len(),
            retirement_views(retirements@) == retirements_of(*entry, i as nat),
        decreases n - i,
    {
        if let Depth::Bounded(keep) = entry.subscribers[i].push_depth {
            if keep > 0 {
                let ghost before = retirements@;
                retirements.push(
                    PushRetirement { subscriber: entry.subscribers[i].kind.slug(), keep },
                );
                assert(retirement_views(retirements@) =~= retirement_views(before).push(
                    (entry.subscribers@[i as int].kind.slug_text(), keep),
                ));
            }
        }
        i = i + 1;
    }
    Some(ChannelSweep { frontier: depth, retirements })
}

/// Every loop runs once an hour, for the first time an hour after it started: the session loop
/// starts at once, the ingress loop after half an hour, the bus loop after three quarters.
pub proof fn each_loop_runs_hourly_from_its_own_start(k: nat)
    ensures
        CleanupLoop::Sessions.pass_at(k) == 3600 * (k + 1),
        CleanupLoop::Ingress.pass_at(k) == 1800 + 3600 * (k + 1),
        CleanupLoop::Bus.pass_at(k) == 2700 + 3600 * (k + 1),
{
}

/// The bus pass retires claims of exactly the subscribers whose window is bounded and not shut,
/// keeping as many as the window holds, under the name the subscriber's rows are kept under.
pub proof fn exactly_the_bounded_windows_are_retired(
    entry: ChannelEntry,
    n: nat,
    item: (Seq<char>, u64),
)
    requires
        n <= entry.subscribers@.len(),
    ensures
        retirements_of(entry, n).contains(item) <==> exists|i: int|
            0 <= i < n && (#[trigger] entry.subscribers@[i]).push_depth == Depth::Bounded(item.1)
                && item.1 > 0 && entry.subscribers@[i].kind.slug_text() == item.0,
        retirements_of(entry, n).len() <= n,
    decreases n,
{
    if n > 0 {
        let m = (n - 1) as nat;
        exactly_the_bounded_windows_are_retired(entry, m, item);
        let before = retirements_of(entry, m);
        let after = retirements_of(entry, n);
        let last = entry.subscribers@[n - 1];
        if before.contains(item) {
            let k = choose|k: int| 0 <= k < before.len() && before[k] == item;
            assert(after[k] == item);
        }
        if last.push_depth == Depth::Bounded(item.1) && item.1 > 0 && last.kind.slug_text()
            == item.0 {
            assert(after[before.len() as int] == item);
        }
        if after.contains(item) {
            let k = choose|k: int| 0 <= k < after.len() && after[k] == item;
            if k < before.len() {
                assert(before[k] == item);
            } else {
                assert(entry.subscribers@[n - 1].push_depth == Depth::Bounded(item.1));
            }
        }
    }
}

/// What a list of retirements says is each one's subscriber and how much it keeps, in order.
pub proof fn retirements_say_who_keeps_what(list: Seq<PushRetirement>, i: int)
    requires
        0 <= i < list.len(),
    ensures
        retirement_views(list).len() == list.len(),
        retirement_views(list)[i].0 == list[i].subscriber@,
        retirement_views(list)[i].1 == list[i].keep,
{
}

/// Retirements come in the order of the subscribers: one more subscriber adds at most one, behind
/// the others.
pub proof fn retirements_follow_the_subscribers(entry: ChannelEntry, n: nat)
    requires
        n < entry.subscribers@.len(),
    ensures
        retirements_of(entry, n).is_prefix_of(retirements_of(entry, n + 1)),
        retirements_of(entry, n + 1).len() == retirements_of(entry, n).len() + (
        match entry.subscribers@[n as int].push_depth {
            Depth::Unbounded => 0int,
            Depth::Bounded(keep) => if keep == 0 {
                0int
            } else {
                1int
            },
        }),
{
}

} // verus!
