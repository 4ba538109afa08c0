//! The small vocabularies the configuration is written in.

use vstd::prelude::*;

verus! {

/// How many messages a window may hold.
#[derive(Clone, Copy, Debug, PartialEq, Eq, Structural)]
pub enum Depth {
    Bounded(u64),
    Unbounded,
}

impl Depth {
    /// The wider of the two windows; an unbounded window is wider than any number.
    pub open spec fn wider(self, other: Depth) -> Depth {
        match (self, other) {
            (Depth::Bounded(a), Depth::Bounded(b)) => Depth::Bounded(if a < b { b } else { a }),
            _ => Depth::Unbounded,
        }
    }

    /// Widen this window so that it also covers `other`.
    pub fn widened_by(self, other: Depth) -> (wide: Depth)
        ensures
            wide == self.wider(other),
    {
        match (self, other) {
            (Depth::Bounded(a), Depth::Bounded(b)) => Depth::Bounded(if a < b { b } else { a }),
            _ => Depth::Unbounded,
        }
    }

    /// Whether anything can ever be pushed through the window.
    pub fn is_push_enabled(self) -> (enabled: bool)
        ensures
            enabled == (self != Depth::Bounded(0)),
    {
        match self {
            Depth::Bounded(n) => n > 0,
            Depth::Unbounded => true,
        }
    }
}

/// How loudly a full window is reported, from quietest to loudest.
#[derive(Clone, Copy, Debug, PartialEq, Eq, Structural)]
pub enum NoiseLevel {
    Silent,
    Metered,
    Alarm,
    Fatal,
}

impl NoiseLevel {
    /// Whether overflow at this level raises an alert.
    pub open spec fn loud(self) -> bool {
        self is Alarm || self is Fatal
    }

    /// Whether overflow at this level raises an alert.
    pub fn alerts(self) -> (loud: bool)
        ensures
            loud == self.loud(),
    {
        match self {
            NoiseLevel::Silent | NoiseLevel::Metered => false,
            NoiseLevel::Alarm | NoiseLevel::Fatal => true,
        }
    }
}

/// The least urgency that wakes a parked subscriber.
#[derive(Clone, Copy, Debug, PartialEq, Eq, Structural)]
pub enum WakeMin {
    VeryLow,
    Low,
    Normal,
    High,
    Never,
}

/// How urgent a published message is.
#[derive(Clone, Copy, Debug, PartialEq, Eq, Structural)]
pub enum Urgency {
    VeryLow,
    Low,
    Normal,
    High,
}

/// What becomes of a message that leaves its channel's retention.
#[derive(Clone, Copy, Debug, PartialEq, Eq, Structural)]
pub enum Sink {
    Drop,
    Archive,
}

/// What a sink may publish: tokens gained per activation and tokens carried over, in
/// thousandths of a publish.
#[derive(Clone, Copy, Debug, PartialEq, Eq, Structural)]
pub struct SinkBudget {
    pub fill_mt: u64,
    pub capacity_mt: u64,
}

/// When a subscriber is woken for a message that waits for it.
#[derive(Clone, Copy, Debug, PartialEq, Eq, Structural)]
pub enum WakeEconomics {
    /// At once: waking it is cheap.
    Eager,
    /// Only for a message as urgent as its subscription asks for.
    Gated,
}

/// How grave a message to the operator is.
#[derive(Clone, Copy, Debug, PartialEq, Eq, Structural)]
pub enum AlertSeverity {
    Warning,
    Critical,
}

/// Thousandths of a publish in one publish.
pub const MILLITOKENS_PER_PUBLISH: u64 = 1000;

/// The budget knob where the operator states none: one publish.
pub const DEFAULT_PUBLISH_MT: u64 = 1000;

/// The most publishes one activation may flush.
pub const MAX_PUBLISHES_PER_ACTIVATION: u32 = 256;

/// The value of an optional knob: the stated one, or the rung it falls back on.
pub open spec fn or_rung<T>(stated: Option<T>, rung: T) -> T {
    match stated {
        Some(v) => v,
        None => rung,
    }
}

/// A sink's budget from its two optional knobs.
pub open spec fn budget_of(fill_mt: Option<u64>, capacity_mt: Option<u64>) -> SinkBudget {
    SinkBudget {
        fill_mt: or_rung(fill_mt, DEFAULT_PUBLISH_MT),
        capacity_mt: or_rung(capacity_mt, DEFAULT_PUBLISH_MT),
    }
}

/// Resolve a sink's two optional knobs, each on its own.
pub fn resolve_sink_budget(fill_mt: Option<u64>, capacity_mt: Option<u64>) -> (budget: SinkBudget)
    ensures
        budget == budget_of(fill_mt, capacity_mt),
{
    SinkBudget {
        fill_mt: match fill_mt {
            Some(v) => v,
            None => DEFAULT_PUBLISH_MT,
        },
        capacity_mt: match capacity_mt {
            Some(v) => v,
            None => DEFAULT_PUBLISH_MT,
        },
    }
}

/// The first fault of two checks made one after the other.
pub open spec fn first_of<E>(first: Option<E>, second: Option<E>) -> Option<E> {
    match first {
        Some(e) => Some(e),
        None => second,
    }
}

/// A check: the fault it reports where its condition does not hold.
pub open spec fn unless<E>(holds: bool, fault: E) -> Option<E> {
    if holds {
        None
    } else {
        Some(fault)
    }
}

/// The first of the items `0..n` that a check faults, and its fault.
pub open spec fn first_fault<E>(check: spec_fn(int) -> Option<E>, n: nat) -> Option<(nat, E)>
    decreases n,
{
    if n == 0 {
        None
    } else {
        match first_fault(check, (n - 1) as nat) {
            Some(fault) => Some(fault),
            None => match check(n - 1) {
                Some(e) => Some(((n - 1) as nat, e)),
                None => None,
            },
        }
    }
}

/// A fault found among the first items stays the first one however many items follow.
pub proof fn fault_stands<E>(check: spec_fn(int) -> Option<E>, m: nat, n: nat)
    requires
        m <= n,
        first_fault(check, m) is Some,
    ensures
        first_fault(check, n) == first_fault(check, m),
    decreases n - m,
{
    if m < n {
        fault_stands(check, m, (n - 1) as nat);
    }
}

/// The first fault is the fault of the least item that the check faults, and there is none
/// exactly where the check faults no item.
pub proof fn first_fault_is_first<E>(check: spec_fn(int) -> Option<E>, n: nat)
    ensures
        first_fault(check, n) is None <==> forall|i: int|
            0 <= i < n ==> (#[trigger] check(i)) is None,
        first_fault(check, n) matches Some(f) ==> f.0 < n && check(f.0 as int) == Some(f.1)
            && forall|i: int| 0 <= i < f.0 ==> (#[trigger] check(i)) is None,
    decreases n,
{
    if n > 0 {
        first_fault_is_first(check, (n - 1) as nat);
    }
}

/// Two checks that agree on every item find the same first fault.
pub proof fn equal_checks_agree<E>(
    a: spec_fn(int) -> Option<E>,
    b: spec_fn(int) -> Option<E>,
    n: nat,
)
    requires
        forall|i: int| 0 <= i < n ==> #[trigger] a(i) == b(i),
    ensures
        first_fault(a, n) == first_fault(b, n),
    decreases n,
{
    if n > 0 {
        equal_checks_agree(a, b, (n - 1) as nat);
        assert(a(n - 1) == b(n - 1));
    }
}

/// Widening is the maximum of the two windows: the order of the two does not matter, it is
/// associative and idempotent, and it never narrows either window.
pub proof fn widening_is_a_maximum(a: Depth, b: Depth, c: Depth)
    ensures
        a.wider(b) == b.wider(a),
        a.wider(b.wider(c)) == a.wider(b).wider(c),
        a.wider(a) == a,
        a.wider(b).wider(a) == a.wider(b),
{
}

/// A stated knob holds whatever the rung, an unstated one is the rung; a sink without stated
/// knobs has one publish and room for one.
pub proof fn stated_knobs_hold(stated: u64, rung: u64, other: Option<u64>)
    ensures
        or_rung(Some(stated), rung) == stated,
        or_rung(None, rung) == rung,
        budget_of(Some(stated), other).fill_mt == stated,
        budget_of(None, other).fill_mt == 1000,
        budget_of(other, Some(stated)).capacity_mt == stated,
        budget_of(other, None).capacity_mt == 1000,
{
}

/// Alarms and fatal noises are loud, the silent and the metered one are not.
pub proof fn two_noises_are_loud()
    ensures
        NoiseLevel::Alarm.loud(),
        NoiseLevel::Fatal.loud(),
        !NoiseLevel::Silent.loud(),
        !NoiseLevel::Metered.loud(),
{
}

/// The wider of two bounded depths holds as much as each of them and no more than one of them;
/// an unbounded depth is as wide as can be.
pub proof fn the_wider_depth_holds_both(a: u64, b: u64, d: Depth)
    ensures
        Depth::Bounded(a).wider(Depth::Bounded(b)) matches Depth::Bounded(m) && m >= a && m >= b && (
        m == a || m == b),
        Depth::Unbounded.wider(d) == Depth::Unbounded,
        d.wider(Depth::Unbounded) == Depth::Unbounded,
{
}

} // verus!
