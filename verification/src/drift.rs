//! Noticing that a field the stream used to carry has disappeared.
//!
//! The first time a field is present it is recorded. From then on each absence raises a warning,
//! keyed by the field, so that whoever sends the warnings sends one for each key.

use vstd::prelude::*;
use vstd::string::*;

use crate::model::AlertSeverity;
use crate::policy;
use crate::policy::contains_text;

verus! {

/// The fields that were present at least once.
#[derive(Debug)]
pub struct HaveSeen {
    seen: Vec<String>,
}

/// What a record of fields says.
#[verifier::ext_equal]
pub struct DriftView {
    pub seen: Set<Seq<char>>,
}

impl View for HaveSeen {
    type V = DriftView;

    closed spec fn view(&self) -> DriftView {
        DriftView { seen: policy::texts(self.seen@).to_set() }
    }
}

impl HaveSeen {
    /// Whether no field is recorded twice.
    pub closed spec fn well_formed(&self) -> bool {
        policy::texts(self.seen@).no_duplicates()
    }
}

/// A warning to send, once for each key.
#[derive(Debug, PartialEq, Eq)]
pub struct DriftAlert {
    pub severity: AlertSeverity,
    pub title: String,
    pub dedup_key: String,
    pub body: String,
}

/// What an observation comes to: whether work that needs the field may go on, and the warning to
/// send.
#[derive(Debug, PartialEq, Eq)]
pub struct Observation {
    pub proceed: bool,
    pub alert: Option<DriftAlert>,
}

impl DriftView {
    /// The record in which nothing was seen.
    pub open spec fn fresh() -> DriftView {
        DriftView { seen: Set::empty() }
    }

    /// Whether an observation raises a warning: the field was seen and is missing now.
    pub open spec fn warns(self, field: Seq<char>, present: bool) -> bool {
        !present && self.seen.contains(field)
    }

    /// The record after an observation.
    pub open spec fn after(self, field: Seq<char>, present: bool) -> DriftView {
        DriftView {
            seen: if present {
                self.seen.insert(field)
            } else {
                self.seen
            },
        }
    }
}

/// The title of the warning about `field`.
pub open spec fn alert_title(field: Seq<char>) -> Seq<char> {
    "CC NDJSON schema drift: "@ + field + " disappeared"@
}

/// The body of the warning about `field`.
pub open spec fn alert_body(field: Seq<char>) -> Seq<char> {
    "CC field `"@ + field
        + "` was previously present on the NDJSON stream but is now missing or has an unexpected type. This likely indicates a CC upgrade changed the protocol. The dependent broadcast was skipped."@
}

/// Whether `observation` is what observing `field` comes to on the record `before`.
pub open spec fn observed(
    before: DriftView,
    field: Seq<char>,
    present: bool,
    observation: Observation,
) -> bool {
    &&& observation.proceed == present
    &&& match observation.alert {
        Some(alert) => {
            &&& before.warns(field, present)
            &&& alert.severity == AlertSeverity::Warning
            &&& alert.title@ == alert_title(field)
            &&& alert.dedup_key@ == field
            &&& alert.body@ == alert_body(field)
        },
        None => !before.warns(field, present),
    }
}

/// The record a process starts with: no field was seen.
pub fn have_seen() -> (state: HaveSeen)
    ensures
        state.well_formed(),
        state@ == DriftView::fresh(),
{
    let state = HaveSeen { seen: Vec::new() };
    assert(state@ =~= DriftView::fresh());
    state
}

fn record(list: &mut Vec<String>, field: &str)
    requires
        policy::texts(old(list)@).no_duplicates(),
    ensures
        policy::texts(final(list)@).no_duplicates(),
        policy::texts(final(list)@).to_set() == policy::texts(old(list)@).to_set().insert(field@),
{
    let ghost before = policy::texts(list@);
    if contains_text(list, field) {
        assert(before.to_set() =~= before.to_set().insert(field@));
        return;
    }
    list.push(field.to_owned());
    let ghost after = policy::texts(list@);
    assert(after =~= before.push(field@));
    proof {
        assert forall|t: Seq<char>|
            after.to_set().contains(t) == before.to_set().insert(field@).contains(t) by {
            if before.contains(t) {
                let k = choose|k: int| 0 <= k < before.len() && before[k] == t;
                assert(after[k] == t);
            }
            if t == field@ {
                assert(after[before.len() as int] == t);
            }
        }
        assert(after.to_set() =~= before.to_set().insert(field@));
        assert forall|i: int, j: int|
            0 <= i < after.len() && 0 <= j < after.len() && i != j implies after[i] != after[j] by {
            if i < before.len() && j == before.len() {
                assert(before.contains(before[i]));
            }
            if j < before.len() && i == before.len() {
                assert(before.contains(before[j]));
            }
        }
    }
}

/// Record an observation of an expected field.
pub fn observe(state: &mut HaveSeen, field: &str, present: bool) -> (observation: Observation)
    requires
        old(state).well_formed(),
    ensures
        final(state).well_formed(),
        final(state)@ == old(state)@.after(field@, present),
        observed(old(state)@, field@, present, observation),
{
    if present {
        record(&mut state.seen, field);
        return Observation { proceed: true, alert: None };
    }
    if !contains_text(&state.seen, field) {
        return Observation { proceed: false, alert: None };
    }
    let mut title: String = "CC NDJSON schema drift: ".to_owned();
    title.append(field);
    title.append(" disappeared");
    let mut body: String = "CC field `".to_owned();
    body.append(field);
    body.append(
        "` was previously present on the NDJSON stream but is now missing or has an unexpected type. This likely indicates a CC upgrade changed the protocol. The dependent broadcast was skipped.",
    );
    Observation {
        proceed: false,
        alert: Some(
            DriftAlert {
                severity: AlertSeverity::Warning,
                title,
                dedup_key: field.to_owned(),
                body,
            },
        ),
    }
}

/// Record an observation, with a flag of the caller's own that stands for one field: where it is
/// set and the field is present, the record is left alone.
pub fn observe_with_cache(
    state: &mut HaveSeen,
    field: &str,
    present: bool,
    seen_cache: &mut bool,
) -> (observation: Observation)
    requires
        old(state).well_formed(),
    ensures
        final(state).well_formed(),
        final(state)@ == (if present && *old(seen_cache) {
            old(state)@
        } else {
            old(state)@.after(field@, present)
        }),
        *final(seen_cache) == (*old(seen_cache) || present),
        observed(old(state)@, field@, present, observation),
{
    if present && *seen_cache {
        return Observation { proceed: true, alert: None };
    }
    let observation: Observation = observe(state, field, present);
    if observation.proceed && present {
        *seen_cache = true;
    }
    observation
}

/// A flag that is set only for a field that was seen changes nothing: with it and without it the
/// record comes out the same, and the flag stays true to the record.
pub proof fn the_cache_is_transparent(
    before: DriftView,
    field: Seq<char>,
    present: bool,
    cached: bool,
)
    requires
        cached ==> before.seen.contains(field),
    ensures
        (if present && cached {
            before
        } else {
            before.after(field, present)
        }) == before.after(field, present),
        (cached || present) ==> before.after(field, present).seen.contains(field),
{
    if present && cached {
        assert(before.after(field, present) =~= before);
    }
}

/// Nothing is ever taken from the record.
pub proof fn the_record_only_grows(before: DriftView, field: Seq<char>, present: bool)
    ensures
        before.seen.subset_of(before.after(field, present).seen),
{
}

/// The record after a history of observations.
pub open spec fn record_of(history: Seq<(Seq<char>, bool)>) -> DriftView
    decreases history.len(),
{
    if history.len() == 0 {
        DriftView::fresh()
    } else {
        record_of(history.drop_last()).after(history.last().0, history.last().1)
    }
}

/// Whatever was observed in whatever order, the absence of a field raises a warning exactly where
/// the field was present at some earlier point. What was seen of other fields does not enter.
pub proof fn a_warning_follows_a_sighting(history: Seq<(Seq<char>, bool)>, field: Seq<char>)
    ensures
        record_of(history).seen.contains(field) <==> history.contains((field, true)),
        record_of(history).warns(field, false) <==> history.contains((field, true)),
    decreases history.len(),
{
    if history.len() > 0 {
        let before = history.drop_last();
        let n = before.len() as int;
        a_warning_follows_a_sighting(before, field);
        if before.contains((field, true)) {
            let k = choose|k: int| 0 <= k < before.len() && before[k] == (field, true);
            assert(history[k] == (field, true));
        }
        if history.contains((field, true)) {
            let k = choose|k: int| 0 <= k < history.len() && history[k] == (field, true);
            if k < n {
                assert(before[k] == (field, true));
            }
        }
        if history[n] == (field, true) {
            assert(history.contains((field, true)));
        }
    }
}

/// Every alert about a field has that field as its key: two alerts have one key exactly where
/// they are about one field, whenever they were raised.
pub proof fn alerts_are_keyed_by_their_field(
    first: (DriftView, Seq<char>, bool),
    first_seen: Observation,
    second: (DriftView, Seq<char>, bool),
    second_seen: Observation,
)
    requires
        observed(first.0, first.1, first.2, first_seen),
        observed(second.0, second.1, second.2, second_seen),
        first_seen.alert is Some,
        second_seen.alert is Some,
    ensures
        first_seen.alert->0.dedup_key@ == first.1,
        first_seen.alert->0.dedup_key@ == second_seen.alert->0.dedup_key@ <==> first.1 == second.1,
{
}

/// Work that needs a field goes on exactly where the field is present. A warning comes exactly
/// where it is missing and was seen before, and names the field in its title, its key and its
/// body.
pub proof fn a_warning_names_the_missing_field(
    before: DriftView,
    field: Seq<char>,
    present: bool,
    observation: Observation,
)
    requires
        observed(before, field, present, observation),
    ensures
        observation.proceed <==> present,
        observation.alert is Some <==> !present && before.seen.contains(field),
        observation.alert matches Some(alert) ==> {
            &&& alert.severity == AlertSeverity::Warning
            &&& alert.dedup_key@ == field
            &&& alert.title@ == "CC NDJSON schema drift: "@ + field + " disappeared"@
            &&& alert.body@ == "CC field `"@ + field
                + "` was previously present on the NDJSON stream but is now missing or has an unexpected type. This likely indicates a CC upgrade changed the protocol. The dependent broadcast was skipped."@
        },
{
}

/// An observation records its own field where it is present, and nothing else ever.
pub proof fn only_a_present_field_is_recorded(
    before: DriftView,
    field: Seq<char>,
    present: bool,
    other: Seq<char>,
)
    ensures
        before.after(field, present).seen.contains(other) <==> before.seen.contains(other) || (
        present && other == field),
        !DriftView::fresh().seen.contains(field),
{
}

} // verus!
