//! Watching fields of the stream appear and disappear.

use brenn_server::drift::{have_seen, observe, observe_with_cache, DriftAlert};
use brenn_server::model::AlertSeverity;

#[test]
fn cc_schema_drift_alerts_on_disappearance() {
    let mut state = have_seen();
    let first = observe(&mut state, "test_field_disappears_1", true);
    assert!(first.proceed);
    assert!(first.alert.is_none(), "no alert on first presence");
    let second = observe(&mut state, "test_field_disappears_1", false);
    assert!(!second.proceed, "should return false when field disappears");
    let alert = second.alert.expect("exactly one alert on disappearance");
    assert_eq!(alert.title, "CC NDJSON schema drift: test_field_disappears_1 disappeared");
    assert_eq!(alert.severity, AlertSeverity::Warning);
    assert_eq!(alert.dedup_key, "test_field_disappears_1");
    assert_eq!(
        alert.body,
        "CC field `test_field_disappears_1` was previously present on the NDJSON stream \
         but is now missing or has an unexpected type. This likely indicates \
         a CC upgrade changed the protocol. The dependent broadcast was skipped."
    );
}

#[test]
fn cc_schema_drift_silent_on_first_absence() {
    let mut state = have_seen();
    let observation = observe(&mut state, "test_field_never_seen_1", false);
    assert!(!observation.proceed, "should return false for absent field");
    assert!(observation.alert.is_none(), "no alert on first-ever absence");
}

/// Sends one alert for each severity and key, however often it is handed one.
struct OncePerKey {
    sent: Vec<(AlertSeverity, String)>,
}

impl OncePerKey {
    fn hand(&mut self, alert: &DriftAlert) {
        let key = (alert.severity, alert.dedup_key.clone());
        if !self.sent.contains(&key) {
            self.sent.push(key);
        }
    }
}

#[test]
fn cc_schema_drift_dedupes_repeated_alerts() {
    let mut state = have_seen();
    let mut dispatcher = OncePerKey { sent: vec![] };
    assert!(observe(&mut state, "test_field_dedup_1", true).alert.is_none());
    for _ in 0..3 {
        let observation = observe(&mut state, "test_field_dedup_1", false);
        assert!(!observation.proceed);
        dispatcher.hand(&observation.alert.expect("each absence is handed on"));
    }
    assert_eq!(
        dispatcher.sent,
        vec![(AlertSeverity::Warning, "test_field_dedup_1".to_string())],
        "should only fire one alert regardless of repeated absences"
    );
}

#[test]
fn fields_are_watched_apart() {
    let mut state = have_seen();
    observe(&mut state, "a", true);
    assert!(observe(&mut state, "b", false).alert.is_none());
    assert_eq!(observe(&mut state, "a", false).alert.unwrap().dedup_key, "a");
    observe(&mut state, "b", true);
    assert_eq!(observe(&mut state, "b", false).alert.unwrap().dedup_key, "b");
    assert_eq!(observe(&mut state, "a", false).alert.unwrap().dedup_key, "a");
}

#[test]
fn observe_with_cache_fast_path_skips_mutex_after_warming() {
    let mut state = have_seen();
    let mut cache = false;
    let r1 = observe_with_cache(&mut state, "owc_fast_path_1", true, &mut cache);
    assert!(r1.proceed, "present=true should return true");
    assert!(cache, "cache should be warmed");
    let r2 = observe_with_cache(&mut state, "owc_fast_path_1", true, &mut cache);
    assert!(r2.proceed, "fast path should return true");
    assert!(r1.alert.is_none() && r2.alert.is_none(), "no alert when field stays present");
}

#[test]
fn observe_with_cache_absent_falls_through_after_warming() {
    let mut state = have_seen();
    let mut cache = false;
    observe_with_cache(&mut state, "owc_absent_fallthrough_1", true, &mut cache);
    assert!(cache, "cache should be warmed");
    let r = observe_with_cache(&mut state, "owc_absent_fallthrough_1", false, &mut cache);
    assert!(!r.proceed, "absent after presence should return false");
    assert!(r.alert.is_some(), "alert fires when field disappears");
    assert!(cache);
}
