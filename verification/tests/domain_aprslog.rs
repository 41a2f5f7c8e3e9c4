use sotalog::calendar::utc_seconds;
use sotalog::domain::model::aprslog::{
    approach_state, next_aprs_state, spots_pattern, welcome_message, AprsState,
};

fn make_test_time() -> i64 {
    utc_seconds(2025, 1, 1, 12, 0, 0).unwrap()
}

#[test]
fn test_aprs_state_travelling_distance() {
    let state = AprsState::Travelling {
        time: make_test_time(),
    };
    assert_eq!(state.distance(), 0);
}

#[test]
fn test_aprs_state_approaching_distance() {
    let state = AprsState::Approaching {
        time: make_test_time(),
        distance: 1500,
    };
    assert_eq!(state.distance(), 1500);
}

#[test]
fn test_aprs_state_climbing_distance() {
    let state = AprsState::Climbing {
        time: make_test_time(),
        distance: 800,
    };
    assert_eq!(state.distance(), 800);
}

#[test]
fn test_aprs_state_near_summit_distance() {
    let state = AprsState::NearSummit {
        time: make_test_time(),
        distance: 150,
        message: "Approaching summit".to_string(),
    };
    assert_eq!(state.distance(), 150);
}

#[test]
fn test_aprs_state_on_summit_distance() {
    let state = AprsState::OnSummit {
        time: make_test_time(),
        distance: 50,
        message: "Welcome to summit".to_string(),
    };
    assert_eq!(state.distance(), 50);
}

#[test]
fn test_aprs_state_descending_distance() {
    let state = AprsState::Descending {
        time: make_test_time(),
        distance: 300,
    };
    assert_eq!(state.distance(), 300);
}

#[test]
fn test_aprs_state_time() {
    let time = make_test_time();
    let state = AprsState::Approaching {
        time,
        distance: 1000,
    };
    assert_eq!(state.time(), time);
}

#[test]
fn test_aprs_state_message_none_for_travelling() {
    let state = AprsState::Travelling {
        time: make_test_time(),
    };
    assert!(state.message().is_none());
}

#[test]
fn test_aprs_state_message_none_for_approaching() {
    let state = AprsState::Approaching {
        time: make_test_time(),
        distance: 1000,
    };
    assert!(state.message().is_none());
}

#[test]
fn test_aprs_state_message_none_for_climbing() {
    let state = AprsState::Climbing {
        time: make_test_time(),
        distance: 500,
    };
    assert!(state.message().is_none());
}

#[test]
fn test_aprs_state_message_some_for_near_summit() {
    let msg = "Approaching JA/TK-001".to_string();
    let state = AprsState::NearSummit {
        time: make_test_time(),
        distance: 150,
        message: msg.clone(),
    };
    assert_eq!(state.message(), Some(&msg));
}

#[test]
fn test_aprs_state_message_some_for_on_summit() {
    let msg = "Welcome to JA/TK-001".to_string();
    let state = AprsState::OnSummit {
        time: make_test_time(),
        distance: 50,
        message: msg.clone(),
    };
    assert_eq!(state.message(), Some(&msg));
}

#[test]
fn test_aprs_state_message_none_for_descending() {
    let state = AprsState::Descending {
        time: make_test_time(),
        distance: 300,
    };
    assert!(state.message().is_none());
}

#[test]
fn approach_state_by_distance() {
    let t = make_test_time();
    assert!(matches!(approach_state(t, 1001, "JA/TK-001", String::new()), AprsState::Approaching { distance: 1001, .. }));
    assert!(matches!(approach_state(t, 1000, "JA/TK-001", String::new()), AprsState::Climbing { distance: 1000, .. }));
    assert!(matches!(approach_state(t, 300, "JA/TK-001", String::new()), AprsState::NearSummit { distance: 300, .. }));
    let near = approach_state(t, 150, "JA/TK-001", String::new());
    assert_eq!(near.message().unwrap(), "Approaching JA/TK-001. 150m remaining.");
    let on = approach_state(t, 100, "JA/TK-001", "welcome".to_string());
    assert!(matches!(on, AprsState::OnSummit { .. }));
    assert_eq!(on.message().unwrap(), "welcome");
    assert_eq!(on.time(), t);
}

#[test]
fn welcome_message_with_and_without_city() {
    assert_eq!(spots_pattern("JA/TK-001"), "^JA.*");
    assert_eq!(spots_pattern("W7W/LC-001"), ".*");
    let ja = welcome_message("JA/TK-001", "Kumotoriyama", 2017, 10, Some("Okutama".to_string()), "No Spots.");
    assert_eq!(ja, "Welcome to JA/TK-001. Kumotoriyama 2017m 10pts.\nOkutama\nNo Spots.");
    let ja_nocity = welcome_message("JA/TK-001", "Kumotoriyama", 2017, 10, None, "x");
    assert_eq!(ja_nocity, "Welcome to JA/TK-001. Kumotoriyama 2017m 10pts.\n\nx");
    let w = welcome_message("W7W/LC-001", "Peak", -5, 4, Some("City".to_string()), "y");
    assert_eq!(w, "Welcome to W7W/LC-001. Peak -5m 4pts.\ny");
}

#[test]
fn transitions_of_reports() {
    let t = make_test_time();
    let near = || AprsState::NearSummit { time: t, distance: 150, message: "near".to_string() };
    let on = || AprsState::OnSummit { time: t, distance: 20, message: "on".to_string() };
    let far = || AprsState::Approaching { time: t, distance: 5000 };

    let (s, send) = next_aprs_state(None, "JA/TK-001", near());
    assert!(matches!(s, AprsState::NearSummit { .. }) && send);
    let (s, send) = next_aprs_state(None, "JA/TK-001", far());
    assert!(matches!(s, AprsState::Approaching { .. }) && !send);

    let (s, send) = next_aprs_state(Some((Some("JA/TK-002".to_string()), on())), "JA/TK-001", far());
    assert!(matches!(s, AprsState::Approaching { .. }) && !send);

    let (s, send) = next_aprs_state(Some((Some("JA/TK-001".to_string()), far())), "JA/TK-001", near());
    assert!(matches!(s, AprsState::NearSummit { .. }) && send);
    let (s, send) = next_aprs_state(Some((Some("JA/TK-001".to_string()), near())), "JA/TK-001", on());
    assert!(matches!(s, AprsState::OnSummit { .. }) && send);
    let (s, send) = next_aprs_state(Some((Some("JA/TK-001".to_string()), on())), "JA/TK-001", on());
    assert!(matches!(s, AprsState::OnSummit { .. }) && !send);
    let (s, send) = next_aprs_state(Some((Some("JA/TK-001".to_string()), on())), "JA/TK-001", near());
    assert!(matches!(s, AprsState::Descending { distance: 150, .. }) && !send);
    let (s, send) = next_aprs_state(Some((Some("JA/TK-001".to_string()), near())), "JA/TK-001", near());
    assert!(matches!(s, AprsState::NearSummit { .. }) && !send);
    let (s, send) = next_aprs_state(Some((Some("JA/TK-001".to_string()), near())), "JA/TK-001", far());
    assert!(matches!(s, AprsState::NearSummit { .. }) && !send);
}
