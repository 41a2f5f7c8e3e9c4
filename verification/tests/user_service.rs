use sotalog::domain::model::activation::{Alert, Spot};
use sotalog::domain::model::event::{get_alert_group, get_spot_group, FindActBuilder, GroupBy};
use sotalog::domain::model::AwardProgram;
use sotalog::user_service::{group_alerts, group_spots, park_qsos_in};

fn make_test_alert(activator: &str, reference: &str) -> Alert {
    Alert {
        program: AwardProgram::SOTA,
        alert_id: 1,
        user_id: 1,
        activator: activator.to_string(),
        activator_name: None,
        operator: activator.to_string(),
        reference: reference.to_string(),
        reference_detail: "Test Summit".to_string(),
        location: "Tokyo".to_string(),
        start_time: 0,
        end_time: None,
        frequencies: "14.280".to_string(),
        comment: Some("Test".to_string()),
        poster: Some(activator.to_string()),
    }
}

fn make_test_spot(activator: &str, reference: &str) -> Spot {
    Spot {
        program: AwardProgram::SOTA,
        spot_id: 1,
        activator: activator.to_string(),
        activator_name: None,
        operator: activator.to_string(),
        reference: reference.to_string(),
        reference_detail: "Test Summit".to_string(),
        spot_time: 0,
        frequency: "14.280".to_string(),
        mode: "SSB".to_string(),
        spotter: "JA2XYZ".to_string(),
        comment: Some("Test".to_string()),
    }
}

#[test]
fn test_get_alert_group_by_callsign() {
    let event = FindActBuilder::default()
        .sota()
        .group_by_callsign(Some("JA1ABC".to_string()))
        .build();

    let alert = make_test_alert("JA1ABC", "JA/TK-001");
    let group = get_alert_group(&event, &alert);

    match group {
        GroupBy::Callsign(Some(call)) => assert_eq!(call, "JA1ABC"),
        _ => panic!("Expected GroupBy::Callsign"),
    }
}

#[test]
fn test_get_alert_group_by_reference() {
    let event = FindActBuilder::default()
        .sota()
        .group_by_reference(Some("JA/TK-001".to_string()))
        .build();

    let alert = make_test_alert("JA1ABC", "JA/TK-001");
    let group = get_alert_group(&event, &alert);

    match group {
        GroupBy::Reference(Some(ref_code)) => assert_eq!(ref_code, "JA/TK-001"),
        _ => panic!("Expected GroupBy::Reference"),
    }
}

#[test]
fn test_get_alert_group_no_group_defaults_to_callsign() {
    let event = FindActBuilder::default().sota().build();
    let alert = make_test_alert("JA1ABC", "JA/TK-001");
    let group = get_alert_group(&event, &alert);

    match group {
        GroupBy::Callsign(None) => {}
        _ => panic!("Expected GroupBy::Callsign(None)"),
    }
}

#[test]
fn test_get_spot_group_by_callsign() {
    let event = FindActBuilder::default()
        .sota()
        .group_by_callsign(Some("JA1ABC".to_string()))
        .build();

    let spot = make_test_spot("JA1ABC", "JA/TK-001");
    let group = get_spot_group(&event, &spot);

    match group {
        GroupBy::Callsign(Some(call)) => assert_eq!(call, "JA1ABC"),
        _ => panic!("Expected GroupBy::Callsign"),
    }
}

#[test]
fn test_get_spot_group_by_reference() {
    let event = FindActBuilder::default()
        .sota()
        .group_by_reference(Some("JA/TK-001".to_string()))
        .build();

    let spot = make_test_spot("JA1ABC", "JA/TK-001");
    let group = get_spot_group(&event, &spot);

    match group {
        GroupBy::Reference(Some(ref_code)) => assert_eq!(ref_code, "JA/TK-001"),
        _ => panic!("Expected GroupBy::Reference"),
    }
}

#[test]
fn group_alerts_by_reference_in_first_seen_order() {
    let event = FindActBuilder::default().sota().group_by_reference(None).build();
    let alerts = vec![
        make_test_alert("JA1ABC", "JA/TK-001"),
        make_test_alert("JA2DEF", "JA/NN-001"),
        make_test_alert("JA3GHI", "JA/TK-001"),
    ];
    let groups = group_alerts(&event, alerts);
    assert_eq!(groups.len(), 2);
    assert!(matches!(&groups[0].0, GroupBy::Reference(Some(r)) if r == "JA/TK-001"));
    assert_eq!(groups[0].1.len(), 2);
    assert_eq!(groups[0].1[1].activator, "JA3GHI");
    assert!(matches!(&groups[1].0, GroupBy::Reference(Some(r)) if r == "JA/NN-001"));
}

#[test]
fn group_alerts_filters_by_location_and_needs_grouping() {
    let mut osaka = make_test_alert("JA3XYZ", "JA/OS-001");
    osaka.location = "Osaka".to_string();
    let alerts = vec![make_test_alert("JA1ABC", "JA/TK-001"), osaka];
    let event = FindActBuilder::default().group_by_callsign(None).pattern("^Osa").build();
    let groups = group_alerts(&event, alerts);
    assert_eq!(groups.len(), 1);
    assert!(matches!(&groups[0].0, GroupBy::Callsign(Some(c)) if c == "JA3XYZ"));

    let event = FindActBuilder::default().group_by_callsign(None).pattern("(").build();
    let groups = group_alerts(&event, vec![make_test_alert("JA1ABC", "JA/TK-001")]);
    assert_eq!(groups.len(), 1);

    let event = FindActBuilder::default().sota().build();
    assert!(group_alerts(&event, vec![make_test_alert("JA1ABC", "JA/TK-001")]).is_empty());
}

#[test]
fn builder_sets_fields() {
    let (b, ok) = FindActBuilder::default()
        .pota()
        .issued_after(42)
        .limit(10)
        .offset(5)
        .operator("JA1ABC")
        .try_log_id("not a uuid");
    assert!(!ok);
    let (b, ok) = b.try_log_id("67e55044-10b1-426f-9247-bb680e5fe0c8");
    assert!(ok);
    let q = b.build();
    assert_eq!(q.program, Some(AwardProgram::POTA));
    assert_eq!(q.issued_after, Some(42));
    assert_eq!((q.limit, q.offset), (Some(10), Some(5)));
    assert_eq!(q.operator.as_deref(), Some("JA1ABC"));
    assert!(q.log_id.is_some());
}

#[test]
fn group_spots_by_reference_takes_park_counts_for_a_log() {
    let mut park = make_test_spot("JA1ABC", "JA-0001");
    park.program = AwardProgram::POTA;
    let summit = make_test_spot("JA2DEF", "JA/TK-001");
    let mut park2 = make_test_spot("JA3GHI", "JA-0001");
    park2.program = AwardProgram::POTA;
    let parks = vec![("JA-0001".to_string(), Some(7)), ("JA-0002".to_string(), None)];
    let (b, ok) = FindActBuilder::default().group_by_reference(None).try_log_id("67e55044-10b1-426f-9247-bb680e5fe0c8");
    assert!(ok);
    let event = b.build();
    let groups = group_spots(&event, vec![park, summit, park2], &parks);
    assert_eq!(groups.len(), 2);
    assert!(matches!(&groups[0].0, GroupBy::Reference(Some(r)) if r == "JA-0001"));
    assert_eq!(groups[0].1.len(), 2);
    assert_eq!(groups[0].1[0].qsos, Some(7));
    assert_eq!(groups[0].1[1].spot.activator, "JA3GHI");
    assert_eq!(groups[1].1[0].qsos, None);
}

#[test]
fn group_spots_without_a_log_or_by_callsign_has_no_counts() {
    let mut park = make_test_spot("JA1ABC", "JA-0001");
    park.program = AwardProgram::POTA;
    let parks = vec![("JA-0001".to_string(), Some(7))];
    let event = FindActBuilder::default().group_by_reference(None).build();
    let groups = group_spots(&event, vec![park.clone()], &parks);
    assert_eq!(groups[0].1[0].qsos, None);
    let event = FindActBuilder::default().group_by_callsign(None).pattern("^JA-").build();
    let groups = group_spots(&event, vec![park, make_test_spot("JA2DEF", "JA/TK-001")], &parks);
    assert_eq!(groups.len(), 1);
    assert!(matches!(&groups[0].0, GroupBy::Callsign(Some(c)) if c == "JA1ABC"));
    assert_eq!(groups[0].1[0].qsos, None);
    let event = FindActBuilder::default().pota().build();
    assert!(group_spots(&event, vec![make_test_spot("JA1ABC", "JA-0001")], &parks).is_empty());
}

#[test]
fn park_qsos_in_takes_the_first_entry() {
    let parks = vec![("JA-0001".to_string(), Some(3)), ("JA-0001".to_string(), Some(9))];
    assert_eq!(park_qsos_in(&parks, "JA-0001"), Some(3));
    assert_eq!(park_qsos_in(&parks, "JA-0002"), None);
}
