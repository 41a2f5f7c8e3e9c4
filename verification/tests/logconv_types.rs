use sotalog::logconv::types::{
    adif_field, band_to_freq, freq_to_band, get_ref, mode_to_adif_mode, mode_to_airham_mode,
    mode_to_sota_mode, split_callsign,
};

#[test]
fn test_freq_to_band() {
    let (air, sota, wlen) = freq_to_band("7.025").unwrap();
    assert_eq!(air, "7MHz");
    assert_eq!(sota, "7MHz");
    assert_eq!(wlen, "40m");

    let (air, sota, wlen) = freq_to_band("14.230").unwrap();
    assert_eq!(air, "14MHz");
    assert_eq!(sota, "14MHz");
    assert_eq!(wlen, "20m");

    let (air, _, _) = freq_to_band("144.500").unwrap();
    assert_eq!(air, "144MHz");

    assert!(freq_to_band("999.999").is_err());
}

#[test]
fn test_split_callsign() {
    assert_eq!(
        split_callsign("JL1NIE"),
        ("JL1NIE".to_string(), String::new())
    );
    assert_eq!(
        split_callsign("JL1NIE/7"),
        ("JL1NIE".to_string(), "7".to_string())
    );
    assert_eq!(
        split_callsign("JA/JL1NIE"),
        ("JL1NIE".to_string(), "JA".to_string())
    );
    assert_eq!(
        split_callsign("JL1NIE/QRP"),
        ("JL1NIE".to_string(), "QRP".to_string())
    );
}

#[test]
fn test_mode_to_sota_mode() {
    assert_eq!(mode_to_sota_mode("CW"), "CW");
    assert_eq!(mode_to_sota_mode("ssb"), "SSB");
    assert_eq!(mode_to_sota_mode("FT8"), "DATA");
    assert_eq!(mode_to_sota_mode("D-STAR"), "DV");
    assert_eq!(mode_to_sota_mode("UNKNOWN"), "OTHER");
}

#[test]
fn test_mode_to_adif_mode() {
    assert_eq!(mode_to_adif_mode("CW"), ("CW".to_string(), String::new()));
    assert_eq!(
        mode_to_adif_mode("FT4"),
        ("MFSK".to_string(), "FT4".to_string())
    );
    assert_eq!(
        mode_to_adif_mode("C4FM"),
        ("DIGITALVOICE".to_string(), "C4FM".to_string())
    );
}

#[test]
fn test_mode_to_airham_mode() {
    assert_eq!(mode_to_airham_mode("SSB", "7.1"), "SSB(LSB)");
    assert_eq!(mode_to_airham_mode("SSB", "14.2"), "SSB(USB)");
    assert_eq!(mode_to_airham_mode("CW", "7.0"), "CW");
}

#[test]
fn test_get_ref() {
    let info = get_ref("JA/TK-001");
    assert_eq!(info.sota, "JA/TK-001");
    assert_eq!(info.portable, "1");

    let info = get_ref("JAFF-0001");
    assert_eq!(info.wwff, vec!["JAFF-0001"]);

    let info = get_ref("JA-0001");
    assert_eq!(info.pota, vec!["JA-0001"]);

    let info = get_ref("PM95vq");
    assert!(info.loc.contains("PM95vq"));
    assert_eq!(info.loc_org, "PM95vq");
}

#[test]
fn test_adif_field() {
    assert_eq!(adif_field("callsign", "JL1NIE"), "<CALL:6>JL1NIE");
    assert_eq!(adif_field("date", "20241228"), "<QSO_DATE:8>20241228");
    assert_eq!(adif_field("callsign", ""), "");
}

#[test]
fn get_ref_mixed_text() {
    let info = get_ref("35.6N, 139.7E JA-0001 jaff-0002 hello AO-91/FM/U world");
    assert_eq!(info.loc, "%QTH%35.6N, 139.7E% ");
    assert_eq!(info.pota, vec!["JA-0001"]);
    assert_eq!(info.wwff, vec!["JAFF-0002"]);
    assert_eq!(info.sat, "%SAT%AO-91%,FM/U");
    assert_eq!(info.sat_oscar, "AO-91");
    assert_eq!(info.sat_down, "U");
    assert_eq!(info.org, "35.6N 139.7E hello world");
}

#[test]
fn get_ref_unknown_region_is_portable() {
    let info = get_ref("W7W/LC-001");
    assert_eq!(info.sota, "W7W/LC-001");
    assert_eq!(info.portable, "P");
}

#[test]
fn band_to_freq_both_tables() {
    assert_eq!(band_to_freq("40m", true), Some("7MHz"));
    assert_eq!(band_to_freq("160M", true), Some("1.8MHz"));
    assert_eq!(band_to_freq("160m", false), Some("1.9MHz"));
    assert_eq!(band_to_freq("7m", true), None);
}

#[test]
fn adif_field_counts_bytes() {
    assert_eq!(adif_field("comment", "曽田"), "<COMMENT:6>曽田");
    assert_eq!(adif_field("mysotaref", "JA/TK-001"), "<MY_SOTA_REF:9>JA/TK-001");
}
