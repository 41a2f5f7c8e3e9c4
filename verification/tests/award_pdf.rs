use sotalog::award_pdf::{char_width_helvetica_bold, text_width_units, AwardType};

#[test]
fn test_award_type_template_filename() {
    assert_eq!(
        AwardType::Activator.template_filename(),
        "activator_template"
    );
    assert_eq!(AwardType::Chaser.template_filename(), "chaser_template");
}

#[test]
fn widths_of_characters() {
    assert_eq!(char_width_helvetica_bold('0'), 556);
    assert_eq!(char_width_helvetica_bold('W'), 944);
    assert_eq!(char_width_helvetica_bold('m'), 889);
    assert_eq!(char_width_helvetica_bold(' '), 278);
    assert_eq!(char_width_helvetica_bold('+'), 584);
    assert_eq!(char_width_helvetica_bold('日'), 556);
}

#[test]
fn width_of_a_callsign() {
    assert_eq!(text_width_units("JA1ABC"), 556 + 722 + 556 + 722 + 722 + 722);
    assert_eq!(text_width_units(""), 0);
}
