use sotalog::domain::model::common::event::FindActBuilder as ActQueryBuilder;
use sotalog::domain::model::common::AwardProgram as SharedProgram;
use sotalog::domain::model::event::{FindLogBuilder, FindRefBuilder};
use sotalog::domain::model::id::LogId;
use sotalog::domain::model::AwardProgram;

#[test]
fn reference_query_collects_programs_and_upper_cases_codes() {
    let id = LogId::new();
    let q = FindRefBuilder::new()
        .sota()
        .pota()
        .sota_code("ja/tk-001".to_string())
        .pota_code("ja-0001".to_string())
        .wwff_code("jaff-0001".to_string())
        .name("Fuji".to_string())
        .min_elev(1000)
        .min_area(5)
        .log_id(id)
        .limit(10)
        .offset(20)
        .build();
    assert!(q.is_sota() && q.is_pota() && !q.is_wwff());
    assert_eq!(q.program, vec![AwardProgram::SOTA, AwardProgram::POTA]);
    assert_eq!(q.sota_code.as_deref(), Some("JA/TK-001"));
    assert_eq!(q.pota_code.as_deref(), Some("JA-0001"));
    assert_eq!(q.wwff_code.as_deref(), Some("JAFF-0001"));
    assert_eq!(q.name.as_deref(), Some("Fuji"));
    assert_eq!((q.min_elev, q.min_area, q.limit, q.offset), (Some(1000), Some(5), Some(10), Some(20)));
    assert_eq!(q.log_id.map(|l| l.raw()), Some(id.raw()));
    let q = FindRefBuilder::default().wwff().program(AwardProgram::WWFF).build();
    assert!(q.is_wwff() && !q.is_sota());
    assert_eq!(q.program.len(), 2);
}

#[test]
fn log_query_between_times() {
    let q = FindLogBuilder::default().after(100).before(200).activation().build();
    assert_eq!((q.after, q.before, q.activation), (Some(100), Some(200), true));
    let q = FindLogBuilder::default().activation().chase().build();
    assert!(!q.activation && q.after.is_none() && q.before.is_none());
}

#[test]
fn activation_query_by_program_and_time() {
    let q = ActQueryBuilder::default().program(SharedProgram::POTA).after(42).limit(5).offset(1).build();
    assert_eq!(q.program, Some(SharedProgram::POTA));
    assert_eq!((q.after, q.limit, q.offset), (Some(42), Some(5), Some(1)));
}
