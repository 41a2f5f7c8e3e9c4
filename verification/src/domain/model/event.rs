//! Paged results, deletions and groupings of the log and reference queries.
use vstd::prelude::*;
use crate::domain::model::activation::{Alert, Spot};
use crate::domain::model::id::{uuid_text_ok, uuid_value, LogId};
use crate::domain::model::AwardProgram;

verus! {

/// One page of query results: the total count and the page's place.
pub struct PagenatedResult<T> {
    pub total: i64,
    pub limit: i32,
    pub offset: i32,
    pub results: Vec<T>,
}

/// One reference to delete, or all of them.
#[derive(Debug)]
pub enum DeleteRef<T> {
    Delete(T),
    DeleteAll,
}

/// A query of references. The position conditions of the query (a point,
/// a bounding box, a center and radius) are not held here.
#[derive(Debug)]
pub struct FindRef {
    pub program: Vec<AwardProgram>,
    pub sota_code: Option<String>,
    pub pota_code: Option<String>,
    pub wwff_code: Option<String>,
    pub name: Option<String>,
    pub min_elev: Option<i32>,
    pub min_area: Option<i32>,
    pub log_id: Option<LogId>,
    pub limit: Option<i32>,
    pub offset: Option<i32>,
}

fn asks_for(programs: &Vec<AwardProgram>, p: AwardProgram) -> (r: bool)
    ensures
        r == programs@.contains(p),
{
    let mut i: usize = 0;
    while i < programs.len()
        invariant
            i <= programs@.len(),
            forall|j: int| 0 <= j < i ==> programs@[j] != p,
        decreases programs.len() - i,
    {
        if programs[i] == p {
            return true;
        }
        i = i + 1;
    }
    false
}

impl FindRef {
    /// Whether the query asks for SOTA summits.
    pub fn is_sota(&self) -> (r: bool)
        ensures
            r == self.program@.contains(AwardProgram::SOTA),
    {
        asks_for(&self.program, AwardProgram::SOTA)
    }

    /// Whether the query asks for POTA parks.
    pub fn is_pota(&self) -> (r: bool)
        ensures
            r == self.program@.contains(AwardProgram::POTA),
    {
        asks_for(&self.program, AwardProgram::POTA)
    }

    /// Whether the query asks for WWFF parks.
    pub fn is_wwff(&self) -> (r: bool)
        ensures
            r == self.program@.contains(AwardProgram::WWFF),
    {
        asks_for(&self.program, AwardProgram::WWFF)
    }
}

/// Builds a `FindRef` one condition at a time.
#[derive(Debug)]
pub struct FindRefBuilder {
    pub param: FindRef,
}

impl Default for FindRefBuilder {
    /// A builder of the query that asks for nothing in particular.
    fn default() -> (r: Self)
        ensures
            r.param.program@.len() == 0,
            r.param.sota_code is None && r.param.pota_code is None && r.param.wwff_code is None,
            r.param.name is None && r.param.min_elev is None && r.param.min_area is None,
            r.param.log_id is None && r.param.limit is None && r.param.offset is None,
    {
        FindRefBuilder {
            param: FindRef {
                program: Vec::new(),
                sota_code: None,
                pota_code: None,
                wwff_code: None,
                name: None,
                min_elev: None,
                min_area: None,
                log_id: None,
                limit: None,
                offset: None,
            },
        }
    }
}

impl FindRefBuilder {
    /// A builder of the query that asks for nothing in particular.
    pub fn new() -> (r: Self)
        ensures
            r.param.program@.len() == 0,
            r.param.sota_code is None && r.param.pota_code is None && r.param.wwff_code is None,
            r.param.name is None && r.param.min_elev is None && r.param.min_area is None,
            r.param.log_id is None && r.param.limit is None && r.param.offset is None,
    {
        Self::default()
    }

    /// Adds a program to those asked for.
    pub fn program(self, program: AwardProgram) -> (r: Self)
        ensures
            r.param.program@ == self.param.program@.push(program),
            r.param == (FindRef { program: r.param.program, ..self.param }),
    {
        let mut b = self;
        b.param.program.push(program);
        b
    }

    /// Asks for SOTA summits as well.
    pub fn sota(self) -> (r: Self)
        ensures
            r.param.program@ == self.param.program@.push(AwardProgram::SOTA),
            r.param == (FindRef { program: r.param.program, ..self.param }),
    {
        self.program(AwardProgram::SOTA)
    }

    /// Asks for POTA parks as well.
    pub fn pota(self) -> (r: Self)
        ensures
            r.param.program@ == self.param.program@.push(AwardProgram::POTA),
            r.param == (FindRef { program: r.param.program, ..self.param }),
    {
        self.program(AwardProgram::POTA)
    }

    /// Asks for WWFF parks as well.
    pub fn wwff(self) -> (r: Self)
        ensures
            r.param.program@ == self.param.program@.push(AwardProgram::WWFF),
            r.param == (FindRef { program: r.param.program, ..self.param }),
    {
        self.program(AwardProgram::WWFF)
    }

    /// Asks for one summit, by its code in upper case.
    pub fn sota_code(self, code: String) -> (r: Self)
        ensures
            r.param.sota_code matches Some(c) && c@ == crate::text::str_upper(code@),
            r.param == (FindRef { sota_code: r.param.sota_code, ..self.param }),
    {
        let mut b = self;
        b.param.sota_code = Some(crate::text::to_upper(code.as_str()));
        b
    }

    /// Asks for one POTA park, by its code in upper case.
    pub fn pota_code(self, code: String) -> (r: Self)
        ensures
            r.param.pota_code matches Some(c) && c@ == crate::text::str_upper(code@),
            r.param == (FindRef { pota_code: r.param.pota_code, ..self.param }),
    {
        let mut b = self;
        b.param.pota_code = Some(crate::text::to_upper(code.as_str()));
        b
    }

    /// Asks for one WWFF park, by its code in upper case.
    pub fn wwff_code(self, code: String) -> (r: Self)
        ensures
            r.param.wwff_code matches Some(c) && c@ == crate::text::str_upper(code@),
            r.param == (FindRef { wwff_code: r.param.wwff_code, ..self.param }),
    {
        let mut b = self;
        b.param.wwff_code = Some(crate::text::to_upper(code.as_str()));
        b
    }

    /// Asks for references by name.
    pub fn name(self, n: String) -> (r: Self)
        ensures
            r.param.name matches Some(x) && x@ == n@,
            r.param == (FindRef { name: r.param.name, ..self.param }),
    {
        let mut b = self;
        b.param.name = Some(n);
        b
    }

    /// Asks for summits at least this high.
    pub fn min_elev(self, elev: i32) -> (r: Self)
        ensures
            r.param == (FindRef { min_elev: Some(elev), ..self.param }),
    {
        let mut b = self;
        b.param.min_elev = Some(elev);
        b
    }

    /// Asks for parks at least this large.
    pub fn min_area(self, area: i32) -> (r: Self)
        ensures
            r.param == (FindRef { min_area: Some(area), ..self.param }),
    {
        let mut b = self;
        b.param.min_area = Some(area);
        b
    }

    /// Asks for the references of one log.
    pub fn log_id(self, id: LogId) -> (r: Self)
        ensures
            r.param == (FindRef { log_id: Some(id), ..self.param }),
    {
        let mut b = self;
        b.param.log_id = Some(id);
        b
    }

    /// Limits the number of results.
    pub fn limit(self, l: i32) -> (r: Self)
        ensures
            r.param == (FindRef { limit: Some(l), ..self.param }),
    {
        let mut b = self;
        b.param.limit = Some(l);
        b
    }

    /// Skips a number of results.
    pub fn offset(self, o: i32) -> (r: Self)
        ensures
            r.param == (FindRef { offset: Some(o), ..self.param }),
    {
        let mut b = self;
        b.param.offset = Some(o);
        b
    }

    /// The query built.
    pub fn build(self) -> (r: FindRef)
        ensures
            r == self.param,
    {
        self.param
    }
}

/// Logs to delete: those written before a time (UTC seconds), or those of
/// one log id.
#[derive(Debug)]
pub struct DeleteLog {
    pub before: Option<i64>,
    pub log_id: Option<LogId>,
}

/// A query of log entries between two times (UTC seconds), of activations
/// or of chases.
#[derive(Debug)]
pub struct FindLog {
    pub after: Option<i64>,
    pub before: Option<i64>,
    pub activation: bool,
}

/// Builds a `FindLog` one condition at a time.
#[derive(Debug)]
pub struct FindLogBuilder {
    param: FindLog,
}

impl Default for FindLogBuilder {
    /// A builder of the query of chases at any time.
    fn default() -> (r: Self)
        ensures
            r.query() == (FindLog { after: None, before: None, activation: false }),
    {
        FindLogBuilder { param: FindLog { after: None, before: None, activation: false } }
    }
}

impl FindLogBuilder {
    /// The query built so far.
    pub closed spec fn query(&self) -> FindLog {
        self.param
    }

    /// Asks for entries after a time.
    pub fn after(self, after: i64) -> (r: Self)
        ensures
            r.query() == (FindLog { after: Some(after), ..self.query() }),
    {
        let mut b = self;
        b.param.after = Some(after);
        b
    }

    /// Asks for entries before a time.
    pub fn before(self, before: i64) -> (r: Self)
        ensures
            r.query() == (FindLog { before: Some(before), ..self.query() }),
    {
        let mut b = self;
        b.param.before = Some(before);
        b
    }

    /// Asks for activations.
    pub fn activation(self) -> (r: Self)
        ensures
            r.query() == (FindLog { activation: true, ..self.query() }),
    {
        let mut b = self;
        b.param.activation = true;
        b
    }

    /// Asks for chases.
    pub fn chase(self) -> (r: Self)
        ensures
            r.query() == (FindLog { activation: false, ..self.query() }),
    {
        let mut b = self;
        b.param.activation = false;
        b
    }

    /// The query built.
    pub fn build(self) -> (r: FindLog)
        ensures
            r == self.query(),
    {
        self.param
    }
}

/// Activations to delete: those before a time (UTC seconds).
#[derive(Debug)]
pub struct DeleteAct {
    pub before: i64,
}

/// How activations are grouped: by callsign or by reference, optionally
/// restricted to one.
#[derive(Debug)]
pub enum GroupBy {
    Callsign(Option<String>),
    Reference(Option<String>),
}


/// The group of a grouping, as plain text.
pub open spec fn group_view(g: GroupBy) -> (bool, Option<Seq<char>>) {
    match g {
        GroupBy::Callsign(c) => (true, match c { Some(x) => Some(x@), None => None }),
        GroupBy::Reference(c) => (false, match c { Some(x) => Some(x@), None => None }),
    }
}

/// A query of alerts or spots. `issued_after` is in UTC seconds (see
/// `crate::calendar::seconds_of`).
#[derive(Debug)]
pub struct FindAct {
    pub program: Option<AwardProgram>,
    pub issued_after: Option<i64>,
    pub operator: Option<String>,
    pub pattern: Option<String>,
    pub group_by: Option<GroupBy>,
    pub log_id: Option<LogId>,
    pub limit: Option<i32>,
    pub offset: Option<i32>,
}

impl Default for FindAct {
    /// The query that asks for nothing in particular.
    fn default() -> (r: Self)
        ensures
            r.program is None && r.issued_after is None && r.operator is None && r.pattern is None
                && r.group_by is None && r.log_id is None && r.limit is None && r.offset is None,
    {
        FindAct {
            program: None,
            issued_after: None,
            operator: None,
            pattern: None,
            group_by: None,
            log_id: None,
            limit: None,
            offset: None,
        }
    }
}

/// Builds a `FindAct` one condition at a time.
#[derive(Debug)]
pub struct FindActBuilder {
    pub param: FindAct,
}

impl Default for FindActBuilder {
    /// A builder of the query that asks for nothing in particular.
    fn default() -> (r: Self)
        ensures
            r.param.program is None && r.param.issued_after is None && r.param.operator is None
                && r.param.pattern is None && r.param.group_by is None && r.param.log_id is None
                && r.param.limit is None && r.param.offset is None,
    {
        FindActBuilder { param: FindAct::default() }
    }
}

impl FindActBuilder {
    /// Asks for SOTA activations.
    pub fn sota(self) -> (r: Self)
        ensures
            r.param == (FindAct { program: Some(AwardProgram::SOTA), ..self.param }),
    {
        let mut b = self;
        b.param.program = Some(AwardProgram::SOTA);
        b
    }

    /// Asks for POTA activations.
    pub fn pota(self) -> (r: Self)
        ensures
            r.param == (FindAct { program: Some(AwardProgram::POTA), ..self.param }),
    {
        let mut b = self;
        b.param.program = Some(AwardProgram::POTA);
        b
    }

    /// Asks for WWFF activations.
    pub fn wwff(self) -> (r: Self)
        ensures
            r.param == (FindAct { program: Some(AwardProgram::WWFF), ..self.param }),
    {
        let mut b = self;
        b.param.program = Some(AwardProgram::WWFF);
        b
    }

    /// Asks for activations issued after a time.
    pub fn issued_after(self, aft: i64) -> (r: Self)
        ensures
            r.param == (FindAct { issued_after: Some(aft), ..self.param }),
    {
        let mut b = self;
        b.param.issued_after = Some(aft);
        b
    }

    /// Limits the number of results.
    pub fn limit(self, limit: i32) -> (r: Self)
        ensures
            r.param == (FindAct { limit: Some(limit), ..self.param }),
    {
        let mut b = self;
        b.param.limit = Some(limit);
        b
    }

    /// Skips a number of results.
    pub fn offset(self, offset: i32) -> (r: Self)
        ensures
            r.param == (FindAct { offset: Some(offset), ..self.param }),
    {
        let mut b = self;
        b.param.offset = Some(offset);
        b
    }

    /// Groups the results by callsign.
    pub fn group_by_callsign(self, callsign: Option<String>) -> (r: Self)
        ensures
            r.param == (FindAct { group_by: Some(GroupBy::Callsign(callsign)), ..self.param }),
    {
        let mut b = self;
        b.param.group_by = Some(GroupBy::Callsign(callsign));
        b
    }

    /// Groups the results by reference.
    pub fn group_by_reference(self, reference: Option<String>) -> (r: Self)
        ensures
            r.param == (FindAct { group_by: Some(GroupBy::Reference(reference)), ..self.param }),
    {
        let mut b = self;
        b.param.group_by = Some(GroupBy::Reference(reference));
        b
    }

    /// Asks for the activations of one operator.
    pub fn operator(self, operator: &str) -> (r: Self)
        ensures
            r.param.operator matches Some(o) && o@ == operator@,
            r.param == (FindAct { operator: r.param.operator, ..self.param }),
    {
        let mut b = self;
        b.param.operator = Some(crate::text::copy_str(operator));
        b
    }

    /// Filters the results by a pattern (of locations or references).
    pub fn pattern(self, pattern: &str) -> (r: Self)
        ensures
            r.param.pattern matches Some(p) && p@ == pattern@,
            r.param == (FindAct { pattern: r.param.pattern, ..self.param }),
    {
        let mut b = self;
        b.param.pattern = Some(crate::text::copy_str(pattern));
        b
    }

    /// Asks for the results of one log, given by its UUID text.
    pub fn log_id(self, log_id: &str) -> (r: Self)
        requires
            uuid_text_ok(log_id@),
        ensures
            r.param.log_id matches Some(id) && id.value() == uuid_value(log_id@),
            r.param == (FindAct { log_id: r.param.log_id, ..self.param }),
    {
        let mut b = self;
        b.param.log_id = LogId::parse(log_id);
        b
    }

    /// Asks for the results of one log when its text is a UUID; else gives
    /// the builder back unchanged, with `false`.
    pub fn try_log_id(self, log_id: &str) -> (r: (Self, bool))
        ensures
            r.1 == uuid_text_ok(log_id@),
            r.1 ==> (r.0.param.log_id matches Some(id) && id.value() == uuid_value(log_id@)) && r.0.param == (FindAct {
                log_id: r.0.param.log_id,
                ..self.param
            }),
            !r.1 ==> r.0.param == self.param,
    {
        match LogId::parse(log_id) {
            Some(_) => (self.log_id(log_id), true),
            None => (self, false),
        }
    }

    /// The query built.
    pub fn build(self) -> (r: FindAct)
        ensures
            r == self.param,
    {
        self.param
    }
}

/// The group of an item by the query's grouping: its activator, or its
/// reference; by no callsign where the query does not group.
pub open spec fn item_group(by: Option<GroupBy>, activator: Seq<char>, reference: Seq<char>) -> (bool, Option<Seq<char>>) {
    match by {
        Some(GroupBy::Callsign(_)) => (true, Some(activator)),
        Some(GroupBy::Reference(_)) => (false, Some(reference)),
        None => (true, None),
    }
}

fn group_of(event: &FindAct, activator: &str, reference: &str) -> (r: GroupBy)
    ensures
        group_view(r) == item_group(event.group_by, activator@, reference@),
{
    match &event.group_by {
        Some(GroupBy::Callsign(_)) => GroupBy::Callsign(Some(crate::text::copy_str(activator))),
        Some(GroupBy::Reference(_)) => GroupBy::Reference(Some(crate::text::copy_str(reference))),
        None => GroupBy::Callsign(None),
    }
}

/// The group of an alert under a query (see `item_group`).
pub fn get_alert_group(event: &FindAct, r: &Alert) -> (g: GroupBy)
    ensures
        group_view(g) == item_group(event.group_by, r.activator@, r.reference@),
{
    group_of(event, r.activator.as_str(), r.reference.as_str())
}

/// The group of a spot under a query (see `item_group`).
pub fn get_spot_group(event: &FindAct, r: &Spot) -> (g: GroupBy)
    ensures
        group_view(g) == item_group(event.group_by, r.activator@, r.reference@),
{
    group_of(event, r.activator.as_str(), r.reference.as_str())
}

} // verus!
