//! Requests to create, update and delete references and activations.
use vstd::prelude::*;
use crate::domain::model::common::AwardProgram;

verus! {

/// References to create.
pub struct CreateRef<T> {
    pub requests: Vec<T>,
}

/// References to update.
pub struct UpdateRef<T> {
    pub requests: Vec<T>,
}

/// One reference to delete, or all of them.
#[derive(Debug)]
pub enum DeleteRef<T> {
    Delete(T),
    DeleteAll,
}

/// Activations to update.
pub struct UpdateAct<T> {
    pub requests: Vec<T>,
}

impl<T> CreateRef<T> {
    /// A request holding exactly `requests`.
    pub fn from_requests(requests: Vec<T>) -> (r: Self)
        ensures
            r.requests@ == requests@,
    {
        CreateRef { requests }
    }
}

impl<T> UpdateAct<T> {
    /// A request holding exactly `requests`.
    pub fn from_requests(requests: Vec<T>) -> (r: Self)
        ensures
            r.requests@ == requests@,
    {
        UpdateAct { requests }
    }
}

/// A query of activations by program and time, paged. `after` is in UTC
/// seconds (see `crate::calendar::seconds_of`).
#[derive(Debug)]
pub struct FindAct {
    pub program: Option<AwardProgram>,
    pub after: Option<i64>,
    pub limit: Option<i32>,
    pub offset: Option<i32>,
}

/// Builds a `FindAct` one condition at a time.
#[derive(Debug)]
pub struct FindActBuilder {
    pub param: FindAct,
}

impl Default for FindActBuilder {
    /// A builder of the query that asks for nothing in particular.
    fn default() -> (r: Self)
        ensures
            r.param.program is None && r.param.after is None && r.param.limit is None && r.param.offset is None,
    {
        FindActBuilder { param: FindAct { program: None, after: None, limit: None, offset: None } }
    }
}

impl FindActBuilder {
    /// Asks for the activations of one program.
    pub fn program(self, prog: AwardProgram) -> (r: Self)
        ensures
            r.param == (FindAct { program: Some(prog), ..self.param }),
    {
        let mut b = self;
        b.param.program = Some(prog);
        b
    }

    /// Asks for activations after a time.
    pub fn after(self, aft: i64) -> (r: Self)
        ensures
            r.param == (FindAct { after: Some(aft), ..self.param }),
    {
        let mut b = self;
        b.param.after = Some(aft);
        b
    }

    /// Limits the number of results.
    pub fn limit(self, limit: i32) -> (r: Self)
        ensures
            r.param == (FindAct { limit: Some(limit), ..self.param }),
    {
        let mut b = self;
        b.param.limit = Some(limit);
        b
    }

    /// Skips a number of results.
    pub fn offset(self, offset: i32) -> (r: Self)
        ensures
            r.param == (FindAct { offset: Some(offset), ..self.param }),
    {
        let mut b = self;
        b.param.offset = Some(offset);
        b
    }

    /// The query built.
    pub fn build(self) -> (r: FindAct)
        ensures
            r == self.param,
    {
        self.param
    }
}

/// Activations to delete: those before a time (UTC seconds).
#[derive(Debug)]
pub struct DeleteAct {
    pub before: i64,
}

} // verus!
