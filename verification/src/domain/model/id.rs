//! Identifiers of users and logs: UUIDs, held as their 128-bit values.
use vstd::prelude::*;

verus! {

/// Whether `uuid::Uuid::parse_str` accepts a text.
pub uninterp spec fn uuid_text_ok(text: Seq<char>) -> bool;

/// The 128-bit value (`Uuid::as_u128`) of the UUID that
/// `uuid::Uuid::parse_str` reads from a text that it accepts.
pub uninterp spec fn uuid_value(text: Seq<char>) -> u128;

/// Calls `uuid::Uuid::parse_str` and takes the 128-bit value of the UUID.
/// The contract claims that a value comes back exactly for the texts that
/// the parser accepts, named by `uuid_text_ok`, and that it is the value
/// named by `uuid_value` for that text.
#[verifier::external_body]
fn parse_uuid(text: &str) -> (r: Option<u128>)
    ensures
        r.is_some() == uuid_text_ok(text@),
        r matches Some(v) ==> v == uuid_value(text@),
{
    uuid::Uuid::parse_str(text).ok().map(|u| u.as_u128())
}

/// Calls `uuid::Uuid::new_v4` and takes the 128-bit value of the UUID: a
/// random value, of which nothing is stated.
#[verifier::external_body]
fn random_uuid() -> u128 {
    uuid::Uuid::new_v4().as_u128()
}

/// The identifier of a user: a UUID, held as its 128-bit value.
#[derive(Debug, Clone, Copy)]
pub struct UserId(u128);

impl UserId {
    /// The 128-bit value of the identifier's UUID.
    pub closed spec fn value(self) -> u128 {
        self.0
    }

    /// A new random identifier.
    pub fn new() -> Self {
        UserId(random_uuid())
    }

    /// The 128-bit value of the identifier's UUID.
    pub fn raw(self) -> (r: u128)
        ensures
            r == self.value(),
    {
        self.0
    }

    /// The identifier written in a text, when it is a UUID.
    pub fn parse(s: &str) -> (r: Option<UserId>)
        ensures
            r is Some == uuid_text_ok(s@),
            r matches Some(id) ==> id.value() == uuid_value(s@),
    {
        match parse_uuid(s) {
            Some(u) => Some(UserId(u)),
            None => None,
        }
    }
}

/// The identifier of an uploaded log: a UUID, held as its 128-bit value.
#[derive(Debug, Clone, Copy)]
pub struct LogId(u128);

impl LogId {
    /// The 128-bit value of the identifier's UUID.
    pub closed spec fn value(self) -> u128 {
        self.0
    }

    /// A new random identifier.
    pub fn new() -> Self {
        LogId(random_uuid())
    }

    /// The 128-bit value of the identifier's UUID.
    pub fn raw(self) -> (r: u128)
        ensures
            r == self.value(),
    {
        self.0
    }

    /// The identifier written in a text, when it is a UUID.
    pub fn parse(s: &str) -> (r: Option<LogId>)
        ensures
            r is Some == uuid_text_ok(s@),
            r matches Some(id) ==> id.value() == uuid_value(s@),
    {
        match parse_uuid(s) {
            Some(u) => Some(LogId(u)),
            None => None,
        }
    }
}

} // verus!
