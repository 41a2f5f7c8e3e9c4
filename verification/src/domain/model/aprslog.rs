//! The approach of an activator to a summit, as APRS position reports show it.
use vstd::prelude::*;
use crate::num::fmt_int;

verus! {

/// Where an activator stands on the way to a summit. `time` is in UTC
/// seconds (see `crate::calendar::seconds_of`); `distance` is the distance
/// to the summit in whole meters, rounded down.
#[derive(Debug, Clone)]
pub enum AprsState {
    Travelling { time: i64 },
    Approaching { time: i64, distance: i64 },
    Climbing { time: i64, distance: i64 },
    NearSummit { time: i64, distance: i64, message: String },
    OnSummit { time: i64, distance: i64, message: String },
    Descending { time: i64, distance: i64 },
}

/// The distance of a state: 0 while travelling.
pub open spec fn state_distance(s: AprsState) -> i64 {
    match s {
        AprsState::Travelling { .. } => 0,
        AprsState::Approaching { distance, .. } => distance,
        AprsState::Climbing { distance, .. } => distance,
        AprsState::NearSummit { distance, .. } => distance,
        AprsState::OnSummit { distance, .. } => distance,
        AprsState::Descending { distance, .. } => distance,
    }
}

/// The time of a state.
pub open spec fn state_time(s: AprsState) -> i64 {
    match s {
        AprsState::Travelling { time } => time,
        AprsState::Approaching { time, .. } => time,
        AprsState::Climbing { time, .. } => time,
        AprsState::NearSummit { time, .. } => time,
        AprsState::OnSummit { time, .. } => time,
        AprsState::Descending { time, .. } => time,
    }
}

/// The message of a state: only near and on the summit.
pub open spec fn state_message(s: AprsState) -> Option<String> {
    match s {
        AprsState::NearSummit { message, .. } => Some(message),
        AprsState::OnSummit { message, .. } => Some(message),
        _ => None,
    }
}

impl AprsState {
    /// The distance to the summit (see `state_distance`).
    pub fn distance(&self) -> (r: i64)
        ensures
            r == state_distance(*self),
    {
        match self {
            AprsState::Travelling { .. } => 0,
            AprsState::Approaching { distance, .. } => *distance,
            AprsState::Climbing { distance, .. } => *distance,
            AprsState::NearSummit { distance, .. } => *distance,
            AprsState::OnSummit { distance, .. } => *distance,
            AprsState::Descending { distance, .. } => *distance,
        }
    }

    /// The time of the report (see `state_time`).
    pub fn time(&self) -> (r: i64)
        ensures
            r == state_time(*self),
    {
        match self {
            AprsState::Travelling { time } => *time,
            AprsState::Approaching { time, .. } => *time,
            AprsState::Climbing { time, .. } => *time,
            AprsState::NearSummit { time, .. } => *time,
            AprsState::OnSummit { time, .. } => *time,
            AprsState::Descending { time, .. } => *time,
        }
    }

    /// The message to send for the state (see `state_message`).
    pub fn message(&self) -> (r: Option<&String>)
        ensures
            match state_message(*self) {
                Some(m) => r == Some(&m),
                None => r is None,
            },
    {
        match self {
            AprsState::NearSummit { message, .. } => Some(message),
            AprsState::OnSummit { message, .. } => Some(message),
            _ => None,
        }
    }
}

/// The text of "Approaching {code}. {distance}m remaining.".
pub open spec fn approaching_text(summit_code: Seq<char>, distance: i64) -> Seq<char> {
    "Approaching "@ + summit_code + ". "@ + fmt_int(distance as int, 0) + "m remaining."@
}

/// The state that a distance to the summit gives: approaching beyond 1000
/// m, climbing beyond 300 m, near the summit beyond 100 m (with the
/// approaching text), else on the summit with the welcome text.
pub open spec fn is_approach_state(r: AprsState, time: i64, distance: i64, summit_code: Seq<char>, welcome: Seq<char>) -> bool {
    if distance > 1000 {
        r == AprsState::Approaching { time, distance }
    } else if distance > 300 {
        r == AprsState::Climbing { time, distance }
    } else if distance > 100 {
        r matches AprsState::NearSummit { time: t, distance: d, message: m } && t == time && d == distance
            && m@ == approaching_text(summit_code, distance)
    } else {
        r matches AprsState::OnSummit { time: t, distance: d, message: m } && t == time && d == distance && m@
            == welcome
    }
}

/// The state of a position report at `distance` meters from the summit
/// (see `is_approach_state`).
pub fn approach_state(time: i64, distance: i64, summit_code: &str, welcome: String) -> (r: AprsState)
    ensures
        is_approach_state(r, time, distance, summit_code@, welcome@),
{
    if distance > 1000 {
        AprsState::Approaching { time, distance }
    } else if distance > 300 {
        AprsState::Climbing { time, distance }
    } else if distance > 100 {
        let mut message = crate::text::concat2("Approaching ", summit_code);
        message.append(". ");
        message.append(crate::num::fmt_i64(distance, 0).as_str());
        message.append("m remaining.");
        AprsState::NearSummit { time, distance, message }
    } else {
        AprsState::OnSummit { time, distance, message: welcome }
    }
}

/// The pattern of the spots reported on arrival: Japanese summits for a
/// summit of Japan (its code begins with "JA"), else any.
pub open spec fn spots_pattern_of(summit_code: Seq<char>) -> Seq<char> {
    if summit_code.len() >= 2 && summit_code.take(2) == "JA"@ {
        "^JA.*"@
    } else {
        ".*"@
    }
}

/// The pattern of the spots reported on arrival (see `spots_pattern_of`).
pub fn spots_pattern(summit_code: &str) -> (r: &'static str)
    ensures
        r@ == spots_pattern_of(summit_code@),
{
    let cs = crate::text::chars_of(summit_code);
    let ja = crate::text::chars_of("JA");
    proof {
        reveal_strlit("JA");
    }
    if crate::text::starts_with(cs.as_slice(), ja.as_slice()) {
        "^JA.*"
    } else {
        ".*"
    }
}

/// The welcome text on a summit: code, name, height and points, then (for
/// a summit of Japan) the city, then the spots report.
pub open spec fn welcome_text(
    summit_code: Seq<char>,
    summit_name: Seq<char>,
    alt_m: i32,
    points: i32,
    city: Seq<char>,
    spots: Seq<char>,
) -> Seq<char> {
    let head = "Welcome to "@ + summit_code + ". "@ + summit_name + " "@ + fmt_int(alt_m as int, 0) + "m "@
        + fmt_int(points as int, 0) + "pts.\n"@;
    if spots_pattern_of(summit_code) == "^JA.*"@ {
        head + city + "\n"@ + spots
    } else {
        head + spots
    }
}

/// The welcome text on a summit (see `welcome_text`; no city is empty).
pub fn welcome_message(
    summit_code: &str,
    summit_name: &str,
    alt_m: i32,
    points: i32,
    city: Option<String>,
    spots: &str,
) -> (r: String)
    ensures
        r@ == welcome_text(
            summit_code@,
            summit_name@,
            alt_m,
            points,
            match city {
                Some(c) => c@,
                None => Seq::empty(),
            },
            spots@,
        ),
{
    let mut m = crate::text::concat2("Welcome to ", summit_code);
    m.append(". ");
    m.append(summit_name);
    m.append(" ");
    m.append(crate::num::fmt_i64(alt_m as i64, 0).as_str());
    m.append("m ");
    m.append(crate::num::fmt_i64(points as i64, 0).as_str());
    m.append("pts.\n");
    let pat = spots_pattern(summit_code);
    proof {
        reveal_strlit("^JA.*");
        reveal_strlit(".*");
    }
    if crate::text::str_eq(pat, "^JA.*") {
        match &city {
            Some(c) => m.append(c.as_str()),
            None => {},
        }
        m.append("\n");
    }
    m.append(spots);
    m
}

/// Whether a change of state announces an arrival: from near to on the
/// summit, or from further away to near or on it.
pub open spec fn announces(old: AprsState, new: AprsState) -> bool {
    ||| old is NearSummit && new is OnSummit
    ||| (old is Approaching || old is Climbing) && (new is NearSummit || new is OnSummit)
}

/// The state kept after a position report, and whether the new state's
/// message is to be sent. With no earlier report, or a report for another
/// summit, the new state is kept; for the same summit an arrival is
/// announced, a station on the summit stays there or starts descending, and
/// any other report keeps the earlier state.
pub open spec fn next_state_of(prev: Option<(Option<Seq<char>>, AprsState)>, destination: Seq<char>, new: AprsState) -> (AprsState, bool) {
    match prev {
        None => (new, state_message(new) is Some),
        Some((dest, old)) => if dest != Some(destination) {
            (new, false)
        } else if announces(old, new) {
            (new, state_message(new) is Some)
        } else if old is OnSummit && new is OnSummit {
            (new, false)
        } else if old is OnSummit {
            (AprsState::Descending { time: state_time(new), distance: state_distance(new) }, false)
        } else {
            (old, false)
        },
    }
}

/// For a station heading for the same summit as before, an arrival is
/// announced: coming from far away (approaching or climbing) to near or on
/// the summit, or from near to on it, keeps the new state and sends its
/// message.
pub proof fn lemma_arrival_announced(destination: Seq<char>, old: AprsState, new: AprsState)
    requires
        ((old is Approaching || old is Climbing) && (new is NearSummit || new is OnSummit))
            || (old is NearSummit && new is OnSummit),
    ensures
        next_state_of(Some((Some(destination), old)), destination, new) == (new, true),
{
}

/// A message goes out only with a state that has one, and only on a first
/// report or on an arrival at the same summit as before (from far away to
/// near or on it, or from near to on it); a station that was on the summit
/// and reports again from further away starts descending.
pub proof fn lemma_messages_only_on_arrival(prev: Option<(Option<Seq<char>>, AprsState)>, destination: Seq<char>, new: AprsState)
    ensures
        next_state_of(prev, destination, new).1 ==> (new is NearSummit || new is OnSummit) && match prev {
            None => true,
            Some((d, old)) => d == Some(destination) && (((old is Approaching || old is Climbing) && (new is NearSummit
                || new is OnSummit)) || (old is NearSummit && new is OnSummit)),
        },
        (prev matches Some((d, old)) && d == Some(destination) && old is OnSummit && !(new is OnSummit))
            ==> next_state_of(prev, destination, new) == (AprsState::Descending {
                time: state_time(new),
                distance: state_distance(new),
            }, false),
{
}

/// A report for another summit than the previous one keeps the new state
/// and sends nothing; a first report keeps the new state and sends its
/// message where it has one.
pub proof fn lemma_new_destination(prev: Option<Seq<char>>, destination: Seq<char>, old: AprsState, new: AprsState)
    requires
        prev != Some(destination),
    ensures
        next_state_of(Some((prev, old)), destination, new) == (new, false),
        next_state_of(None, destination, new) == (new, new is NearSummit || new is OnSummit),
{
}

/// The state kept after a position report for `destination`, given the
/// station's previous report (its summit and state), and whether to send the
/// new state's message (see `next_state_of`).
pub fn next_aprs_state(prev: Option<(Option<String>, AprsState)>, destination: &str, new_state: AprsState) -> (r: (AprsState, bool))
    ensures
        r == next_state_of(
            match prev {
                Some(p) => Some((match p.0 { Some(d) => Some(d@), None => None }, p.1)),
                None => None,
            },
            destination@,
            new_state,
        ),
{
    let has_message = match &new_state {
        AprsState::NearSummit { .. } => true,
        AprsState::OnSummit { .. } => true,
        _ => false,
    };
    match prev {
        None => (new_state, has_message),
        Some((dest, old)) => {
            let same = match &dest {
                Some(d) => crate::text::str_eq(d.as_str(), destination),
                None => false,
            };
            if !same {
                return (new_state, false);
            }
            let old_far = match &old {
                AprsState::Approaching { .. } => true,
                AprsState::Climbing { .. } => true,
                _ => false,
            };
            let old_near = match &old {
                AprsState::NearSummit { .. } => true,
                _ => false,
            };
            let old_on = match &old {
                AprsState::OnSummit { .. } => true,
                _ => false,
            };
            let new_on = match &new_state {
                AprsState::OnSummit { .. } => true,
                _ => false,
            };
            if (old_near && new_on) || (old_far && has_message) {
                (new_state, has_message)
            } else if old_on && new_on {
                (new_state, false)
            } else if old_on {
                let time = new_state.time();
                let distance = new_state.distance();
                (AprsState::Descending { time, distance }, false)
            } else {
                (old, false)
            }
        },
    }
}

} // verus!
