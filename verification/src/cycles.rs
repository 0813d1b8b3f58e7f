//! A team's cycles in the list: the current one marked, the past ones
//! dimmed. Times are ISO timestamps, compared as text, as Linear writes
//! them.

use vstd::prelude::*;
use crate::entity::Cycle;
use crate::grouping::{text_before, text_less};
use crate::look::{Color, Role};

verus! {

/// Whether the moment `now` falls inside the cycle: at or after its start,
/// before its end.
pub open spec fn current_at(cycle: Cycle, now: Seq<char>) -> bool {
    match (cycle.starts_at, cycle.ends_at) {
        (Some(start), Some(end)) => !text_less(now, start@) && text_less(now, end@),
        _ => false,
    }
}

/// Whether the cycle ended at or before `now`.
pub open spec fn past_at(cycle: Cycle, now: Seq<char>) -> bool {
    match cycle.ends_at {
        Some(end) => !text_less(now, end@),
        None => false,
    }
}

/// Whether `now` (an ISO timestamp) falls inside the cycle.
pub fn is_current(cycle: &Cycle, now: &str) -> (b: bool)
    ensures
        b == current_at(*cycle, now@),
{
    match (&cycle.starts_at, &cycle.ends_at) {
        (Some(start), Some(end)) => !text_before(now, start.as_str()) && text_before(now, end.as_str()),
        _ => false,
    }
}

/// Where a cycle stands at `now`.
#[derive(Debug, Clone, Copy, PartialEq, Eq, Structural)]
pub enum Phase {
    Current,
    Past,
    Upcoming,
}

pub open spec fn phase_at(cycle: Cycle, now: Seq<char>) -> Phase {
    if current_at(cycle, now) {
        Phase::Current
    } else if past_at(cycle, now) {
        Phase::Past
    } else {
        Phase::Upcoming
    }
}

/// Where a cycle stands at `now`: current, past, or still to come.
pub fn phase(cycle: &Cycle, now: &str) -> (p: Phase)
    ensures
        p == phase_at(*cycle, now@),
{
    if is_current(cycle, now) {
        Phase::Current
    } else {
        let past = match &cycle.ends_at {
            Some(end) => !text_before(now, end.as_str()),
            None => false,
        };
        if past {
            Phase::Past
        } else {
            Phase::Upcoming
        }
    }
}

/// The glyph and colour a cycle's row leads with.
pub fn phase_mark(p: Phase) -> (mark: (&'static str, Color))
    ensures
        mark.0@ == match p {
            Phase::Current => "\u{25d4}"@,
            Phase::Past => "\u{25cf}"@,
            Phase::Upcoming => "\u{25cb}"@,
        },
        mark.1 == match p {
            Phase::Current => Color::Themed(Role::Accent),
            Phase::Past => Color::Themed(Role::Muted),
            Phase::Upcoming => Color::Themed(Role::TextDim),
        },
{
    match p {
        Phase::Current => ("\u{25d4}", Color::Themed(Role::Accent)),
        Phase::Past => ("\u{25cf}", Color::Themed(Role::Muted)),
        Phase::Upcoming => ("\u{25cb}", Color::Themed(Role::TextDim)),
    }
}

} // verus!
