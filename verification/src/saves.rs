//! Saved worlds: how old a save is, in the unit the world list shows.

use vstd::prelude::*;

verus! {

/// Age of a save as shown in the world list.
#[derive(Debug, Clone, Copy, PartialEq, Eq, Structural)]
pub enum AgeLabel {
    /// Under a minute
    JustNow,
    /// Whole minutes, under an hour
    Minutes(u64),
    /// Whole hours, under a day
    Hours(u64),
    /// Whole days
    Days(u64),
}

pub open spec fn spec_age_label(secs: u64) -> AgeLabel {
    if secs < 60 {
        AgeLabel::JustNow
    } else if secs < 3600 {
        AgeLabel::Minutes(secs / 60)
    } else if secs < 86400 {
        AgeLabel::Hours(secs / 3600)
    } else {
        AgeLabel::Days(secs / 86400)
    }
}

/// The label for a save modified `secs` seconds ago.
pub fn age_label(secs: u64) -> (l: AgeLabel)
    ensures
        l == spec_age_label(secs),
{
    if secs < 60 {
        AgeLabel::JustNow
    } else if secs < 3600 {
        AgeLabel::Minutes(secs / 60)
    } else if secs < 86400 {
        AgeLabel::Hours(secs / 3600)
    } else {
        AgeLabel::Days(secs / 86400)
    }
}

} // verus!
