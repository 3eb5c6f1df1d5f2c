//! The alarm data model: a user-defined reminder (`AlarmSpec`) and one
//! scheduled for a concrete date (`ScheduledAlarm`).

use vstd::prelude::*;
use crate::date::Date;

verus! {

/// A user-defined reminder: optional title, description, sound and icon, a
/// mandatory time of day in seconds since midnight, and a repeat rule — a
/// list of weekday codes, absent for an alarm meant to fire once.
pub struct AlarmSpec {
    pub title: Option<String>,
    pub description: Option<String>,
    pub time_of_day: u32,
    pub repeat: Option<Vec<String>>,
    pub sound: Option<String>,
    pub icon: Option<String>,
}

/// Mathematical model of an `AlarmSpec`: every string as its character
/// sequence.
#[verifier::ext_equal]
pub ghost struct AlarmView {
    pub title: Option<Seq<char>>,
    pub description: Option<Seq<char>>,
    pub time_of_day: u32,
    pub repeat: Option<Seq<Seq<char>>>,
    pub sound: Option<Seq<char>>,
    pub icon: Option<Seq<char>>,
}

/// A well-formed alarm: its time of day lies within the day, and a repeat
/// rule, when given, names at least one code (an alarm meant to fire once
/// leaves the rule out altogether).
pub open spec fn alarm_wf(a: AlarmView) -> bool {
    &&& a.time_of_day < 86400
    &&& (a.repeat matches Some(r) ==> r.len() > 0)
}

impl View for AlarmSpec {
    type V = AlarmView;

    open spec fn view(&self) -> AlarmView {
        AlarmView {
            title: self.title.deep_view(),
            description: self.description.deep_view(),
            time_of_day: self.time_of_day,
            repeat: match self.repeat {
                None => None,
                Some(v) => Some(v.deep_view()),
            },
            sound: self.sound.deep_view(),
            icon: self.icon.deep_view(),
        }
    }
}

/// An alarm together with the next calendar date it is to fire on.
pub struct ScheduledAlarm {
    pub date: Date,
    pub alarm: AlarmSpec,
}

/// A copy of an optional string that reads the same.
pub(crate) fn clone_opt_string(o: &Option<String>) -> (r: Option<String>)
    ensures
        r.deep_view() == o.deep_view(),
{
    match o {
        None => None,
        Some(s) => Some(s.clone()),
    }
}

/// Whether two optional strings read the same.
fn opt_str_eq(a: &Option<String>, b: &Option<String>) -> (r: bool)
    ensures
        r == (a.deep_view() == b.deep_view()),
{
    match (a, b) {
        (None, None) => true,
        (Some(x), Some(y)) => x.eq(y),
        _ => false,
    }
}

/// Whether two string lists read the same, element for element.
fn str_vec_eq(a: &Vec<String>, b: &Vec<String>) -> (r: bool)
    ensures
        r == (a.deep_view() =~= b.deep_view()),
{
    proof {
        assert(a.deep_view().len() == a@.len());
        assert(b.deep_view().len() == b@.len());
    }
    if a.len() != b.len() {
        return false;
    }
    let mut k: usize = 0;
    while k < a.len()
        invariant
            k <= a@.len(),
            a@.len() == b@.len(),
            forall|j: int| 0 <= j < k ==> a.deep_view()[j] == b.deep_view()[j],
        decreases a@.len() - k,
    {
        proof {
            assert(a.deep_view()[k as int] == a@[k as int]@);
            assert(b.deep_view()[k as int] == b@[k as int]@);
        }
        if !a[k].eq(&b[k]) {
            return false;
        }
        k += 1;
    }
    true
}

impl AlarmSpec {
    /// Whether two alarms are equal by value, field for field.
    pub fn matches_exactly(&self, other: &AlarmSpec) -> (r: bool)
        ensures
            r == (self@ =~~= other@),
    {
        let fields_eq = opt_str_eq(&self.title, &other.title)
            && self.time_of_day == other.time_of_day
            && opt_str_eq(&self.description, &other.description)
            && opt_str_eq(&self.sound, &other.sound)
            && opt_str_eq(&self.icon, &other.icon);
        if !fields_eq {
            return false;
        }
        match (&self.repeat, &other.repeat) {
            (None, None) => true,
            (Some(x), Some(y)) => str_vec_eq(x, y),
            _ => false,
        }
    }
}

} // verus!
