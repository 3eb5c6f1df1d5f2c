//! Calendar dates as plain day numbers, weekday codes, and the
//! weekday-repeat resolver: the next date on/after a start date whose
//! weekday is named by a repeat rule.
//!
//! A `Date` counts days of the proleptic Gregorian calendar, numbered so
//! that day 1 is a Monday. Under that numbering the weekday index of a
//! date is pure arithmetic: `(days + 6) % 7`, with 0 = Monday .. 6 = Sunday.

use vstd::prelude::*;

verus! {

/// A calendar date, held as its day number (day 1 is a Monday).
#[derive(Clone, Copy, PartialEq, Eq, Structural, Debug)]
pub struct Date {
    pub days: u64,
}

/// Weekday index of a day number: 0 = Monday .. 6 = Sunday.
pub open spec fn weekday_index(days: int) -> int {
    (days + 6) % 7
}

/// The two-letter code of a weekday index (0 = Monday .. 6 = Sunday).
pub open spec fn spec_weekday_code(w: int) -> Seq<char> {
    if w == 0 {
        "Mo"@
    } else if w == 1 {
        "Tu"@
    } else if w == 2 {
        "We"@
    } else if w == 3 {
        "Th"@
    } else if w == 4 {
        "Fr"@
    } else if w == 5 {
        "Sa"@
    } else {
        "Su"@
    }
}

/// Whether a repeat rule names the weekday of the given day number.
pub open spec fn day_matches(rule: Seq<Seq<char>>, days: int) -> bool {
    exists|j: int| 0 <= j < rule.len() && rule[j] == spec_weekday_code(weekday_index(days))
}

/// First day number in `base + i .. base + 7` whose weekday the rule names,
/// scanning from offset `i`.
pub open spec fn scan_rule(base: int, rule: Seq<Seq<char>>, i: int) -> Option<int>
    decreases 7 - i,
{
    if i < 0 || i >= 7 {
        None
    } else if day_matches(rule, base + i) {
        Some(base + i)
    } else {
        scan_rule(base, rule, i + 1)
    }
}

/// What the resolver returns: the start date itself when no rule is given
/// (a one-shot alarm), else the first of the next seven days whose weekday
/// the rule names, or nothing when the rule names none of them.
pub open spec fn spec_find_next_rep(base: int, rule: Option<Seq<Seq<char>>>) -> Option<int> {
    match rule {
        None => Some(base),
        Some(r) => scan_rule(base, r, 0),
    }
}

/// View of an optional rule as a sequence of code strings.
pub open spec fn spec_rule(rep: Option<Vec<String>>) -> Option<Seq<Seq<char>>> {
    match rep {
        None => None,
        Some(v) => Some(v.deep_view()),
    }
}

/// Start date for scheduling an alarm: today while its time-of-day is still
/// ahead of the clock, else tomorrow.
pub open spec fn spec_entry_start(today: int, time_of_day: int, now: int) -> int {
    if time_of_day > now {
        today
    } else {
        today + 1
    }
}

/// Weekday index of a date, as executable arithmetic.
pub fn weekday_of(d: Date) -> (r: u8)
    ensures
        r == weekday_index(d.days as int),
        r < 7,
{
    proof {
        vstd::arithmetic::div_mod::lemma_add_mod_noop(d.days as int, 6, 7);
    }
    ((d.days % 7 + 6) % 7) as u8
}

/// The two-letter code of a weekday index.
pub fn weekday_to_str(weekday: u8) -> (r: String)
    requires
        weekday < 7,
    ensures
        r@ == spec_weekday_code(weekday as int),
{
    if weekday == 0 {
        String::from_str("Mo")
    } else if weekday == 1 {
        String::from_str("Tu")
    } else if weekday == 2 {
        String::from_str("We")
    } else if weekday == 3 {
        String::from_str("Th")
    } else if weekday == 4 {
        String::from_str("Fr")
    } else if weekday == 5 {
        String::from_str("Sa")
    } else {
        String::from_str("Su")
    }
}

/// Whether the rule holds the given code string.
fn rule_contains(rule: &Vec<String>, code: &String) -> (r: bool)
    ensures
        r == exists|j: int| 0 <= j < rule.deep_view().len() && rule.deep_view()[j] == code@,
{
    let mut k: usize = 0;
    while k < rule.len()
        invariant
            k <= rule@.len(),
            rule.deep_view().len() == rule@.len(),
            forall|j: int| 0 <= j < k ==> rule.deep_view()[j] != code@,
        decreases rule@.len() - k,
    {
        proof {
            assert(rule.deep_view()[k as int] == rule@[k as int]@);
        }
        if rule[k].eq(code) {
            return true;
        }
        k += 1;
    }
    false
}

proof fn lemma_scan_rule_none(base: int, rule: Seq<Seq<char>>, i: int)
    requires
        0 <= i <= 7,
        forall|k: int| i <= k < 7 ==> !#[trigger] day_matches(rule, base + k),
    ensures
        scan_rule(base, rule, i) is None,
    decreases 7 - i,
{
    if i < 7 {
        lemma_scan_rule_none(base, rule, i + 1);
    }
}

proof fn lemma_scan_rule_found(base: int, rule: Seq<Seq<char>>, i: int, m: int)
    requires
        0 <= i <= m < 7,
        day_matches(rule, base + m),
        forall|k: int| i <= k < m ==> !#[trigger] day_matches(rule, base + k),
    ensures
        scan_rule(base, rule, i) == Some(base + m),
    decreases m - i,
{
    if i < m {
        lemma_scan_rule_found(base, rule, i + 1, m);
    }
}

/// Next date on/after `base` that the repeat rule allows: `base` itself when
/// the rule is absent (one-shot), else the first of `base .. base + 7` whose
/// weekday code the rule holds, and nothing when the rule (empty, or made of
/// unknown codes) names no weekday at all.
pub fn find_next_rep(base: Date, rep: &Option<Vec<String>>) -> (r: Option<Date>)
    requires
        base.days + 7 <= u64::MAX,
    ensures
        (match r {
            None => spec_find_next_rep(base.days as int, spec_rule(*rep)) is None,
            Some(d) => spec_find_next_rep(base.days as int, spec_rule(*rep)) == Some(
                d.days as int,
            ),
        }),
{
    match rep {
        None => Some(base),
        Some(rule) => {
            let mut i: u64 = 0;
            while i < 7
                invariant
                    0 <= i <= 7,
                    base.days + 7 <= u64::MAX,
                    spec_rule(*rep) == Some(rule.deep_view()),
                    forall|k: int| 0 <= k < i ==> !#[trigger] day_matches(rule.deep_view(), base.days + k),
                decreases 7 - i,
            {
                let cand = Date { days: base.days + i };
                let code = weekday_to_str(weekday_of(cand));
                if rule_contains(rule, &code) {
                    proof {
                        assert(day_matches(rule.deep_view(), base.days + i));
                        lemma_scan_rule_found(base.days as int, rule.deep_view(), 0, i as int);
                    }
                    return Some(cand);
                }
                i += 1;
            }
            proof {
                lemma_scan_rule_none(base.days as int, rule.deep_view(), 0);
            }
            None
        },
    }
}

/// First trigger date for an alarm, given the current date and time: starts
/// today when the alarm's time-of-day is still ahead, else tomorrow, and
/// resolves the repeat rule from there.
pub fn determine_entry_day_at(
    time_of_day: u32,
    rep: &Option<Vec<String>>,
    today: Date,
    now: u32,
) -> (r: Option<Date>)
    requires
        today.days + 8 <= u64::MAX,
    ensures
        (match r {
            None => spec_find_next_rep(
                spec_entry_start(today.days as int, time_of_day as int, now as int),
                spec_rule(*rep),
            ) is None,
            Some(d) => spec_find_next_rep(
                spec_entry_start(today.days as int, time_of_day as int, now as int),
                spec_rule(*rep),
            ) == Some(d.days as int),
        }),
{
    let start = if time_of_day > now {
        today
    } else {
        Date { days: today.days + 1 }
    };
    find_next_rep(start, rep)
}

proof fn lemma_scan_rule_props(base: int, rule: Seq<Seq<char>>, i: int)
    requires
        0 <= i <= 7,
    ensures
        match scan_rule(base, rule, i) {
            Some(d) => base + i <= d < base + 7 && day_matches(rule, d) && (forall|k: int|
                base + i <= k < d ==> !#[trigger] day_matches(rule, k)),
            None => forall|k: int| base + i <= k < base + 7 ==> !#[trigger] day_matches(rule, k),
        },
    decreases 7 - i,
{
    if i < 7 && !day_matches(rule, base + i) {
        lemma_scan_rule_props(base, rule, i + 1);
    }
}

/// Law: the resolver answers the start date itself when no rule is given;
/// otherwise it never steps back, never looks a week or more ahead, answers
/// only dates whose weekday the rule names — and the earliest such date —
/// and it always answers when the rule holds at least one recognised
/// weekday code. It answers nothing only for a rule naming no weekday.
pub proof fn lemma_find_next_rep_props(base: int, rule: Option<Seq<Seq<char>>>)
    ensures
        rule is None ==> spec_find_next_rep(base, rule) == Some(base),
        match spec_find_next_rep(base, rule) {
            Some(d) => base <= d < base + 7 && (rule matches Some(ru) ==> day_matches(ru, d)
                && (forall|k: int| base <= k < d ==> !#[trigger] day_matches(ru, k))),
            None => rule matches Some(ru) && forall|k: int|
                base <= k < base + 7 ==> !#[trigger] day_matches(ru, k),
        },
        (rule matches Some(ru) && exists|j: int, w: int|
            #![trigger ru[j], spec_weekday_code(w)]
            0 <= j < ru.len() && 0 <= w < 7 && ru[j] == spec_weekday_code(w))
            ==> spec_find_next_rep(base, rule) is Some,
{
    if let Some(ru) = rule {
        lemma_scan_rule_props(base, ru, 0);
        if exists|j: int, w: int|
            #![trigger ru[j], spec_weekday_code(w)]
            0 <= j < ru.len() && 0 <= w < 7 && ru[j] == spec_weekday_code(w) {
            let (j, w) = choose|j: int, w: int|
                #![trigger ru[j], spec_weekday_code(w)]
                0 <= j < ru.len() && 0 <= w < 7 && ru[j] == spec_weekday_code(w);
            let cur = weekday_index(base);
            let i = if w >= cur {
                w - cur
            } else {
                w - cur + 7
            };
            assert(0 <= i < 7);
            vstd::arithmetic::div_mod::lemma_add_mod_noop(base + 6, i, 7);
            vstd::arithmetic::div_mod::lemma_small_mod(i as nat, 7);
            if w >= cur {
                vstd::arithmetic::div_mod::lemma_small_mod((cur + i) as nat, 7);
            } else {
                vstd::arithmetic::div_mod::lemma_mod_add_multiples_vanish(w, 7);
                vstd::arithmetic::div_mod::lemma_small_mod(w as nat, 7);
            }
            assert(weekday_index(base + i) == w);
            assert(day_matches(ru, base + i));
        }
    }
}

} // verus!
