//! The alarm queue: the scheduled alarms in ascending order of
//! (next trigger date, time of day), with sorted insertion, due-head peek,
//! unconditional one-day rescheduling after a firing, removal by value, and
//! a wholesale rebuild from a list of alarms.

use vstd::prelude::*;
use crate::alarm::{AlarmSpec, AlarmView, ScheduledAlarm};
use crate::date::{spec_entry_start, spec_find_next_rep, spec_rule, Date};

verus! {

/// The queue's total order: by trigger date, then by time of day.
pub open spec fn sched_le(a: ScheduledAlarm, b: ScheduledAlarm) -> bool {
    a.date.days < b.date.days || (a.date.days == b.date.days && a.alarm.time_of_day
        <= b.alarm.time_of_day)
}

/// Ascending by (trigger date, time of day).
pub open spec fn sorted_by_trigger(s: Seq<ScheduledAlarm>) -> bool {
    forall|i: int, j: int| 0 <= i < j < s.len() ==> sched_le(#[trigger] s[i], #[trigger] s[j])
}

/// Sorted insertion, placing a new entry after every entry that does not
/// come strictly later (so ties go after their equals).
pub open spec fn spec_insert_sorted(s: Seq<ScheduledAlarm>, x: ScheduledAlarm) -> Seq<
    ScheduledAlarm,
>
    decreases s.len(),
{
    if s.len() == 0 {
        seq![x]
    } else if sched_le(s[0], x) {
        seq![s[0]] + spec_insert_sorted(s.drop_first(), x)
    } else {
        seq![x] + s
    }
}

/// Whether a scheduled alarm is due at the given date and time: its trigger
/// date must not lie in the future, and its time of day must have passed.
pub open spec fn spec_due(e: ScheduledAlarm, today: int, now: int) -> bool {
    e.date.days <= today && e.alarm.time_of_day <= now
}

/// Removal of the first entry whose alarm equals the given one by value.
pub open spec fn spec_remove_first(s: Seq<ScheduledAlarm>, a: AlarmView) -> Seq<ScheduledAlarm>
    decreases s.len(),
{
    if s.len() == 0 {
        s
    } else if s[0].alarm@ == a {
        s.drop_first()
    } else {
        seq![s[0]] + spec_remove_first(s.drop_first(), a)
    }
}

/// The queue that a rebuild from the given alarms yields at the given
/// instant: each alarm in turn is resolved to its first trigger date and
/// inserted in order; alarms whose repeat rule names no weekday are dropped.
pub open spec fn spec_rebuild(specs: Seq<AlarmSpec>, today: int, now: int) -> Seq<ScheduledAlarm>
    decreases specs.len(),
{
    if specs.len() == 0 {
        Seq::empty()
    } else {
        let prev = spec_rebuild(specs.drop_last(), today, now);
        let a = specs.last();
        match spec_find_next_rep(
            spec_entry_start(today, a.time_of_day as int, now),
            spec_rule(a.repeat),
        ) {
            None => prev,
            Some(d) => spec_insert_sorted(
                prev,
                ScheduledAlarm { date: Date { days: d as u64 }, alarm: a },
            ),
        }
    }
}

/// The ordered sequence of scheduled alarms.
pub struct AlarmQueue {
    entries: Vec<ScheduledAlarm>,
}

/// Law: sorted insertion keeps the queue sorted — after any sequence of
/// inserts into an initially sorted (e.g. empty) queue, the queue is still
/// sorted by (trigger date, time of day).
pub proof fn lemma_insert_sorted_keeps_order(s: Seq<ScheduledAlarm>, x: ScheduledAlarm)
    requires
        sorted_by_trigger(s),
    ensures
        sorted_by_trigger(spec_insert_sorted(s, x)),
    decreases s.len(),
{
    if s.len() == 0 {
    } else if sched_le(s[0], x) {
        assert(sorted_by_trigger(s.drop_first()));
        lemma_insert_sorted_keeps_order(s.drop_first(), x);
        let t = seq![s[0]] + spec_insert_sorted(s.drop_first(), x);
        lemma_insert_sorted_elements(s.drop_first(), x);
        assert forall|i: int, j: int| 0 <= i < j < t.len() implies sched_le(t[i], t[j]) by {
            if i == 0 {
                let rest = spec_insert_sorted(s.drop_first(), x);
                assert(t[j] == rest[j - 1]);
            }
        }
    } else {
        let t = seq![x] + s;
        assert forall|i: int, j: int| 0 <= i < j < t.len() implies sched_le(t[i], t[j]) by {
            if i == 0 {
                assert(sched_le(x, s[0]));
                if j > 1 {
                    assert(sched_le(s[0], s[j - 1]));
                }
            }
        }
    }
}

/// Law: a rebuild is a function of the alarm list and the instant alone.
/// Two queues rebuilt from the same alarms at the same instant hold the
/// same entries in the same order, whatever either held before — `rebuild`
/// promises `spec_rebuild` of its arguments, which mentions no prior state.
pub proof fn lemma_rebuild_deterministic(
    q1: Seq<ScheduledAlarm>,
    q2: Seq<ScheduledAlarm>,
    specs: Seq<AlarmSpec>,
    today: int,
    now: int,
)
    requires
        q1 == spec_rebuild(specs, today, now),
        q2 == spec_rebuild(specs, today, now),
    ensures
        q1 == q2,
{
}

/// Every element of a sorted insertion's result is the inserted one or one
/// of the old ones.
proof fn lemma_insert_sorted_elements(s: Seq<ScheduledAlarm>, x: ScheduledAlarm)
    ensures
        spec_insert_sorted(s, x).len() == s.len() + 1,
        forall|k: int| 0 <= k < spec_insert_sorted(s, x).len() ==> (#[trigger] spec_insert_sorted(
            s,
            x,
        )[k] == x || exists|m: int| 0 <= m < s.len() && spec_insert_sorted(s, x)[k] == s[m]),
    decreases s.len(),
{
    if s.len() == 0 {
    } else if sched_le(s[0], x) {
        lemma_insert_sorted_elements(s.drop_first(), x);
        let t = seq![s[0]] + spec_insert_sorted(s.drop_first(), x);
        assert forall|k: int| 0 <= k < t.len() implies (#[trigger] t[k] == x || exists|m: int|
            0 <= m < s.len() && t[k] == s[m]) by {
            if k > 0 {
                let rest = spec_insert_sorted(s.drop_first(), x);
                assert(t[k] == rest[k - 1]);
                if t[k] != x {
                    let m = choose|m: int| 0 <= m < s.drop_first().len() && rest[k - 1]
                        == s.drop_first()[m];
                    assert(t[k] == s[m + 1]);
                }
            }
        }
    }
}

impl AlarmQueue {
    /// The queue as the sequence of its entries, earliest first.
    pub closed spec fn view(&self) -> Seq<ScheduledAlarm> {
        self.entries@
    }

    /// Well-formed: sorted ascending by (trigger date, time of day).
    pub open spec fn wf(&self) -> bool {
        sorted_by_trigger(self@)
    }

    /// An empty queue.
    pub fn new() -> (r: AlarmQueue)
        ensures
            r@ =~= Seq::<ScheduledAlarm>::empty(),
            r.wf(),
    {
        AlarmQueue { entries: Vec::new() }
    }

    pub fn len(&self) -> (r: usize)
        ensures
            r == self@.len(),
    {
        self.entries.len()
    }

    pub fn index(&self, i: usize) -> (r: &ScheduledAlarm)
        requires
            i < self@.len(),
        ensures
            *r == self@[i as int],
    {
        &self.entries[i]
    }

    /// Sorted insertion at the position the search returns: after every
    /// entry not strictly later than the new one.
    pub fn insert(&mut self, x: ScheduledAlarm)
        requires
            old(self).wf(),
        ensures
            final(self)@ == spec_insert_sorted(old(self)@, x),
            final(self).wf(),
    {
        proof {
            lemma_insert_sorted_keeps_order(self@, x);
        }
        let ghost orig = self.entries@;
        let mut pos: usize = 0;
        while pos < self.entries.len()
            invariant
                pos <= self.entries@.len(),
                self.entries@ == orig,
                forall|k: int| 0 <= k < pos ==> sched_le(#[trigger] orig[k], x),
            ensures
                pos <= orig.len(),
                self.entries@ == orig,
                forall|k: int| 0 <= k < pos ==> sched_le(#[trigger] orig[k], x),
                pos < orig.len() ==> !sched_le(orig[pos as int], x),
            decreases self.entries@.len() - pos,
        {
            let e = &self.entries[pos];
            if !(e.date.days < x.date.days || (e.date.days == x.date.days && e.alarm.time_of_day
                <= x.alarm.time_of_day)) {
                break;
            }
            pos += 1;
        }
        proof {
            lemma_insert_sorted_at(self.entries@, x, pos as int);
        }
        self.entries.insert(pos, x);
    }

    /// The head, when it is due at the given date and time.
    pub fn peek_due(&self, today: Date, now: u32) -> (r: Option<&ScheduledAlarm>)
        ensures
            (match r {
                Some(e) => self@.len() > 0 && *e == self@[0] && spec_due(
                    self@[0],
                    today.days as int,
                    now as int,
                ),
                None => self@.len() == 0 || !spec_due(self@[0], today.days as int, now as int),
            }),
    {
        if self.entries.len() == 0 {
            return None;
        }
        let e = &self.entries[0];
        if e.date.days <= today.days && e.alarm.time_of_day <= now {
            Some(e)
        } else {
            None
        }
    }

    /// Removes the head and reinserts it with its trigger date advanced by
    /// exactly one day. The advance is unconditional, whatever the repeat
    /// rule: a fired alarm next comes up tomorrow.
    pub fn pop_and_reschedule(&mut self)
        requires
            old(self).wf(),
            old(self)@.len() > 0,
            old(self)@[0].date.days < u64::MAX,
        ensures
            final(self)@ == spec_insert_sorted(
                old(self)@.drop_first(),
                ScheduledAlarm {
                    date: Date { days: (old(self)@[0].date.days + 1) as u64 },
                    alarm: old(self)@[0].alarm,
                },
            ),
            final(self).wf(),
    {
        proof {
            assert(sorted_by_trigger(self@.drop_first()));
        }
        let mut head = self.entries.remove(0);
        head.date.days = head.date.days + 1;
        self.insert(head);
    }

    /// Removes the first entry whose alarm equals the given one by value;
    /// leaves the queue as it was when none does.
    pub fn remove_equal(&mut self, spec: &AlarmSpec)
        requires
            old(self).wf(),
        ensures
            final(self)@ == spec_remove_first(old(self)@, spec@),
            final(self).wf(),
    {
        let ghost orig = self.entries@;
        let mut i: usize = 0;
        while i < self.entries.len()
            invariant
                i <= self.entries@.len(),
                self.entries@ == orig,
                orig == old(self)@,
                sorted_by_trigger(orig),
                forall|k: int| 0 <= k < i ==> (#[trigger] orig[k]).alarm@ != spec@,
            decreases self.entries@.len() - i,
        {
            if self.entries[i].alarm.matches_exactly(spec) {
                proof {
                    lemma_remove_first_at(orig, spec@, i as int);
                    lemma_sorted_remove(orig, i as int);
                    assert(orig.remove(i as int) =~= orig.subrange(0, i as int) + orig.subrange(
                        i + 1,
                        orig.len() as int,
                    ));
                }
                self.entries.remove(i);
                return;
            }
            i += 1;
        }
        proof {
            lemma_remove_first_none(orig, spec@);
        }
    }

    /// Clears the queue and schedules every given alarm for its first
    /// trigger date at the given instant, dropping those whose repeat rule
    /// names no weekday.
    pub fn rebuild(&mut self, specs: Vec<AlarmSpec>, today: Date, now: u32)
        requires
            today.days + 8 <= u64::MAX,
        ensures
            final(self)@ == spec_rebuild(specs@, today.days as int, now as int),
            final(self).wf(),
    {
        self.entries = Vec::new();
        let mut rest = specs;
        let ghost all = rest@;
        let n: usize = rest.len();
        let mut i: usize = 0;
        proof {
            assert(all.len() == n as int);
            assert(all.subrange(0, 0) =~= Seq::<AlarmSpec>::empty());
        }
        while rest.len() > 0
            invariant
                i + rest@.len() == all.len(),
                all.len() <= usize::MAX,
                rest@ =~= all.subrange(i as int, all.len() as int),
                today.days + 8 <= u64::MAX,
                self.entries@ == spec_rebuild(
                    all.subrange(0, i as int),
                    today.days as int,
                    now as int,
                ),
                sorted_by_trigger(self.entries@),
            decreases rest@.len(),
        {
            let ghost pre = all.subrange(0, i as int);
            let ghost pre1 = all.subrange(0, i + 1);
            let a = rest.remove(0);
            proof {
                assert(a == all[i as int]);
                assert(rest@ =~= all.subrange(i + 1, all.len() as int));
                assert(pre1.drop_last() =~= pre);
                assert(pre1.last() == all[i as int]);
            }
            match crate::date::determine_entry_day_at(a.time_of_day, &a.repeat, today, now) {
                None => {
                    proof {
                        assert(spec_rebuild(pre1, today.days as int, now as int)
                            == self.entries@);
                    }
                },
                Some(d) => {
                    self.insert(ScheduledAlarm { date: d, alarm: a });
                    proof {
                        assert(spec_rebuild(pre1, today.days as int, now as int)
                            == self.entries@);
                    }
                },
            }
            i += 1;
        }
        proof {
            assert(all.subrange(0, i as int) =~= all);
        }
    }
}

proof fn lemma_insert_sorted_at(s: Seq<ScheduledAlarm>, x: ScheduledAlarm, pos: int)
    requires
        0 <= pos <= s.len(),
        forall|k: int| 0 <= k < pos ==> sched_le(#[trigger] s[k], x),
        pos < s.len() ==> !sched_le(s[pos], x),
    ensures
        spec_insert_sorted(s, x) =~= s.subrange(0, pos) + seq![x] + s.subrange(
            pos,
            s.len() as int,
        ),
    decreases pos,
{
    if pos == 0 {
        if s.len() > 0 {
            assert(!sched_le(s[0], x));
        }
    } else {
        lemma_insert_sorted_at(s.drop_first(), x, pos - 1);
    }
}

proof fn lemma_remove_first_at(s: Seq<ScheduledAlarm>, a: AlarmView, i: int)
    requires
        0 <= i < s.len(),
        forall|k: int| 0 <= k < i ==> (#[trigger] s[k]).alarm@ != a,
        s[i].alarm@ == a,
    ensures
        spec_remove_first(s, a) =~= s.subrange(0, i) + s.subrange(i + 1, s.len() as int),
    decreases i,
{
    if i > 0 {
        lemma_remove_first_at(s.drop_first(), a, i - 1);
    }
}

proof fn lemma_remove_first_none(s: Seq<ScheduledAlarm>, a: AlarmView)
    requires
        forall|k: int| 0 <= k < s.len() ==> (#[trigger] s[k]).alarm@ != a,
    ensures
        spec_remove_first(s, a) =~= s,
    decreases s.len(),
{
    if s.len() > 0 {
        lemma_remove_first_none(s.drop_first(), a);
    }
}

/// Removing one entry from a sorted sequence leaves it sorted.
proof fn lemma_sorted_remove(s: Seq<ScheduledAlarm>, i: int)
    requires
        sorted_by_trigger(s),
        0 <= i < s.len(),
    ensures
        sorted_by_trigger(s.subrange(0, i) + s.subrange(i + 1, s.len() as int)),
{
    let t = s.subrange(0, i) + s.subrange(i + 1, s.len() as int);
    assert forall|p: int, q: int| 0 <= p < q < t.len() implies sched_le(t[p], t[q]) by {
        let sp = if p < i {
            p
        } else {
            p + 1
        };
        let sq = if q < i {
            q
        } else {
            q + 1
        };
        assert(t[p] == s[sp]);
        assert(t[q] == s[sq]);
    }
}

} // verus!
