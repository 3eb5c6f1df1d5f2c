//! The scheduler core: the daemon's live state and one tick's decisions.
//!
//! The surrounding binary owns the loop — it sleeps, stats the
//! configuration file, accepts connections and performs side effects — and
//! asks this state machine everything else: whether a duty is due this tick
//! (two decimation counters share the one sleep cycle), what a request does
//! to the state and which bytes answer it, and whether the earliest alarm
//! fires now and with which sound and notification.

use vstd::prelude::*;
use crate::alarm::{clone_opt_string, AlarmSpec, ScheduledAlarm};
use crate::codec::{
    decode_request, encode_response, spec_decode_request, spec_encode_response, ErrorReason,
    RespView, Response,
};
use crate::date::Date;
use crate::dispatch::{dispatch, dispatch_post, spec_app_name, Settings, SettingsView};
use crate::queue::{spec_due, spec_insert_sorted, spec_rebuild, AlarmQueue};

verus! {

/// Everything the daemon plays or shows when an alarm fires: the sound to
/// play (the alarm's own, or the default), whether to show a notification
/// (notifications on, and something to say), and its text.
pub struct Firing {
    pub sound: String,
    pub notify: bool,
    pub title: Option<String>,
    pub description: Option<String>,
    pub icon: Option<String>,
    pub app_name: String,
}

/// The daemon's live state: settings, the alarm queue, and the two
/// decimation counters.
pub struct Daemon {
    settings: Settings,
    queue: AlarmQueue,
    cpfc: u16,
    csfc: u16,
}

/// Mathematical model of the daemon's state.
#[verifier::ext_equal]
pub ghost struct DaemonView {
    pub settings: SettingsView,
    pub queue: Seq<ScheduledAlarm>,
    pub cpfc: u16,
    pub csfc: u16,
}

impl View for Daemon {
    type V = DaemonView;

    closed spec fn view(&self) -> DaemonView {
        DaemonView {
            settings: self.settings@,
            queue: self.queue@,
            cpfc: self.cpfc,
            csfc: self.csfc,
        }
    }
}

impl Daemon {
    /// Well-formed: the queue is sorted.
    pub open spec fn wf(&self) -> bool {
        crate::queue::sorted_by_trigger(self@.queue)
    }

    /// A daemon fresh from its configuration: the queue rebuilt from the
    /// configured alarms, both counters starting at their periods.
    pub fn new(settings: Settings, specs: Vec<AlarmSpec>, today: Date, now: u32) -> (r: Daemon)
        requires
            today.days + 8 <= u64::MAX,
        ensures
            r.wf(),
            r@.settings == settings@,
            r@.queue == spec_rebuild(specs@, today.days as int, now as int),
            r@.cpfc == settings@.tpfc,
            r@.csfc == settings@.tsfc,
    {
        let mut queue = AlarmQueue::new();
        queue.rebuild(specs, today, now);
        let cpfc = settings.tpfc;
        let csfc = settings.tsfc;
        Daemon { settings, queue, cpfc, csfc }
    }

    /// How long to sleep between ticks, in milliseconds.
    pub fn poll_ms(&self) -> (r: u64)
        ensures
            r == self@.settings.poll,
    {
        self.settings.poll
    }

    /// Whether the daemon is to detach itself.
    pub fn daemonized(&self) -> (r: bool)
        ensures
            r == self@.settings.daemonized,
    {
        self.settings.daemonized
    }

    pub fn alarm_count(&self) -> (r: usize)
        ensures
            r == self@.queue.len(),
    {
        self.queue.len()
    }

    /// Whether this tick checks the configuration source for changes.
    pub fn config_due(&self) -> (r: bool)
        ensures
            r == (self@.cpfc == 0),
    {
        self.cpfc == 0
    }

    /// One tick of the configuration duty. When the counter has run out,
    /// the freshly loaded configuration — if the source changed — replaces
    /// the settings and the queue is rebuilt wholesale, and the counter
    /// starts over at the (possibly new) period; otherwise the counter just
    /// counts down.
    pub fn config_tick(&mut self, reload: Option<(Settings, Vec<AlarmSpec>)>, today: Date, now: u32)
        requires
            old(self).wf(),
            reload is Some ==> old(self)@.cpfc == 0,
            today.days + 8 <= u64::MAX,
        ensures
            final(self).wf(),
            final(self)@.csfc == old(self)@.csfc,
            (if old(self)@.cpfc > 0 {
                final(self)@ == DaemonView { cpfc: (old(self)@.cpfc - 1) as u16, ..old(self)@ }
            } else {
                match reload {
                    None => final(self)@ == DaemonView {
                        cpfc: old(self)@.settings.tpfc,
                        ..old(self)@
                    },
                    Some((s, specs)) => final(self)@ == DaemonView {
                        settings: s@,
                        queue: spec_rebuild(specs@, today.days as int, now as int),
                        cpfc: s@.tpfc,
                        ..old(self)@
                    },
                }
            }),
    {
        if self.cpfc > 0 {
            self.cpfc = self.cpfc - 1;
            proof {
                assert(self@ =~= DaemonView { cpfc: (old(self)@.cpfc - 1) as u16, ..old(self)@ });
            }
            return;
        }
        match reload {
            None => {
                self.cpfc = self.settings.tpfc;
                proof {
                    assert(self@ =~= DaemonView { cpfc: old(self)@.settings.tpfc, ..old(self)@ });
                }
            },
            Some((s, specs)) => {
                self.settings = s;
                self.queue.rebuild(specs, today, now);
                self.cpfc = self.settings.tpfc;
                proof {
                    assert(self@ =~= DaemonView {
                        settings: self.settings@,
                        queue: self.queue@,
                        cpfc: self.settings@.tpfc,
                        ..old(self)@
                    });
                }
            },
        }
    }

    /// Whether this tick services the control socket.
    pub fn socket_due(&self) -> (r: bool)
        ensures
            r == (self@.csfc == 0),
    {
        self.csfc == 0
    }

    /// One tick of the socket duty's counter: starts over at the period
    /// when it has run out (after the socket was serviced), else counts
    /// down. A request handled in between may have changed the period.
    pub fn socket_tick(&mut self)
        requires
            old(self).wf(),
        ensures
            final(self).wf(),
            (if old(self)@.csfc > 0 {
                final(self)@ == DaemonView { csfc: (old(self)@.csfc - 1) as u16, ..old(self)@ }
            } else {
                final(self)@ == DaemonView { csfc: old(self)@.settings.tsfc, ..old(self)@ }
            }),
    {
        if self.csfc > 0 {
            self.csfc = self.csfc - 1;
            proof {
                assert(self@ =~= DaemonView { csfc: (old(self)@.csfc - 1) as u16, ..old(self)@ });
            }
        } else {
            self.csfc = self.settings.tsfc;
            proof {
                assert(self@ =~= DaemonView { csfc: old(self)@.settings.tsfc, ..old(self)@ });
            }
        }
    }

    /// One whole request against the daemon's state: the bytes read from
    /// the connection in, the bytes to write back out, and whether the
    /// daemon is to shut down. Undecodable bytes are answered with the
    /// parse-failure error and mutate nothing.
    pub fn handle_request(&mut self, buf: &Vec<u8>, today: Date, now: u32) -> (r: (Vec<u8>, bool))
        requires
            old(self).wf(),
            today.days + 8 <= u64::MAX,
        ensures
            final(self).wf(),
            final(self)@.cpfc == old(self)@.cpfc,
            final(self)@.csfc == old(self)@.csfc,
            (match spec_decode_request(buf@) {
                None => final(self)@ == old(self)@ && r.0@ == spec_encode_response(
                    RespView::Error { reason: ErrorReason::ParseFailureError },
                ) && !r.1,
                Some(rv) => exists|resp: RespView|
                    dispatch_post(
                        rv,
                        old(self)@.settings,
                        old(self)@.queue,
                        final(self)@.settings,
                        final(self)@.queue,
                        resp,
                        r.1,
                        today.days as int,
                        now as int,
                    ) && r.0@ == #[trigger] spec_encode_response(resp),
            }),
    {
        let req = match decode_request(buf) {
            None => {
                let out = encode_response(
                    &(Response::Error { reason: ErrorReason::ParseFailureError }),
                );
                proof {
                    assert(self@ =~= old(self)@);
                }
                return (out, false);
            },
            Some(req) => req,
        };
        let (resp, term) = dispatch(req, &mut self.settings, &mut self.queue, today, now);
        let out = encode_response(&resp);
        (out, term)
    }

    /// Fires the earliest alarm when it is due: pops it, hands back what to
    /// play and show, and reinserts it rescheduled one day later — the
    /// advance is unconditional, whatever the repeat rule says, so a
    /// one-shot alarm too comes up again tomorrow.
    pub fn fire_due(&mut self, today: Date, now: u32) -> (r: Option<Firing>)
        requires
            old(self).wf(),
            today.days < u64::MAX,
        ensures
            final(self).wf(),
            (match r {
                None => final(self)@ == old(self)@ && (old(self)@.queue.len() == 0 || !spec_due(
                    old(self)@.queue[0],
                    today.days as int,
                    now as int,
                )),
                Some(f) => {
                    let head = old(self)@.queue[0];
                    &&& old(self)@.queue.len() > 0
                    &&& spec_due(head, today.days as int, now as int)
                    &&& f.sound@ == (match head.alarm.sound {
                        Some(p) => p@,
                        None => old(self)@.settings.sound,
                    })
                    &&& f.notify == (old(self)@.settings.notify && (head.alarm.title is Some
                        || head.alarm.description is Some))
                    &&& f.title.deep_view() == head.alarm.title.deep_view()
                    &&& f.description.deep_view() == head.alarm.description.deep_view()
                    &&& f.icon.deep_view() == head.alarm.icon.deep_view()
                    &&& f.app_name@ == spec_app_name(old(self)@.settings)
                    &&& final(self)@ == DaemonView {
                        queue: spec_insert_sorted(
                            old(self)@.queue.drop_first(),
                            ScheduledAlarm {
                                date: Date { days: (head.date.days + 1) as u64 },
                                alarm: head.alarm,
                            },
                        ),
                        ..old(self)@
                    }
                },
            }),
    {
        let f: Firing = match self.queue.peek_due(today, now) {
            None => {
                proof {
                    assert(self@ =~= old(self)@);
                }
                return None;
            },
            Some(head) => Firing {
                sound: match &head.alarm.sound {
                    Some(p) => p.clone(),
                    None => self.settings.sound.clone(),
                },
                notify: self.settings.notify && (head.alarm.title.is_some()
                    || head.alarm.description.is_some()),
                title: clone_opt_string(&head.alarm.title),
                description: clone_opt_string(&head.alarm.description),
                icon: clone_opt_string(&head.alarm.icon),
                app_name: self.settings.app_name(),
            },
        };
        self.queue.pop_and_reschedule();
        proof {
            assert(self@ =~= DaemonView { queue: self.queue@, ..old(self)@ });
        }
        Some(f)
    }
}

} // verus!
