//! The protocol dispatcher: one decoded request against the daemon's live
//! state (settings and alarm queue). Required fields are checked first and
//! a missing one mutates nothing; enum discriminators outside the known
//! range are refused; each request mutates at most one settings field or
//! one queue entry, so there is never a partial effect to roll back.
//!
//! The error catalogue reserves an internal-server error for an in-memory
//! alarm that cannot be re-encoded for transmission; with the time of day
//! held as plain seconds, re-encoding is total and that error never arises.

use vstd::prelude::*;
use crate::alarm::AlarmSpec;
use crate::alarm::ScheduledAlarm;
use crate::codec::{
    spec_alarm_to_info, spec_info_to_alarm, DataValue, DataView, ErrorReason, ReqView, Request,
    RespView, Response,
};
use crate::date::{spec_entry_start, spec_find_next_rep, Date};
use crate::queue::{spec_insert_sorted, spec_remove_first, AlarmQueue};

verus! {

/// The daemon's live settings, defaults already applied.
pub struct Settings {
    pub sound: String,
    pub poll: u64,
    pub notify: bool,
    pub custom_app_name: Option<String>,
    pub daemonized: bool,
    pub tpfc: u16,
    pub tsfc: u16,
}

/// Mathematical model of the settings.
#[verifier::ext_equal]
pub ghost struct SettingsView {
    pub sound: Seq<char>,
    pub poll: u64,
    pub notify: bool,
    pub custom_app_name: Option<Seq<char>>,
    pub daemonized: bool,
    pub tpfc: u16,
    pub tsfc: u16,
}

impl View for Settings {
    type V = SettingsView;

    open spec fn view(&self) -> SettingsView {
        SettingsView {
            sound: self.sound@,
            poll: self.poll,
            notify: self.notify,
            custom_app_name: self.custom_app_name.deep_view(),
            daemonized: self.daemonized,
            tpfc: self.tpfc,
            tsfc: self.tsfc,
        }
    }
}

/// The application name shown on notifications: the custom one, or the
/// daemon's own.
pub open spec fn spec_app_name(s: SettingsView) -> Seq<char> {
    match s.custom_app_name {
        None => "pwalarmd"@,
        Some(n) => n,
    }
}

impl Settings {
    /// The application name shown on notifications.
    pub fn app_name(&self) -> (r: String)
        ensures
            r@ == spec_app_name(self@),
    {
        match &self.custom_app_name {
            None => String::from_str("pwalarmd"),
            Some(n) => n.clone(),
        }
    }
}

/// How the daemonize flag falls out of the environment override and the
/// configuration: "1" forces it, "0" forbids it, anything else defers to
/// the configuration, which daemonizes unless it plainly says not to.
pub open spec fn spec_resolve_daemonize(env: Option<Seq<char>>, conf: Option<bool>) -> bool {
    match env {
        Some(e) => if e == "1"@ {
            true
        } else if e == "0"@ {
            false
        } else {
            conf != Some(false)
        },
        None => conf != Some(false),
    }
}

/// Resolves the daemonize flag from the environment override and the
/// configuration's own flag.
pub fn resolve_daemonize(env: &Option<String>, conf: &Option<bool>) -> (r: bool)
    ensures
        r == spec_resolve_daemonize(env.deep_view(), *conf),
{
    let forbid = match conf {
        Some(false) => true,
        _ => false,
    };
    match env {
        Some(e) => {
            if e.eq(&String::from_str("1")) {
                true
            } else if e.eq(&String::from_str("0")) {
                false
            } else {
                !forbid
            }
        },
        None => !forbid,
    }
}

/// Settings as loaded from the configuration source, each absent value
/// replaced by its default: the bundled sound, a 125 ms poll, a config
/// check every 2 ticks and a socket check every tick.
pub fn settings_from_config(
    sound: Option<String>,
    poll: Option<u64>,
    notify: bool,
    custom_app_name: Option<String>,
    daemonized: bool,
    tpfc: Option<u16>,
    tsfc: Option<u16>,
) -> (r: Settings)
    ensures
        r@.sound == (match sound {
            None => "assets/hyper-alarm.mp3"@,
            Some(s) => s@,
        }),
        r@.poll == (match poll {
            None => 125u64,
            Some(p) => p,
        }),
        r@.notify == notify,
        r@.custom_app_name == custom_app_name.deep_view(),
        r@.daemonized == daemonized,
        r@.tpfc == (match tpfc {
            None => 2u16,
            Some(t) => t,
        }),
        r@.tsfc == (match tsfc {
            None => 1u16,
            Some(t) => t,
        }),
{
    Settings {
        sound: match sound {
            None => String::from_str("assets/hyper-alarm.mp3"),
            Some(s) => s,
        },
        poll: match poll {
            None => 125,
            Some(p) => p,
        },
        notify,
        custom_app_name,
        daemonized,
        tpfc: match tpfc {
            None => 2,
            Some(t) => t,
        },
        tsfc: match tsfc {
            None => 1,
            Some(t) => t,
        },
    }
}

/// The wire forms of the queued alarms, in queue order.
pub open spec fn spec_queue_infos(q: Seq<ScheduledAlarm>) -> Seq<crate::codec::AlarmInfoView> {
    q.map_values(|e: ScheduledAlarm| spec_alarm_to_info(e.alarm@))
}

/// Whether a request leaves out a field the protocol requires.
pub open spec fn spec_missing_mandatory(req: ReqView) -> bool {
    match req {
        ReqView::ChangeGeneralSound { newsound } => newsound is None,
        ReqView::ChangePollFrequency { poll, tpfc, tsfc } => poll is None && tpfc is None
            && tsfc is None,
        ReqView::SetNotify { noti } => noti is None,
        ReqView::ChangeAppName { .. } => false,
        ReqView::KillSwitch => false,
        ReqView::FetchGeneralInfo { git } => git is None,
        ReqView::FetchAlarms => false,
        ReqView::NewAlarm { al } => match al {
            None => true,
            Some(w) => w.time is None,
        },
        ReqView::RemoveAlarm { al } => match al {
            None => true,
            Some(w) => w.time is None,
        },
    }
}

/// What dispatching one request does: how the settings and the queue after
/// the call relate to those before it, which response goes back, and
/// whether the daemon is to terminate.
pub open spec fn dispatch_post(
    req: ReqView,
    s0: SettingsView,
    q0: Seq<ScheduledAlarm>,
    s1: SettingsView,
    q1: Seq<ScheduledAlarm>,
    resp: RespView,
    term: bool,
    today: int,
    now: int,
) -> bool {
    match req {
        ReqView::ChangeGeneralSound { newsound } => match newsound {
            None => s1 == s0 && q1 == q0 && resp == RespView::Error {
                reason: ErrorReason::MissingRequiredComponent,
            } && !term,
            Some(snd) => s1 == SettingsView { sound: snd, ..s0 } && q1 == q0 && resp
                == RespView::Success && !term,
        },
        ReqView::ChangePollFrequency { poll, tpfc, tsfc } => {
            if poll is None && tpfc is None && tsfc is None {
                s1 == s0 && q1 == q0 && resp == RespView::Error {
                    reason: ErrorReason::MissingRequiredComponent,
                } && !term
            } else {
                let sp = match poll {
                    None => s0.poll,
                    Some(z) => z,
                };
                let st = match tpfc {
                    None => s0.tpfc,
                    Some(z) => z as u16,
                };
                let ss = match tsfc {
                    None => s0.tsfc,
                    Some(z) => z as u16,
                };
                s1 == SettingsView { poll: sp, tpfc: st, tsfc: ss, ..s0 } && q1 == q0 && resp
                    == RespView::Success && !term
            }
        },
        ReqView::SetNotify { noti } => match noti {
            None => s1 == s0 && q1 == q0 && resp == RespView::Error {
                reason: ErrorReason::MissingRequiredComponent,
            } && !term,
            Some(b) => s1 == SettingsView { notify: b, ..s0 } && q1 == q0 && resp
                == RespView::Success && !term,
        },
        ReqView::ChangeAppName { newname } => s1 == SettingsView {
            custom_app_name: newname,
            ..s0
        } && q1 == q0 && resp == RespView::Success && !term,
        ReqView::KillSwitch => s1 == s0 && q1 == q0 && resp == RespView::Success && term,
        ReqView::FetchGeneralInfo { git } => s1 == s0 && q1 == q0 && !term && resp == (match git {
            None => RespView::Error { reason: ErrorReason::MissingRequiredComponent },
            Some(n) => if n == 0 {
                RespView::SuccessWithData { dat: DataView::St(s0.sound) }
            } else if n == 1 {
                RespView::SuccessWithData { dat: DataView::Ui(s0.poll) }
            } else if n == 2 {
                RespView::SuccessWithData { dat: DataView::Bl(s0.notify) }
            } else if n == 3 {
                RespView::SuccessWithData { dat: DataView::St(spec_app_name(s0)) }
            } else if n == 4 {
                RespView::SuccessWithData { dat: DataView::Bl(s0.daemonized) }
            } else if n == 5 {
                RespView::SuccessWithData { dat: DataView::Sui(s0.tpfc as u32) }
            } else if n == 6 {
                RespView::SuccessWithData { dat: DataView::Sui(s0.tsfc as u32) }
            } else {
                RespView::Error { reason: ErrorReason::IllegalEnumOption }
            },
        }),
        ReqView::FetchAlarms => s1 == s0 && q1 == q0 && resp == RespView::SuccessWithAlarms {
            als: spec_queue_infos(q0),
        } && !term,
        ReqView::NewAlarm { al } => match al {
            None => s1 == s0 && q1 == q0 && resp == RespView::Error {
                reason: ErrorReason::MissingRequiredComponent,
            } && !term,
            Some(w) => match spec_info_to_alarm(w) {
                Err(e) => s1 == s0 && q1 == q0 && resp == RespView::Error { reason: e } && !term,
                Ok(av) => s1 == s0 && !term && resp == RespView::Success && (match
                    spec_find_next_rep(
                    spec_entry_start(today, av.time_of_day as int, now),
                    av.repeat,
                ) {
                    None => q1 == q0,
                    Some(d) => exists|x: ScheduledAlarm|
                        x.alarm@ == av && x.date.days == d && q1 == #[trigger] spec_insert_sorted(
                            q0,
                            x,
                        ),
                }),
            },
        },
        ReqView::RemoveAlarm { al } => match al {
            None => s1 == s0 && q1 == q0 && resp == RespView::Error {
                reason: ErrorReason::MissingRequiredComponent,
            } && !term,
            Some(w) => match spec_info_to_alarm(w) {
                Err(e) => s1 == s0 && q1 == q0 && resp == RespView::Error { reason: e } && !term,
                Ok(av) => s1 == s0 && q1 == spec_remove_first(q0, av) && resp == RespView::Success
                    && !term,
            },
        },
    }
}

/// Law: a request missing a mandatory field is answered with exactly the
/// missing-required-field error, and mutates nothing.
pub proof fn lemma_missing_field_mutates_nothing(
    req: ReqView,
    s0: SettingsView,
    q0: Seq<ScheduledAlarm>,
    s1: SettingsView,
    q1: Seq<ScheduledAlarm>,
    resp: RespView,
    term: bool,
    today: int,
    now: int,
)
    requires
        spec_missing_mandatory(req),
        dispatch_post(req, s0, q0, s1, q1, resp, term, today, now),
    ensures
        resp == (RespView::Error { reason: ErrorReason::MissingRequiredComponent }),
        s1 == s0,
        q1 == q0,
        !term,
{
}

/// Applies one request to the daemon's settings and alarm queue, and says
/// what to answer and whether to shut down.
pub fn dispatch(
    req: Request,
    settings: &mut Settings,
    queue: &mut AlarmQueue,
    today: Date,
    now: u32,
) -> (r: (Response, bool))
    requires
        old(queue).wf(),
        today.days + 8 <= u64::MAX,
    ensures
        final(queue).wf(),
        dispatch_post(
            req@,
            old(settings)@,
            old(queue)@,
            final(settings)@,
            final(queue)@,
            r.0@,
            r.1,
            today.days as int,
            now as int,
        ),
{
    match req {
        Request::ChangeGeneralSound { newsound } => match newsound {
            None => (
                Response::Error { reason: ErrorReason::MissingRequiredComponent },
                false,
            ),
            Some(snd) => {
                settings.sound = snd;
                (Response::Success, false)
            },
        },
        Request::ChangePollFrequency { poll, tpfc, tsfc } => {
            if poll.is_none() && tpfc.is_none() && tsfc.is_none() {
                return (
                    Response::Error { reason: ErrorReason::MissingRequiredComponent },
                    false,
                );
            }
            if let Some(z) = poll {
                settings.poll = z;
            }
            if let Some(z) = tpfc {
                settings.tpfc = z as u16;
            }
            if let Some(z) = tsfc {
                settings.tsfc = z as u16;
            }
            (Response::Success, false)
        },
        Request::SetNotify { noti } => match noti {
            None => (
                Response::Error { reason: ErrorReason::MissingRequiredComponent },
                false,
            ),
            Some(b) => {
                settings.notify = b;
                (Response::Success, false)
            },
        },
        Request::ChangeAppName { newname } => {
            settings.custom_app_name = newname;
            (Response::Success, false)
        },
        Request::KillSwitch => (Response::Success, true),
        Request::FetchGeneralInfo { git } => match git {
            None => (
                Response::Error { reason: ErrorReason::MissingRequiredComponent },
                false,
            ),
            Some(n) => {
                if n == 0 {
                    (
                        Response::SuccessWithData { dat: DataValue::St(settings.sound.clone()) },
                        false,
                    )
                } else if n == 1 {
                    (Response::SuccessWithData { dat: DataValue::Ui(settings.poll) }, false)
                } else if n == 2 {
                    (Response::SuccessWithData { dat: DataValue::Bl(settings.notify) }, false)
                } else if n == 3 {
                    (
                        Response::SuccessWithData { dat: DataValue::St(settings.app_name()) },
                        false,
                    )
                } else if n == 4 {
                    (Response::SuccessWithData { dat: DataValue::Bl(settings.daemonized) }, false)
                } else if n == 5 {
                    (
                        Response::SuccessWithData { dat: DataValue::Sui(settings.tpfc as u32) },
                        false,
                    )
                } else if n == 6 {
                    (
                        Response::SuccessWithData { dat: DataValue::Sui(settings.tsfc as u32) },
                        false,
                    )
                } else {
                    (Response::Error { reason: ErrorReason::IllegalEnumOption }, false)
                }
            },
        },
        Request::FetchAlarms => {
            let mut als: Vec<crate::codec::AlarmInfo> = Vec::new();
            let mut k: usize = 0;
            proof {
                assert(als.deep_view() =~= spec_queue_infos(queue@).take(0));
            }
            let qlen = queue.len();
            while k < qlen
                invariant
                    k <= qlen,
                    qlen == queue@.len(),
                    als.deep_view() == spec_queue_infos(queue@).take(k as int),
                decreases qlen - k,
            {
                let ghost pre = als.deep_view();
                let info = crate::codec::alarm_to_info(&queue.index(k).alarm);
                let ghost iv = info@;
                als.push(info);
                proof {
                    assert(als.deep_view() =~= pre.push(iv));
                    assert(spec_queue_infos(queue@)[k as int] == spec_alarm_to_info(
                        queue@[k as int].alarm@,
                    ));
                    assert(als.deep_view() =~= spec_queue_infos(queue@).take(k as int + 1));
                }
                k += 1;
            }
            proof {
                assert(spec_queue_infos(queue@).take(k as int) =~= spec_queue_infos(queue@));
            }
            (Response::SuccessWithAlarms { als }, false)
        },
        Request::NewAlarm { al } => match al {
            None => (
                Response::Error { reason: ErrorReason::MissingRequiredComponent },
                false,
            ),
            Some(w) => match crate::codec::info_to_alarm(w) {
                Err(e) => (Response::Error { reason: e }, false),
                Ok(a) => {
                    let ghost av = a@;
                    match crate::date::determine_entry_day_at(a.time_of_day, &a.repeat, today, now)
                     {
                        None => (Response::Success, false),
                        Some(d) => {
                            let x = ScheduledAlarm { date: d, alarm: a };
                            proof {
                                assert(x.alarm@ == av);
                            }
                            queue.insert(x);
                            (Response::Success, false)
                        },
                    }
                },
            },
        },
        Request::RemoveAlarm { al } => match al {
            None => (
                Response::Error { reason: ErrorReason::MissingRequiredComponent },
                false,
            ),
            Some(w) => match crate::codec::info_to_alarm(w) {
                Err(e) => (Response::Error { reason: e }, false),
                Ok(a) => {
                    queue.remove_equal(&a);
                    (Response::Success, false)
                },
            },
        },
    }
}

} // verus!
