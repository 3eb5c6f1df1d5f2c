//! The binary control protocol: the message types that cross the socket and
//! their encoding to and from byte buffers.
//!
//! The format is self-describing and strict. Integers are little-endian and
//! fixed width; a string is its byte length (u64) followed by its UTF-8
//! bytes; an optional field is a presence byte (0 or 1) followed by the
//! value when present; a list is its count (u64) followed by its elements;
//! a message is a tag byte followed by its fields in order. The decoder
//! accepts exactly the encoder's output: anything else is a parse failure.

use vstd::prelude::*;
use vstd::utf8::{decode_utf8, encode_utf8, valid_utf8};
use crate::alarm::{clone_opt_string, AlarmSpec};

verus! {

// ---------------------------------------------------------------------------
// Spec-level encoding of the scalar building blocks.
// ---------------------------------------------------------------------------

/// Little-endian bytes of a u32.
#[verifier::opaque]
pub open spec fn se_u32(x: u32) -> Seq<u8> {
    seq![
        (x as int % 256) as u8,
        (x as int / 0x100 % 256) as u8,
        (x as int / 0x10000 % 256) as u8,
        (x as int / 0x1000000 % 256) as u8,
    ]
}

/// Little-endian bytes of a u64.
#[verifier::opaque]
pub open spec fn se_u64(x: u64) -> Seq<u8> {
    seq![
        (x as int % 256) as u8,
        (x as int / 0x100 % 256) as u8,
        (x as int / 0x10000 % 256) as u8,
        (x as int / 0x1000000 % 256) as u8,
        (x as int / 0x100000000 % 256) as u8,
        (x as int / 0x10000000000 % 256) as u8,
        (x as int / 0x1000000000000 % 256) as u8,
        (x as int / 0x100000000000000 % 256) as u8,
    ]
}

pub open spec fn se_bool(v: bool) -> Seq<u8> {
    if v {
        seq![1u8]
    } else {
        seq![0u8]
    }
}

/// A string: byte length, then UTF-8 bytes.
pub open spec fn se_string(s: Seq<char>) -> Seq<u8> {
    se_u64(encode_utf8(s).len() as u64) + encode_utf8(s)
}

pub open spec fn se_opt_string(o: Option<Seq<char>>) -> Seq<u8> {
    match o {
        None => seq![0u8],
        Some(s) => seq![1u8] + se_string(s),
    }
}

pub open spec fn se_opt_u32(o: Option<u32>) -> Seq<u8> {
    match o {
        None => seq![0u8],
        Some(x) => seq![1u8] + se_u32(x),
    }
}

pub open spec fn se_opt_u64(o: Option<u64>) -> Seq<u8> {
    match o {
        None => seq![0u8],
        Some(x) => seq![1u8] + se_u64(x),
    }
}

pub open spec fn se_opt_bool(o: Option<bool>) -> Seq<u8> {
    match o {
        None => seq![0u8],
        Some(v) => seq![1u8] + se_bool(v),
    }
}

/// The elements of a string list, one encoded string after the other.
pub open spec fn se_string_elems(v: Seq<Seq<char>>) -> Seq<u8>
    decreases v.len(),
{
    if v.len() == 0 {
        Seq::empty()
    } else {
        se_string(v[0]) + se_string_elems(v.drop_first())
    }
}

/// A string list: count, then the elements.
pub open spec fn se_string_vec(v: Seq<Seq<char>>) -> Seq<u8> {
    se_u64(v.len() as u64) + se_string_elems(v)
}

// ---------------------------------------------------------------------------
// Spec-level decoding: each piece consumes from the front of the buffer and
// leaves the rest, or fails.
// ---------------------------------------------------------------------------

#[verifier::opaque]
pub open spec fn sd_u32(b: Seq<u8>) -> Option<(u32, Seq<u8>)> {
    if b.len() >= 4 {
        Some(
            (
                (b[0] + b[1] * 0x100 + b[2] * 0x10000 + b[3] * 0x1000000) as u32,
                b.skip(4),
            ),
        )
    } else {
        None
    }
}

#[verifier::opaque]
pub open spec fn sd_u64(b: Seq<u8>) -> Option<(u64, Seq<u8>)> {
    if b.len() >= 8 {
        Some(
            (
                (b[0] + b[1] * 0x100 + b[2] * 0x10000 + b[3] * 0x1000000 + b[4] * 0x100000000 + b[5]
                    * 0x10000000000 + b[6] * 0x1000000000000 + b[7] * 0x100000000000000) as u64,
                b.skip(8),
            ),
        )
    } else {
        None
    }
}

/// Strict boolean: one byte, 0 or 1.
pub open spec fn sd_bool(b: Seq<u8>) -> Option<(bool, Seq<u8>)> {
    if b.len() >= 1 && (b[0] == 0 || b[0] == 1) {
        Some((b[0] == 1, b.skip(1)))
    } else {
        None
    }
}

/// A string: length, then that many bytes, which must be valid UTF-8.
pub open spec fn sd_string(b: Seq<u8>) -> Option<(Seq<char>, Seq<u8>)> {
    match sd_u64(b) {
        None => None,
        Some((n, rest)) => if n <= rest.len() && valid_utf8(rest.take(n as int)) {
            Some((decode_utf8(rest.take(n as int)), rest.skip(n as int)))
        } else {
            None
        },
    }
}

pub open spec fn sd_opt_string(b: Seq<u8>) -> Option<(Option<Seq<char>>, Seq<u8>)> {
    match sd_bool(b) {
        None => None,
        Some((present, rest)) => if present {
            match sd_string(rest) {
                None => None,
                Some((s, rest2)) => Some((Some(s), rest2)),
            }
        } else {
            Some((None, rest))
        },
    }
}

pub open spec fn sd_opt_u32(b: Seq<u8>) -> Option<(Option<u32>, Seq<u8>)> {
    match sd_bool(b) {
        None => None,
        Some((present, rest)) => if present {
            match sd_u32(rest) {
                None => None,
                Some((x, rest2)) => Some((Some(x), rest2)),
            }
        } else {
            Some((None, rest))
        },
    }
}

pub open spec fn sd_opt_u64(b: Seq<u8>) -> Option<(Option<u64>, Seq<u8>)> {
    match sd_bool(b) {
        None => None,
        Some((present, rest)) => if present {
            match sd_u64(rest) {
                None => None,
                Some((x, rest2)) => Some((Some(x), rest2)),
            }
        } else {
            Some((None, rest))
        },
    }
}

pub open spec fn sd_opt_bool(b: Seq<u8>) -> Option<(Option<bool>, Seq<u8>)> {
    match sd_bool(b) {
        None => None,
        Some((present, rest)) => if present {
            match sd_bool(rest) {
                None => None,
                Some((v, rest2)) => Some((Some(v), rest2)),
            }
        } else {
            Some((None, rest))
        },
    }
}

/// `n` strings, one after the other.
pub open spec fn sd_string_elems(b: Seq<u8>, n: int) -> Option<(Seq<Seq<char>>, Seq<u8>)>
    decreases n,
{
    if n <= 0 {
        Some((Seq::empty(), b))
    } else {
        match sd_string(b) {
            None => None,
            Some((s, rest)) => match sd_string_elems(rest, n - 1) {
                None => None,
                Some((v, rest2)) => Some((seq![s] + v, rest2)),
            },
        }
    }
}

pub open spec fn sd_string_vec(b: Seq<u8>) -> Option<(Seq<Seq<char>>, Seq<u8>)> {
    match sd_u64(b) {
        None => None,
        Some((n, rest)) => sd_string_elems(rest, n as int),
    }
}

// ---------------------------------------------------------------------------
// Each decoder undoes its encoder, whatever follows in the buffer.
// ---------------------------------------------------------------------------

/// Every string of the list can state its byte length in a u64.
pub open spec fn strings_fit(v: Seq<Seq<char>>) -> bool {
    &&& v.len() <= u64::MAX
    &&& forall|i: int| 0 <= i < v.len() ==> encode_utf8(#[trigger] v[i]).len() <= u64::MAX
}

pub proof fn lemma_rt_u32(x: u32, rest: Seq<u8>)
    ensures
        sd_u32(se_u32(x) + rest) == Some((x, rest)),
{
    reveal(se_u32);
    reveal(sd_u32);
    let b = se_u32(x) + rest;
    assert(x as int % 256 + (x as int / 0x100 % 256) * 0x100 + (x as int / 0x10000 % 256) * 0x10000
        + (x as int / 0x1000000 % 256) * 0x1000000 == x as int) by {
        assert(x % 256 + (x / 0x100 % 256) * 0x100 + (x / 0x10000 % 256) * 0x10000 + (x / 0x1000000
            % 256) * 0x1000000 == x) by (bit_vector);
    }
    assert(b.skip(4) =~= rest);
}

pub proof fn lemma_rt_u64(x: u64, rest: Seq<u8>)
    ensures
        sd_u64(se_u64(x) + rest) == Some((x, rest)),
{
    reveal(se_u64);
    reveal(sd_u64);
    let b = se_u64(x) + rest;
    assert(x as int % 256 + (x as int / 0x100 % 256) * 0x100 + (x as int / 0x10000 % 256) * 0x10000
        + (x as int / 0x1000000 % 256) * 0x1000000 + (x as int / 0x100000000 % 256) * 0x100000000 + (
    x as int / 0x10000000000 % 256) * 0x10000000000 + (x as int / 0x1000000000000 % 256)
        * 0x1000000000000 + (x as int / 0x100000000000000 % 256) * 0x100000000000000 == x as int)
        by {
        assert(x % 256 + (x / 0x100 % 256) * 0x100 + (x / 0x10000 % 256) * 0x10000 + (x / 0x1000000
            % 256) * 0x1000000 + (x / 0x100000000 % 256) * 0x100000000 + (x / 0x10000000000 % 256)
            * 0x10000000000 + (x / 0x1000000000000 % 256) * 0x1000000000000 + (x
            / 0x100000000000000 % 256) * 0x100000000000000 == x) by (bit_vector);
    }
    assert(b.skip(8) =~= rest);
}

pub proof fn lemma_rt_bool(v: bool, rest: Seq<u8>)
    ensures
        sd_bool(se_bool(v) + rest) == Some((v, rest)),
{
    let b = se_bool(v) + rest;
    assert(b.skip(1) =~= rest);
}

pub proof fn lemma_rt_string(s: Seq<char>, rest: Seq<u8>)
    requires
        encode_utf8(s).len() <= u64::MAX,
    ensures
        sd_string(se_string(s) + rest) == Some((s, rest)),
{
    broadcast use vstd::utf8::encode_utf8_valid_utf8, vstd::utf8::encode_utf8_decode_utf8;

    let eu = encode_utf8(s);
    let n = eu.len() as u64;
    assert(se_string(s) + rest =~= se_u64(n) + (eu + rest));
    lemma_rt_u64(n, eu + rest);
    assert((eu + rest).take(n as int) =~= eu);
    assert((eu + rest).skip(n as int) =~= rest);
}

pub proof fn lemma_rt_opt_string(o: Option<Seq<char>>, rest: Seq<u8>)
    requires
        o matches Some(s) ==> encode_utf8(s).len() <= u64::MAX,
    ensures
        sd_opt_string(se_opt_string(o) + rest) == Some((o, rest)),
{
    match o {
        None => {
            lemma_rt_bool(false, rest);
            assert(se_opt_string(o) + rest =~= se_bool(false) + rest);
        },
        Some(s) => {
            assert(se_opt_string(o) + rest =~= se_bool(true) + (se_string(s) + rest));
            lemma_rt_bool(true, se_string(s) + rest);
            lemma_rt_string(s, rest);
        },
    }
}

pub proof fn lemma_rt_opt_u32(o: Option<u32>, rest: Seq<u8>)
    ensures
        sd_opt_u32(se_opt_u32(o) + rest) == Some((o, rest)),
{
    match o {
        None => {
            lemma_rt_bool(false, rest);
            assert(se_opt_u32(o) + rest =~= se_bool(false) + rest);
        },
        Some(x) => {
            assert(se_opt_u32(o) + rest =~= se_bool(true) + (se_u32(x) + rest));
            lemma_rt_bool(true, se_u32(x) + rest);
            lemma_rt_u32(x, rest);
        },
    }
}

pub proof fn lemma_rt_opt_u64(o: Option<u64>, rest: Seq<u8>)
    ensures
        sd_opt_u64(se_opt_u64(o) + rest) == Some((o, rest)),
{
    match o {
        None => {
            lemma_rt_bool(false, rest);
            assert(se_opt_u64(o) + rest =~= se_bool(false) + rest);
        },
        Some(x) => {
            assert(se_opt_u64(o) + rest =~= se_bool(true) + (se_u64(x) + rest));
            lemma_rt_bool(true, se_u64(x) + rest);
            lemma_rt_u64(x, rest);
        },
    }
}

pub proof fn lemma_rt_opt_bool(o: Option<bool>, rest: Seq<u8>)
    ensures
        sd_opt_bool(se_opt_bool(o) + rest) == Some((o, rest)),
{
    match o {
        None => {
            lemma_rt_bool(false, rest);
            assert(se_opt_bool(o) + rest =~= se_bool(false) + rest);
        },
        Some(v) => {
            assert(se_opt_bool(o) + rest =~= se_bool(true) + (se_bool(v) + rest));
            lemma_rt_bool(true, se_bool(v) + rest);
            lemma_rt_bool(v, rest);
        },
    }
}

proof fn lemma_rt_string_elems(v: Seq<Seq<char>>, rest: Seq<u8>)
    requires
        forall|i: int| 0 <= i < v.len() ==> encode_utf8(#[trigger] v[i]).len() <= u64::MAX,
    ensures
        sd_string_elems(se_string_elems(v) + rest, v.len() as int) == Some((v, rest)),
    decreases v.len(),
{
    if v.len() == 0 {
        assert(se_string_elems(v) + rest =~= rest);
        assert(sd_string_elems(rest, 0) == Some((Seq::<Seq<char>>::empty(), rest)));
        assert(v =~= Seq::<Seq<char>>::empty());
    } else {
        let tail = v.drop_first();
        assert(se_string_elems(v) + rest =~= se_string(v[0]) + (se_string_elems(tail) + rest));
        lemma_rt_string(v[0], se_string_elems(tail) + rest);
        lemma_rt_string_elems(tail, rest);
        assert(seq![v[0]] + tail =~= v);
    }
}

pub proof fn lemma_rt_string_vec(v: Seq<Seq<char>>, rest: Seq<u8>)
    requires
        strings_fit(v),
    ensures
        sd_string_vec(se_string_vec(v) + rest) == Some((v, rest)),
{
    let n = v.len() as u64;
    assert(se_string_vec(v) + rest =~= se_u64(n) + (se_string_elems(v) + rest));
    lemma_rt_u64(n, se_string_elems(v) + rest);
    lemma_rt_string_elems(v, rest);
}

// ---------------------------------------------------------------------------
// The message catalogue.
// ---------------------------------------------------------------------------

/// One alarm as it crosses the wire: every field optional but the repeat
/// list, whose emptiness stands for a one-shot alarm.
pub struct AlarmInfo {
    pub title: Option<String>,
    pub desc: Option<String>,
    pub time: Option<u32>,
    pub repeat: Vec<String>,
    pub sound: Option<String>,
    pub icon: Option<String>,
}

/// Mathematical model of an `AlarmInfo`.
#[verifier::ext_equal]
pub ghost struct AlarmInfoView {
    pub title: Option<Seq<char>>,
    pub desc: Option<Seq<char>>,
    pub time: Option<u32>,
    pub repeat: Seq<Seq<char>>,
    pub sound: Option<Seq<char>>,
    pub icon: Option<Seq<char>>,
}

impl View for AlarmInfo {
    type V = AlarmInfoView;

    open spec fn view(&self) -> AlarmInfoView {
        AlarmInfoView {
            title: self.title.deep_view(),
            desc: self.desc.deep_view(),
            time: self.time,
            repeat: self.repeat.deep_view(),
            sound: self.sound.deep_view(),
            icon: self.icon.deep_view(),
        }
    }
}

impl DeepView for AlarmInfo {
    type V = AlarmInfoView;

    open spec fn deep_view(&self) -> AlarmInfoView {
        self.view()
    }
}

/// A request from the control client to the daemon.
pub enum Request {
    ChangeGeneralSound { newsound: Option<String> },
    ChangePollFrequency { poll: Option<u64>, tpfc: Option<u32>, tsfc: Option<u32> },
    SetNotify { noti: Option<bool> },
    ChangeAppName { newname: Option<String> },
    KillSwitch,
    FetchGeneralInfo { git: Option<u32> },
    FetchAlarms,
    NewAlarm { al: Option<AlarmInfo> },
    RemoveAlarm { al: Option<AlarmInfo> },
}

/// Mathematical model of a `Request`.
#[verifier::ext_equal]
pub ghost enum ReqView {
    ChangeGeneralSound { newsound: Option<Seq<char>> },
    ChangePollFrequency { poll: Option<u64>, tpfc: Option<u32>, tsfc: Option<u32> },
    SetNotify { noti: Option<bool> },
    ChangeAppName { newname: Option<Seq<char>> },
    KillSwitch,
    FetchGeneralInfo { git: Option<u32> },
    FetchAlarms,
    NewAlarm { al: Option<AlarmInfoView> },
    RemoveAlarm { al: Option<AlarmInfoView> },
}

impl View for Request {
    type V = ReqView;

    open spec fn view(&self) -> ReqView {
        match self {
            Request::ChangeGeneralSound { newsound } => ReqView::ChangeGeneralSound {
                newsound: newsound.deep_view(),
            },
            Request::ChangePollFrequency { poll, tpfc, tsfc } => ReqView::ChangePollFrequency {
                poll: *poll,
                tpfc: *tpfc,
                tsfc: *tsfc,
            },
            Request::SetNotify { noti } => ReqView::SetNotify { noti: *noti },
            Request::ChangeAppName { newname } => ReqView::ChangeAppName {
                newname: newname.deep_view(),
            },
            Request::KillSwitch => ReqView::KillSwitch,
            Request::FetchGeneralInfo { git } => ReqView::FetchGeneralInfo { git: *git },
            Request::FetchAlarms => ReqView::FetchAlarms,
            Request::NewAlarm { al } => ReqView::NewAlarm {
                al: match al {
                    None => None,
                    Some(a) => Some(a@),
                },
            },
            Request::RemoveAlarm { al } => ReqView::RemoveAlarm {
                al: match al {
                    None => None,
                    Some(a) => Some(a@),
                },
            },
        }
    }
}

/// Why the daemon refused a request.
#[derive(Clone, Copy, PartialEq, Eq, Structural, Debug)]
pub enum ErrorReason {
    ParseFailureError,
    MissingRequiredComponent,
    IllegalEnumOption,
    InternalServerError,
}

/// The one typed scalar a successful query answers with.
pub enum DataValue {
    St(String),
    Ui(u64),
    Sui(u32),
    Bl(bool),
}

/// Mathematical model of a `DataValue`.
#[verifier::ext_equal]
pub ghost enum DataView {
    St(Seq<char>),
    Ui(u64),
    Sui(u32),
    Bl(bool),
}

impl View for DataValue {
    type V = DataView;

    open spec fn view(&self) -> DataView {
        match self {
            DataValue::St(s) => DataView::St(s@),
            DataValue::Ui(x) => DataView::Ui(*x),
            DataValue::Sui(x) => DataView::Sui(*x),
            DataValue::Bl(v) => DataView::Bl(*v),
        }
    }
}

/// The daemon's answer to one request.
pub enum Response {
    Success,
    SuccessWithData { dat: DataValue },
    SuccessWithAlarms { als: Vec<AlarmInfo> },
    Error { reason: ErrorReason },
}

/// Mathematical model of a `Response`.
#[verifier::ext_equal]
pub ghost enum RespView {
    Success,
    SuccessWithData { dat: DataView },
    SuccessWithAlarms { als: Seq<AlarmInfoView> },
    Error { reason: ErrorReason },
}

impl View for Response {
    type V = RespView;

    open spec fn view(&self) -> RespView {
        match self {
            Response::Success => RespView::Success,
            Response::SuccessWithData { dat } => RespView::SuccessWithData { dat: dat@ },
            Response::SuccessWithAlarms { als } => RespView::SuccessWithAlarms {
                als: als.deep_view(),
            },
            Response::Error { reason } => RespView::Error { reason: *reason },
        }
    }
}

// ---------------------------------------------------------------------------
// Spec-level encoding of the messages.
// ---------------------------------------------------------------------------

pub open spec fn opt_string_fits(o: Option<Seq<char>>) -> bool {
    o matches Some(s) ==> encode_utf8(s).len() <= u64::MAX
}

pub open spec fn alarm_fits(a: AlarmInfoView) -> bool {
    &&& opt_string_fits(a.title)
    &&& opt_string_fits(a.desc)
    &&& strings_fit(a.repeat)
    &&& opt_string_fits(a.sound)
    &&& opt_string_fits(a.icon)
}

pub open spec fn se_alarm(a: AlarmInfoView) -> Seq<u8> {
    se_opt_string(a.title) + se_opt_string(a.desc) + se_opt_u32(a.time) + se_string_vec(a.repeat)
        + se_opt_string(a.sound) + se_opt_string(a.icon)
}

pub open spec fn sd_alarm(b: Seq<u8>) -> Option<(AlarmInfoView, Seq<u8>)> {
    match sd_opt_string(b) {
        None => None,
        Some((title, b1)) => match sd_opt_string(b1) {
            None => None,
            Some((desc, b2)) => match sd_opt_u32(b2) {
                None => None,
                Some((time, b3)) => match sd_string_vec(b3) {
                    None => None,
                    Some((repeat, b4)) => match sd_opt_string(b4) {
                        None => None,
                        Some((sound, b5)) => match sd_opt_string(b5) {
                            None => None,
                            Some((icon, b6)) => Some(
                                (AlarmInfoView { title, desc, time, repeat, sound, icon }, b6),
                            ),
                        },
                    },
                },
            },
        },
    }
}

#[verifier::rlimit(50)]
pub proof fn lemma_rt_alarm(a: AlarmInfoView, rest: Seq<u8>)
    requires
        alarm_fits(a),
    ensures
        sd_alarm(se_alarm(a) + rest) == Some((a, rest)),
{
    let r5 = se_opt_string(a.icon) + rest;
    let r4 = se_opt_string(a.sound) + r5;
    let r3 = se_string_vec(a.repeat) + r4;
    let r2 = se_opt_u32(a.time) + r3;
    let r1 = se_opt_string(a.desc) + r2;
    assert(se_alarm(a) + rest =~= se_opt_string(a.title) + r1);
    lemma_rt_opt_string(a.title, r1);
    assert(r1 =~= se_opt_string(a.desc) + r2);
    lemma_rt_opt_string(a.desc, r2);
    lemma_rt_opt_u32(a.time, r3);
    lemma_rt_string_vec(a.repeat, r4);
    lemma_rt_opt_string(a.sound, r5);
    lemma_rt_opt_string(a.icon, rest);
    assert(sd_alarm(se_alarm(a) + rest) == Some((a, rest)));
}

/// A list of wire alarms, one after the other.
pub open spec fn se_alarm_elems(v: Seq<AlarmInfoView>) -> Seq<u8>
    decreases v.len(),
{
    if v.len() == 0 {
        Seq::empty()
    } else {
        se_alarm(v[0]) + se_alarm_elems(v.drop_first())
    }
}

pub open spec fn se_alarm_vec(v: Seq<AlarmInfoView>) -> Seq<u8> {
    se_u64(v.len() as u64) + se_alarm_elems(v)
}

pub open spec fn sd_alarm_elems(b: Seq<u8>, n: int) -> Option<(Seq<AlarmInfoView>, Seq<u8>)>
    decreases n,
{
    if n <= 0 {
        Some((Seq::empty(), b))
    } else {
        match sd_alarm(b) {
            None => None,
            Some((a, rest)) => match sd_alarm_elems(rest, n - 1) {
                None => None,
                Some((v, rest2)) => Some((seq![a] + v, rest2)),
            },
        }
    }
}

pub open spec fn sd_alarm_vec(b: Seq<u8>) -> Option<(Seq<AlarmInfoView>, Seq<u8>)> {
    match sd_u64(b) {
        None => None,
        Some((n, rest)) => sd_alarm_elems(rest, n as int),
    }
}

pub open spec fn alarms_fit(v: Seq<AlarmInfoView>) -> bool {
    &&& v.len() <= u64::MAX
    &&& forall|i: int| 0 <= i < v.len() ==> alarm_fits(#[trigger] v[i])
}

proof fn lemma_rt_alarm_elems(v: Seq<AlarmInfoView>, rest: Seq<u8>)
    requires
        forall|i: int| 0 <= i < v.len() ==> alarm_fits(#[trigger] v[i]),
    ensures
        sd_alarm_elems(se_alarm_elems(v) + rest, v.len() as int) == Some((v, rest)),
    decreases v.len(),
{
    if v.len() == 0 {
        assert(se_alarm_elems(v) + rest =~= rest);
        assert(v =~= Seq::<AlarmInfoView>::empty());
    } else {
        let tail = v.drop_first();
        assert(se_alarm_elems(v) + rest =~= se_alarm(v[0]) + (se_alarm_elems(tail) + rest));
        lemma_rt_alarm(v[0], se_alarm_elems(tail) + rest);
        lemma_rt_alarm_elems(tail, rest);
        assert(seq![v[0]] + tail =~= v);
    }
}

pub proof fn lemma_rt_alarm_vec(v: Seq<AlarmInfoView>, rest: Seq<u8>)
    requires
        alarms_fit(v),
    ensures
        sd_alarm_vec(se_alarm_vec(v) + rest) == Some((v, rest)),
{
    let n = v.len() as u64;
    assert(se_alarm_vec(v) + rest =~= se_u64(n) + (se_alarm_elems(v) + rest));
    lemma_rt_u64(n, se_alarm_elems(v) + rest);
    lemma_rt_alarm_elems(v, rest);
}

// ---------------------------------------------------------------------------
// Whole messages: a tag byte, then the variant's fields; a message is the
// whole buffer, nothing may follow it.
// ---------------------------------------------------------------------------

pub open spec fn opt_alarm_fits(o: Option<AlarmInfoView>) -> bool {
    o matches Some(a) ==> alarm_fits(a)
}

pub open spec fn req_fits(r: ReqView) -> bool {
    match r {
        ReqView::ChangeGeneralSound { newsound } => opt_string_fits(newsound),
        ReqView::ChangePollFrequency { .. } => true,
        ReqView::SetNotify { .. } => true,
        ReqView::ChangeAppName { newname } => opt_string_fits(newname),
        ReqView::KillSwitch => true,
        ReqView::FetchGeneralInfo { .. } => true,
        ReqView::FetchAlarms => true,
        ReqView::NewAlarm { al } => opt_alarm_fits(al),
        ReqView::RemoveAlarm { al } => opt_alarm_fits(al),
    }
}

pub open spec fn se_opt_alarm(o: Option<AlarmInfoView>) -> Seq<u8> {
    match o {
        None => seq![0u8],
        Some(a) => seq![1u8] + se_alarm(a),
    }
}

pub open spec fn sd_opt_alarm(b: Seq<u8>) -> Option<(Option<AlarmInfoView>, Seq<u8>)> {
    match sd_bool(b) {
        None => None,
        Some((present, rest)) => if present {
            match sd_alarm(rest) {
                None => None,
                Some((a, rest2)) => Some((Some(a), rest2)),
            }
        } else {
            Some((None, rest))
        },
    }
}

pub proof fn lemma_rt_opt_alarm(o: Option<AlarmInfoView>, rest: Seq<u8>)
    requires
        opt_alarm_fits(o),
    ensures
        sd_opt_alarm(se_opt_alarm(o) + rest) == Some((o, rest)),
{
    match o {
        None => {
            lemma_rt_bool(false, rest);
            assert(se_opt_alarm(o) + rest =~= se_bool(false) + rest);
        },
        Some(a) => {
            assert(se_opt_alarm(o) + rest =~= se_bool(true) + (se_alarm(a) + rest));
            lemma_rt_bool(true, se_alarm(a) + rest);
            lemma_rt_alarm(a, rest);
        },
    }
}

/// Body of a request, without its tag byte.
pub open spec fn se_req_body(r: ReqView) -> Seq<u8> {
    match r {
        ReqView::ChangeGeneralSound { newsound } => se_opt_string(newsound),
        ReqView::ChangePollFrequency { poll, tpfc, tsfc } => se_opt_u64(poll) + se_opt_u32(tpfc)
            + se_opt_u32(tsfc),
        ReqView::SetNotify { noti } => se_opt_bool(noti),
        ReqView::ChangeAppName { newname } => se_opt_string(newname),
        ReqView::KillSwitch => Seq::empty(),
        ReqView::FetchGeneralInfo { git } => se_opt_u32(git),
        ReqView::FetchAlarms => Seq::empty(),
        ReqView::NewAlarm { al } => se_opt_alarm(al),
        ReqView::RemoveAlarm { al } => se_opt_alarm(al),
    }
}

pub open spec fn req_tag(r: ReqView) -> u8 {
    match r {
        ReqView::ChangeGeneralSound { .. } => 1u8,
        ReqView::ChangePollFrequency { .. } => 2u8,
        ReqView::SetNotify { .. } => 3u8,
        ReqView::ChangeAppName { .. } => 4u8,
        ReqView::KillSwitch => 5u8,
        ReqView::FetchGeneralInfo { .. } => 6u8,
        ReqView::FetchAlarms => 7u8,
        ReqView::NewAlarm { .. } => 8u8,
        ReqView::RemoveAlarm { .. } => 9u8,
    }
}

/// A whole encoded request.
pub open spec fn spec_encode_request(r: ReqView) -> Seq<u8> {
    seq![req_tag(r)] + se_req_body(r)
}

/// What decoding yields from a whole buffer: the request whose encoding the
/// buffer is, when it is one.
pub open spec fn spec_decode_request(b: Seq<u8>) -> Option<ReqView> {
    if b.len() < 1 {
        None
    } else {
        let tag = b[0];
        let rest = b.skip(1);
        let parsed: Option<(ReqView, Seq<u8>)> = if tag == 1 {
            match sd_opt_string(rest) {
                None => None,
                Some((newsound, r2)) => Some((ReqView::ChangeGeneralSound { newsound }, r2)),
            }
        } else if tag == 2 {
            match sd_opt_u64(rest) {
                None => None,
                Some((poll, r2)) => match sd_opt_u32(r2) {
                    None => None,
                    Some((tpfc, r3)) => match sd_opt_u32(r3) {
                        None => None,
                        Some((tsfc, r4)) => Some(
                            (ReqView::ChangePollFrequency { poll, tpfc, tsfc }, r4),
                        ),
                    },
                },
            }
        } else if tag == 3 {
            match sd_opt_bool(rest) {
                None => None,
                Some((noti, r2)) => Some((ReqView::SetNotify { noti }, r2)),
            }
        } else if tag == 4 {
            match sd_opt_string(rest) {
                None => None,
                Some((newname, r2)) => Some((ReqView::ChangeAppName { newname }, r2)),
            }
        } else if tag == 5 {
            Some((ReqView::KillSwitch, rest))
        } else if tag == 6 {
            match sd_opt_u32(rest) {
                None => None,
                Some((git, r2)) => Some((ReqView::FetchGeneralInfo { git }, r2)),
            }
        } else if tag == 7 {
            Some((ReqView::FetchAlarms, rest))
        } else if tag == 8 {
            match sd_opt_alarm(rest) {
                None => None,
                Some((al, r2)) => Some((ReqView::NewAlarm { al }, r2)),
            }
        } else if tag == 9 {
            match sd_opt_alarm(rest) {
                None => None,
                Some((al, r2)) => Some((ReqView::RemoveAlarm { al }, r2)),
            }
        } else {
            None
        };
        match parsed {
            None => None,
            Some((r, leftover)) => if leftover.len() == 0 {
                Some(r)
            } else {
                None
            },
        }
    }
}

/// Law: decoding undoes encoding — every request that fits on the wire
/// comes back from its own encoding unchanged.
pub proof fn lemma_rt_request(r: ReqView)
    requires
        req_fits(r),
    ensures
        spec_decode_request(spec_encode_request(r)) == Some(r),
{
    let b = spec_encode_request(r);
    let body = se_req_body(r);
    assert(b.skip(1) =~= body);
    assert(body =~= body + Seq::<u8>::empty());
    match r {
        ReqView::ChangeGeneralSound { newsound } => {
            lemma_rt_opt_string(newsound, Seq::empty());
        },
        ReqView::ChangePollFrequency { poll, tpfc, tsfc } => {
            let r3 = se_opt_u32(tsfc) + Seq::<u8>::empty();
            let r2 = se_opt_u32(tpfc) + r3;
            assert(body + Seq::<u8>::empty() =~= se_opt_u64(poll) + r2);
            lemma_rt_opt_u64(poll, r2);
            lemma_rt_opt_u32(tpfc, r3);
            lemma_rt_opt_u32(tsfc, Seq::empty());
        },
        ReqView::SetNotify { noti } => {
            lemma_rt_opt_bool(noti, Seq::empty());
        },
        ReqView::ChangeAppName { newname } => {
            lemma_rt_opt_string(newname, Seq::empty());
        },
        ReqView::KillSwitch => {},
        ReqView::FetchGeneralInfo { git } => {
            lemma_rt_opt_u32(git, Seq::empty());
        },
        ReqView::FetchAlarms => {},
        ReqView::NewAlarm { al } => {
            lemma_rt_opt_alarm(al, Seq::empty());
        },
        ReqView::RemoveAlarm { al } => {
            lemma_rt_opt_alarm(al, Seq::empty());
        },
    }
}

/// Wire numbers of the error reasons.
pub open spec fn reason_tag(e: ErrorReason) -> u8 {
    match e {
        ErrorReason::ParseFailureError => 1u8,
        ErrorReason::MissingRequiredComponent => 2u8,
        ErrorReason::IllegalEnumOption => 3u8,
        ErrorReason::InternalServerError => 4u8,
    }
}

pub open spec fn sd_reason(b: Seq<u8>) -> Option<(ErrorReason, Seq<u8>)> {
    if b.len() >= 1 {
        let rest = b.skip(1);
        if b[0] == 1 {
            Some((ErrorReason::ParseFailureError, rest))
        } else if b[0] == 2 {
            Some((ErrorReason::MissingRequiredComponent, rest))
        } else if b[0] == 3 {
            Some((ErrorReason::IllegalEnumOption, rest))
        } else if b[0] == 4 {
            Some((ErrorReason::InternalServerError, rest))
        } else {
            None
        }
    } else {
        None
    }
}

pub open spec fn data_fits(d: DataView) -> bool {
    match d {
        DataView::St(s) => encode_utf8(s).len() <= u64::MAX,
        _ => true,
    }
}

pub open spec fn se_data(d: DataView) -> Seq<u8> {
    match d {
        DataView::St(s) => seq![1u8] + se_string(s),
        DataView::Ui(x) => seq![2u8] + se_u64(x),
        DataView::Sui(x) => seq![3u8] + se_u32(x),
        DataView::Bl(v) => seq![4u8] + se_bool(v),
    }
}

pub open spec fn sd_data(b: Seq<u8>) -> Option<(DataView, Seq<u8>)> {
    if b.len() < 1 {
        None
    } else {
        let rest = b.skip(1);
        if b[0] == 1 {
            match sd_string(rest) {
                None => None,
                Some((s, r2)) => Some((DataView::St(s), r2)),
            }
        } else if b[0] == 2 {
            match sd_u64(rest) {
                None => None,
                Some((x, r2)) => Some((DataView::Ui(x), r2)),
            }
        } else if b[0] == 3 {
            match sd_u32(rest) {
                None => None,
                Some((x, r2)) => Some((DataView::Sui(x), r2)),
            }
        } else if b[0] == 4 {
            match sd_bool(rest) {
                None => None,
                Some((v, r2)) => Some((DataView::Bl(v), r2)),
            }
        } else {
            None
        }
    }
}

pub open spec fn resp_fits(r: RespView) -> bool {
    match r {
        RespView::Success => true,
        RespView::SuccessWithData { dat } => data_fits(dat),
        RespView::SuccessWithAlarms { als } => alarms_fit(als),
        RespView::Error { .. } => true,
    }
}

pub open spec fn resp_tag(r: RespView) -> u8 {
    match r {
        RespView::Success => 1u8,
        RespView::SuccessWithData { .. } => 2u8,
        RespView::SuccessWithAlarms { .. } => 3u8,
        RespView::Error { .. } => 4u8,
    }
}

pub open spec fn se_resp_body(r: RespView) -> Seq<u8> {
    match r {
        RespView::Success => Seq::empty(),
        RespView::SuccessWithData { dat } => se_data(dat),
        RespView::SuccessWithAlarms { als } => se_alarm_vec(als),
        RespView::Error { reason } => seq![reason_tag(reason)],
    }
}

/// A whole encoded response.
pub open spec fn spec_encode_response(r: RespView) -> Seq<u8> {
    seq![resp_tag(r)] + se_resp_body(r)
}

/// What decoding yields from a whole buffer: the response whose encoding
/// the buffer is, when it is one.
pub open spec fn spec_decode_response(b: Seq<u8>) -> Option<RespView> {
    if b.len() < 1 {
        None
    } else {
        let tag = b[0];
        let rest = b.skip(1);
        let parsed: Option<(RespView, Seq<u8>)> = if tag == 1 {
            Some((RespView::Success, rest))
        } else if tag == 2 {
            match sd_data(rest) {
                None => None,
                Some((dat, r2)) => Some((RespView::SuccessWithData { dat }, r2)),
            }
        } else if tag == 3 {
            match sd_alarm_vec(rest) {
                None => None,
                Some((als, r2)) => Some((RespView::SuccessWithAlarms { als }, r2)),
            }
        } else if tag == 4 {
            match sd_reason(rest) {
                None => None,
                Some((reason, r2)) => Some((RespView::Error { reason }, r2)),
            }
        } else {
            None
        };
        match parsed {
            None => None,
            Some((r, leftover)) => if leftover.len() == 0 {
                Some(r)
            } else {
                None
            },
        }
    }
}

/// Law: decoding undoes encoding, for responses.
pub proof fn lemma_rt_response(r: RespView)
    requires
        resp_fits(r),
    ensures
        spec_decode_response(spec_encode_response(r)) == Some(r),
{
    let b = spec_encode_response(r);
    let body = se_resp_body(r);
    assert(b.skip(1) =~= body);
    assert(body =~= body + Seq::<u8>::empty());
    match r {
        RespView::Success => {},
        RespView::SuccessWithData { dat } => {
            match dat {
                DataView::St(s) => {
                    assert(body.skip(1) =~= se_string(s) + Seq::<u8>::empty());
                    lemma_rt_string(s, Seq::empty());
                },
                DataView::Ui(x) => {
                    assert(body.skip(1) =~= se_u64(x) + Seq::<u8>::empty());
                    lemma_rt_u64(x, Seq::empty());
                },
                DataView::Sui(x) => {
                    assert(body.skip(1) =~= se_u32(x) + Seq::<u8>::empty());
                    lemma_rt_u32(x, Seq::empty());
                },
                DataView::Bl(v) => {
                    assert(body.skip(1) =~= se_bool(v) + Seq::<u8>::empty());
                    lemma_rt_bool(v, Seq::empty());
                },
            }
        },
        RespView::SuccessWithAlarms { als } => {
            lemma_rt_alarm_vec(als, Seq::empty());
        },
        RespView::Error { reason } => {
            assert(body.skip(1) =~= Seq::<u8>::empty());
        },
    }
}

// ---------------------------------------------------------------------------
// The encoder.
// ---------------------------------------------------------------------------

fn push_u32(out: &mut Vec<u8>, x: u32)
    ensures
        final(out)@ == old(out)@ + se_u32(x),
{
    out.push((x % 256) as u8);
    out.push((x / 0x100 % 256) as u8);
    out.push((x / 0x10000 % 256) as u8);
    out.push((x / 0x1000000 % 256) as u8);
    proof {
        reveal(se_u32);
        assert(out@ =~= old(out)@ + se_u32(x));
    }
}

fn push_u64(out: &mut Vec<u8>, x: u64)
    ensures
        final(out)@ == old(out)@ + se_u64(x),
{
    out.push((x % 256) as u8);
    out.push((x / 0x100 % 256) as u8);
    out.push((x / 0x10000 % 256) as u8);
    out.push((x / 0x1000000 % 256) as u8);
    out.push((x / 0x100000000 % 256) as u8);
    out.push((x / 0x10000000000 % 256) as u8);
    out.push((x / 0x1000000000000 % 256) as u8);
    out.push((x / 0x100000000000000 % 256) as u8);
    proof {
        reveal(se_u64);
        assert(out@ =~= old(out)@ + se_u64(x));
    }
}

fn push_bool(out: &mut Vec<u8>, v: bool)
    ensures
        final(out)@ == old(out)@ + se_bool(v),
{
    if v {
        out.push(1u8);
    } else {
        out.push(0u8);
    }
    proof {
        assert(out@ =~= old(out)@ + se_bool(v));
    }
}

fn push_bytes(out: &mut Vec<u8>, b: &[u8])
    ensures
        final(out)@ == old(out)@ + b@,
{
    let mut k: usize = 0;
    while k < b.len()
        invariant
            k <= b@.len(),
            out@ == old(out)@ + b@.take(k as int),
        decreases b@.len() - k,
    {
        out.push(b[k]);
        proof {
            assert(old(out)@ + b@.take(k as int) + seq![b@[k as int]] =~= old(out)@ + b@.take(
                k as int + 1,
            ));
        }
        k += 1;
    }
    proof {
        assert(b@.take(k as int) =~= b@);
    }
}

fn push_string(out: &mut Vec<u8>, s: &str)
    ensures
        final(out)@ == old(out)@ + se_string(s@),
{
    let bs = s.as_bytes();
    push_u64(out, bs.len() as u64);
    push_bytes(out, bs);
    proof {
        assert(out@ =~= old(out)@ + se_string(s@));
    }
}

fn push_opt_string(out: &mut Vec<u8>, o: &Option<String>)
    ensures
        final(out)@ == old(out)@ + se_opt_string(o.deep_view()),
{
    match o {
        None => {
            push_bool(out, false);
        },
        Some(s) => {
            push_bool(out, true);
            push_string(out, s.as_str());
            proof {
                assert(out@ =~= old(out)@ + se_opt_string(o.deep_view()));
            }
        },
    }
}

fn push_opt_u32(out: &mut Vec<u8>, o: &Option<u32>)
    ensures
        final(out)@ == old(out)@ + se_opt_u32(*o),
{
    match o {
        None => {
            push_bool(out, false);
        },
        Some(x) => {
            push_bool(out, true);
            push_u32(out, *x);
            proof {
                assert(out@ =~= old(out)@ + se_opt_u32(*o));
            }
        },
    }
}

fn push_opt_u64(out: &mut Vec<u8>, o: &Option<u64>)
    ensures
        final(out)@ == old(out)@ + se_opt_u64(*o),
{
    match o {
        None => {
            push_bool(out, false);
        },
        Some(x) => {
            push_bool(out, true);
            push_u64(out, *x);
            proof {
                assert(out@ =~= old(out)@ + se_opt_u64(*o));
            }
        },
    }
}

fn push_opt_bool(out: &mut Vec<u8>, o: &Option<bool>)
    ensures
        final(out)@ == old(out)@ + se_opt_bool(*o),
{
    match o {
        None => {
            push_bool(out, false);
        },
        Some(v) => {
            push_bool(out, true);
            push_bool(out, *v);
            proof {
                assert(out@ =~= old(out)@ + se_opt_bool(*o));
            }
        },
    }
}

proof fn lemma_se_string_elems_snoc(v: Seq<Seq<char>>, s: Seq<char>)
    ensures
        se_string_elems(v.push(s)) == se_string_elems(v) + se_string(s),
    decreases v.len(),
{
    if v.len() == 0 {
        reveal_with_fuel(se_string_elems, 3);
        assert(v.push(s).drop_first() =~= Seq::<Seq<char>>::empty());
        assert(v.push(s)[0] == s);
        assert(se_string_elems(v.push(s)) =~= se_string_elems(v) + se_string(s));
    } else {
        assert(v.push(s)[0] == v[0]);
        assert(v.push(s).drop_first() =~= v.drop_first().push(s));
        lemma_se_string_elems_snoc(v.drop_first(), s);
        assert(se_string_elems(v.push(s)) == se_string(v[0]) + se_string_elems(
            v.drop_first().push(s),
        ));
        assert(se_string_elems(v) == se_string(v[0]) + se_string_elems(v.drop_first()));
        assert(se_string_elems(v.push(s)) =~= se_string_elems(v) + se_string(s));
    }
}

fn push_string_vec(out: &mut Vec<u8>, v: &Vec<String>)
    ensures
        final(out)@ == old(out)@ + se_string_vec(v.deep_view()),
{
    push_u64(out, v.len() as u64);
    proof {
        assert(v.deep_view().len() == v@.len());
        assert(v.deep_view().take(0) =~= Seq::<Seq<char>>::empty());
    }
    let mut k: usize = 0;
    while k < v.len()
        invariant
            k <= v@.len(),
            v.deep_view().len() == v@.len(),
            out@ == old(out)@ + se_u64(v@.len() as u64) + se_string_elems(v.deep_view().take(
                k as int,
            )),
        decreases v@.len() - k,
    {
        push_string(out, v[k].as_str());
        proof {
            assert(v.deep_view()[k as int] == v@[k as int]@);
            lemma_se_string_elems_snoc(v.deep_view().take(k as int), v@[k as int]@);
            assert(v.deep_view().take(k as int).push(v@[k as int]@) =~= v.deep_view().take(
                k as int + 1,
            ));
            assert(out@ =~= old(out)@ + se_u64(v@.len() as u64) + se_string_elems(
                v.deep_view().take(k as int + 1),
            ));
        }
        k += 1;
    }
    proof {
        assert(v.deep_view().take(k as int) =~= v.deep_view());
        assert(out@ =~= old(out)@ + se_string_vec(v.deep_view()));
    }
}

fn push_alarm(out: &mut Vec<u8>, a: &AlarmInfo)
    ensures
        final(out)@ == old(out)@ + se_alarm(a@),
{
    push_opt_string(out, &a.title);
    push_opt_string(out, &a.desc);
    push_opt_u32(out, &a.time);
    push_string_vec(out, &a.repeat);
    push_opt_string(out, &a.sound);
    push_opt_string(out, &a.icon);
    proof {
        assert(out@ =~= old(out)@ + se_alarm(a@));
    }
}

fn push_opt_alarm(out: &mut Vec<u8>, o: &Option<AlarmInfo>)
    ensures
        final(out)@ == old(out)@ + se_opt_alarm(match o {
            None => None,
            Some(a) => Some(a@),
        }),
{
    match o {
        None => {
            push_bool(out, false);
        },
        Some(a) => {
            push_bool(out, true);
            push_alarm(out, a);
            proof {
                assert(out@ =~= old(out)@ + se_opt_alarm(Some(a@)));
            }
        },
    }
}

proof fn lemma_se_alarm_elems_snoc(v: Seq<AlarmInfoView>, a: AlarmInfoView)
    ensures
        se_alarm_elems(v.push(a)) == se_alarm_elems(v) + se_alarm(a),
    decreases v.len(),
{
    if v.len() == 0 {
        reveal_with_fuel(se_alarm_elems, 3);
        assert(v.push(a).drop_first() =~= Seq::<AlarmInfoView>::empty());
        assert(v.push(a)[0] == a);
        assert(se_alarm_elems(v.push(a)) =~= se_alarm_elems(v) + se_alarm(a));
    } else {
        assert(v.push(a)[0] == v[0]);
        assert(v.push(a).drop_first() =~= v.drop_first().push(a));
        lemma_se_alarm_elems_snoc(v.drop_first(), a);
        assert(se_alarm_elems(v.push(a)) == se_alarm(v[0]) + se_alarm_elems(
            v.drop_first().push(a),
        ));
        assert(se_alarm_elems(v) == se_alarm(v[0]) + se_alarm_elems(v.drop_first()));
        assert(se_alarm_elems(v.push(a)) =~= se_alarm_elems(v) + se_alarm(a));
    }
}

fn push_alarm_vec(out: &mut Vec<u8>, v: &Vec<AlarmInfo>)
    ensures
        final(out)@ == old(out)@ + se_alarm_vec(v.deep_view()),
{
    push_u64(out, v.len() as u64);
    proof {
        assert(v.deep_view().len() == v@.len());
        assert(v.deep_view().take(0) =~= Seq::<AlarmInfoView>::empty());
    }
    let mut k: usize = 0;
    while k < v.len()
        invariant
            k <= v@.len(),
            v.deep_view().len() == v@.len(),
            out@ == old(out)@ + se_u64(v@.len() as u64) + se_alarm_elems(v.deep_view().take(
                k as int,
            )),
        decreases v@.len() - k,
    {
        push_alarm(out, &v[k]);
        proof {
            assert(v.deep_view()[k as int] == v@[k as int]@);
            lemma_se_alarm_elems_snoc(v.deep_view().take(k as int), v@[k as int]@);
            assert(v.deep_view().take(k as int).push(v@[k as int]@) =~= v.deep_view().take(
                k as int + 1,
            ));
            assert(out@ =~= old(out)@ + se_u64(v@.len() as u64) + se_alarm_elems(
                v.deep_view().take(k as int + 1),
            ));
        }
        k += 1;
    }
    proof {
        assert(v.deep_view().take(k as int) =~= v.deep_view());
        assert(out@ =~= old(out)@ + se_alarm_vec(v.deep_view()));
    }
}

/// Encodes one request as one whole message.
pub fn encode_request(r: &Request) -> (out: Vec<u8>)
    ensures
        out@ == spec_encode_request(r@),
{
    let mut out: Vec<u8> = Vec::new();
    match r {
        Request::ChangeGeneralSound { newsound } => {
            out.push(1u8);
            push_opt_string(&mut out, newsound);
        },
        Request::ChangePollFrequency { poll, tpfc, tsfc } => {
            out.push(2u8);
            push_opt_u64(&mut out, poll);
            push_opt_u32(&mut out, tpfc);
            push_opt_u32(&mut out, tsfc);
        },
        Request::SetNotify { noti } => {
            out.push(3u8);
            push_opt_bool(&mut out, noti);
        },
        Request::ChangeAppName { newname } => {
            out.push(4u8);
            push_opt_string(&mut out, newname);
        },
        Request::KillSwitch => {
            out.push(5u8);
        },
        Request::FetchGeneralInfo { git } => {
            out.push(6u8);
            push_opt_u32(&mut out, git);
        },
        Request::FetchAlarms => {
            out.push(7u8);
        },
        Request::NewAlarm { al } => {
            out.push(8u8);
            push_opt_alarm(&mut out, al);
        },
        Request::RemoveAlarm { al } => {
            out.push(9u8);
            push_opt_alarm(&mut out, al);
        },
    }
    proof {
        assert(out@ =~= spec_encode_request(r@));
    }
    out
}

/// Encodes one response as one whole message.
pub fn encode_response(r: &Response) -> (out: Vec<u8>)
    ensures
        out@ == spec_encode_response(r@),
{
    let mut out: Vec<u8> = Vec::new();
    match r {
        Response::Success => {
            out.push(1u8);
        },
        Response::SuccessWithData { dat } => {
            out.push(2u8);
            match dat {
                DataValue::St(s) => {
                    out.push(1u8);
                    push_string(&mut out, s.as_str());
                },
                DataValue::Ui(x) => {
                    out.push(2u8);
                    push_u64(&mut out, *x);
                },
                DataValue::Sui(x) => {
                    out.push(3u8);
                    push_u32(&mut out, *x);
                },
                DataValue::Bl(v) => {
                    out.push(4u8);
                    push_bool(&mut out, *v);
                },
            }
        },
        Response::SuccessWithAlarms { als } => {
            out.push(3u8);
            push_alarm_vec(&mut out, als);
        },
        Response::Error { reason } => {
            out.push(4u8);
            match reason {
                ErrorReason::ParseFailureError => out.push(1u8),
                ErrorReason::MissingRequiredComponent => out.push(2u8),
                ErrorReason::IllegalEnumOption => out.push(3u8),
                ErrorReason::InternalServerError => out.push(4u8),
            }
        },
    }
    proof {
        assert(out@ =~= spec_encode_response(r@));
    }
    out
}

// ---------------------------------------------------------------------------
// The decoder. Each reader consumes from a cursor into the buffer and
// mirrors its spec-level counterpart exactly; on failure the cursor is left
// where it was.
// ---------------------------------------------------------------------------

/// Relies on String::from_utf8: it succeeds exactly on valid UTF-8 input
/// and returns the string holding those very bytes.
#[verifier::external_body]
pub(crate) fn bytes_to_string(v: Vec<u8>) -> (r: Option<String>)
    ensures
        r is Some <==> valid_utf8(v@),
        r matches Some(s) ==> encode_utf8(s@) == v@,
{
    match String::from_utf8(v) {
        Ok(s) => Some(s),
        Err(_) => None,
    }
}

fn copy_range(b: &Vec<u8>, start: usize, n: usize) -> (r: Vec<u8>)
    requires
        start + n <= b@.len(),
    ensures
        r@ == b@.subrange(start as int, start as int + n as int),
{
    let mut r: Vec<u8> = Vec::new();
    let blen: usize = b.len();
    let mut k: usize = 0;
    while k < n
        invariant
            k <= n,
            blen == b@.len(),
            start + n <= blen,
            r@ == b@.subrange(start as int, start as int + k as int),
        decreases n - k,
    {
        r.push(b[start + k]);
        proof {
            assert(r@ =~= b@.subrange(start as int, start as int + (k + 1) as int));
        }
        k += 1;
    }
    r
}

fn rd_u32(b: &Vec<u8>, i: &mut usize) -> (r: Option<u32>)
    requires
        *old(i) <= b@.len(),
    ensures
        *final(i) <= b@.len(),
        match r {
            Some(x) => *old(i) <= *final(i) && sd_u32(b@.skip(*old(i) as int)) == Some(
                (x, b@.skip(*final(i) as int)),
            ),
            None => *final(i) == *old(i) && sd_u32(b@.skip(*old(i) as int)) is None,
        },
{
    proof {
        reveal(sd_u32);
    }
    if b.len() - *i < 4 {
        return None;
    }
    let ghost s = b@.skip(*i as int);
    let x0 = b[*i] as u32;
    let x1 = b[*i + 1] as u32;
    let x2 = b[*i + 2] as u32;
    let x3 = b[*i + 3] as u32;
    let x = x0 + x1 * 0x100 + x2 * 0x10000 + x3 * 0x1000000;
    proof {
        assert(s[0] == b@[*i as int] && s[1] == b@[*i + 1] && s[2] == b@[*i + 2] && s[3] == b@[*i
            + 3]);
        assert(s.skip(4) =~= b@.skip(*i + 4));
    }
    *i = *i + 4;
    Some(x)
}

fn rd_u64(b: &Vec<u8>, i: &mut usize) -> (r: Option<u64>)
    requires
        *old(i) <= b@.len(),
    ensures
        *final(i) <= b@.len(),
        match r {
            Some(x) => *old(i) <= *final(i) && sd_u64(b@.skip(*old(i) as int)) == Some(
                (x, b@.skip(*final(i) as int)),
            ),
            None => *final(i) == *old(i) && sd_u64(b@.skip(*old(i) as int)) is None,
        },
{
    proof {
        reveal(sd_u64);
    }
    if b.len() - *i < 8 {
        return None;
    }
    let ghost s = b@.skip(*i as int);
    let x0 = b[*i] as u64;
    let x1 = b[*i + 1] as u64;
    let x2 = b[*i + 2] as u64;
    let x3 = b[*i + 3] as u64;
    let x4 = b[*i + 4] as u64;
    let x5 = b[*i + 5] as u64;
    let x6 = b[*i + 6] as u64;
    let x7 = b[*i + 7] as u64;
    let x = x0 + x1 * 0x100 + x2 * 0x10000 + x3 * 0x1000000 + x4 * 0x100000000 + x5 * 0x10000000000
        + x6 * 0x1000000000000 + x7 * 0x100000000000000;
    proof {
        assert(s[0] == b@[*i as int] && s[1] == b@[*i + 1] && s[2] == b@[*i + 2] && s[3] == b@[*i
            + 3] && s[4] == b@[*i + 4] && s[5] == b@[*i + 5] && s[6] == b@[*i + 6] && s[7] == b@[*i
            + 7]);
        assert(s.skip(8) =~= b@.skip(*i + 8));
    }
    *i = *i + 8;
    Some(x)
}

fn rd_bool(b: &Vec<u8>, i: &mut usize) -> (r: Option<bool>)
    requires
        *old(i) <= b@.len(),
    ensures
        *final(i) <= b@.len(),
        match r {
            Some(v) => *old(i) <= *final(i) && sd_bool(b@.skip(*old(i) as int)) == Some(
                (v, b@.skip(*final(i) as int)),
            ),
            None => *final(i) == *old(i) && sd_bool(b@.skip(*old(i) as int)) is None,
        },
{
    if b.len() - *i < 1 {
        return None;
    }
    let ghost s = b@.skip(*i as int);
    proof {
        assert(s[0] == b@[*i as int]);
        assert(s.skip(1) =~= b@.skip(*i + 1));
    }
    let v = b[*i];
    if v == 0 {
        *i = *i + 1;
        Some(false)
    } else if v == 1 {
        *i = *i + 1;
        Some(true)
    } else {
        None
    }
}

fn rd_string(b: &Vec<u8>, i: &mut usize) -> (r: Option<String>)
    requires
        *old(i) <= b@.len(),
    ensures
        *final(i) <= b@.len(),
        match r {
            Some(s) => *old(i) <= *final(i) && sd_string(b@.skip(*old(i) as int)) == Some(
                (s@, b@.skip(*final(i) as int)),
            ),
            None => *final(i) == *old(i) && sd_string(b@.skip(*old(i) as int)) is None,
        },
{
    broadcast use vstd::utf8::encode_utf8_decode_utf8;

    let i0 = *i;
    let n = match rd_u64(b, i) {
        None => {
            return None;
        },
        Some(n) => n,
    };
    let ghost rest = b@.skip(*i as int);
    if n > (b.len() - *i) as u64 {
        *i = i0;
        return None;
    }
    let nn = n as usize;
    let sub = copy_range(b, *i, nn);
    proof {
        assert(rest.take(n as int) =~= sub@);
        assert(rest.skip(n as int) =~= b@.skip(*i + n as int));
    }
    match bytes_to_string(sub) {
        None => {
            *i = i0;
            None
        },
        Some(s) => {
            *i = *i + nn;
            proof {
                assert(decode_utf8(rest.take(n as int)) == s@);
            }
            Some(s)
        },
    }
}

fn rd_opt_string(b: &Vec<u8>, i: &mut usize) -> (r: Option<Option<String>>)
    requires
        *old(i) <= b@.len(),
    ensures
        *final(i) <= b@.len(),
        match r {
            Some(o) => *old(i) <= *final(i) && sd_opt_string(b@.skip(*old(i) as int)) == Some(
                (o.deep_view(), b@.skip(*final(i) as int)),
            ),
            None => *final(i) == *old(i) && sd_opt_string(b@.skip(*old(i) as int)) is None,
        },
{
    let i0 = *i;
    match rd_bool(b, i) {
        None => None,
        Some(false) => Some(None),
        Some(true) => match rd_string(b, i) {
            None => {
                *i = i0;
                None
            },
            Some(s) => Some(Some(s)),
        },
    }
}

fn rd_opt_u32(b: &Vec<u8>, i: &mut usize) -> (r: Option<Option<u32>>)
    requires
        *old(i) <= b@.len(),
    ensures
        *final(i) <= b@.len(),
        match r {
            Some(o) => *old(i) <= *final(i) && sd_opt_u32(b@.skip(*old(i) as int)) == Some(
                (o, b@.skip(*final(i) as int)),
            ),
            None => *final(i) == *old(i) && sd_opt_u32(b@.skip(*old(i) as int)) is None,
        },
{
    let i0 = *i;
    match rd_bool(b, i) {
        None => None,
        Some(false) => Some(None),
        Some(true) => match rd_u32(b, i) {
            None => {
                *i = i0;
                None
            },
            Some(x) => Some(Some(x)),
        },
    }
}

fn rd_opt_u64(b: &Vec<u8>, i: &mut usize) -> (r: Option<Option<u64>>)
    requires
        *old(i) <= b@.len(),
    ensures
        *final(i) <= b@.len(),
        match r {
            Some(o) => *old(i) <= *final(i) && sd_opt_u64(b@.skip(*old(i) as int)) == Some(
                (o, b@.skip(*final(i) as int)),
            ),
            None => *final(i) == *old(i) && sd_opt_u64(b@.skip(*old(i) as int)) is None,
        },
{
    let i0 = *i;
    match rd_bool(b, i) {
        None => None,
        Some(false) => Some(None),
        Some(true) => match rd_u64(b, i) {
            None => {
                *i = i0;
                None
            },
            Some(x) => Some(Some(x)),
        },
    }
}

fn rd_string_vec(b: &Vec<u8>, i: &mut usize) -> (r: Option<Vec<String>>)
    requires
        *old(i) <= b@.len(),
    ensures
        *final(i) <= b@.len(),
        match r {
            Some(v) => *old(i) <= *final(i) && sd_string_vec(b@.skip(*old(i) as int)) == Some(
                (v.deep_view(), b@.skip(*final(i) as int)),
            ),
            None => *final(i) == *old(i) && sd_string_vec(b@.skip(*old(i) as int)) is None,
        },
{
    let i0 = *i;
    let n = match rd_u64(b, i) {
        None => {
            return None;
        },
        Some(n) => n,
    };
    let mut acc: Vec<String> = Vec::new();
    let mut k: u64 = 0;
    proof {
        assert(acc.deep_view() =~= Seq::<Seq<char>>::empty());
    }
    while k < n
        invariant
            k <= n,
            *i <= b@.len(),
            i0 == *old(i),
            i0 <= *i,
            acc.deep_view().len() == k as int,
            (match sd_string_elems(b@.skip(*i as int), n as int - k as int) {
                None => sd_string_vec(b@.skip(i0 as int)) is None,
                Some((v, rest)) => sd_string_vec(b@.skip(i0 as int)) == Some(
                    (acc.deep_view() + v, rest),
                ),
            }),
        decreases n - k,
    {
        let ghost acc_pre = acc.deep_view();
        let ghost cur = *i as int;
        match rd_string(b, i) {
            None => {
                *i = i0;
                return None;
            },
            Some(s) => {
                acc.push(s);
                proof {
                    assert(acc.deep_view() =~= acc_pre.push(s@));
                    if let Some((v, rest)) = sd_string_elems(b@.skip(*i as int), n as int - k as int
                        - 1) {
                        assert(acc_pre + (seq![s@] + v) =~= acc_pre.push(s@) + v);
                    }
                }
            },
        }
        k += 1;
    }
    proof {
        assert(sd_string_elems(b@.skip(*i as int), 0) == Some(
            (Seq::<Seq<char>>::empty(), b@.skip(*i as int)),
        ));
        assert(acc.deep_view() + Seq::<Seq<char>>::empty() =~= acc.deep_view());
    }
    Some(acc)
}

fn rd_alarm(b: &Vec<u8>, i: &mut usize) -> (r: Option<AlarmInfo>)
    requires
        *old(i) <= b@.len(),
    ensures
        *final(i) <= b@.len(),
        match r {
            Some(a) => *old(i) <= *final(i) && sd_alarm(b@.skip(*old(i) as int)) == Some(
                (a@, b@.skip(*final(i) as int)),
            ),
            None => *final(i) == *old(i) && sd_alarm(b@.skip(*old(i) as int)) is None,
        },
{
    let i0 = *i;
    let title = match rd_opt_string(b, i) {
        None => {
            return None;
        },
        Some(v) => v,
    };
    let desc = match rd_opt_string(b, i) {
        None => {
            *i = i0;
            return None;
        },
        Some(v) => v,
    };
    let time = match rd_opt_u32(b, i) {
        None => {
            *i = i0;
            return None;
        },
        Some(v) => v,
    };
    let repeat = match rd_string_vec(b, i) {
        None => {
            *i = i0;
            return None;
        },
        Some(v) => v,
    };
    let sound = match rd_opt_string(b, i) {
        None => {
            *i = i0;
            return None;
        },
        Some(v) => v,
    };
    let icon = match rd_opt_string(b, i) {
        None => {
            *i = i0;
            return None;
        },
        Some(v) => v,
    };
    Some(AlarmInfo { title, desc, time, repeat, sound, icon })
}

fn rd_opt_alarm(b: &Vec<u8>, i: &mut usize) -> (r: Option<Option<AlarmInfo>>)
    requires
        *old(i) <= b@.len(),
    ensures
        *final(i) <= b@.len(),
        match r {
            Some(o) => *old(i) <= *final(i) && sd_opt_alarm(b@.skip(*old(i) as int)) == Some(
                (
                    match o {
                        None => None,
                        Some(a) => Some(a@),
                    },
                    b@.skip(*final(i) as int),
                ),
            ),
            None => *final(i) == *old(i) && sd_opt_alarm(b@.skip(*old(i) as int)) is None,
        },
{
    let i0 = *i;
    match rd_bool(b, i) {
        None => None,
        Some(false) => Some(None),
        Some(true) => match rd_alarm(b, i) {
            None => {
                *i = i0;
                None
            },
            Some(a) => Some(Some(a)),
        },
    }
}

fn rd_alarm_vec(b: &Vec<u8>, i: &mut usize) -> (r: Option<Vec<AlarmInfo>>)
    requires
        *old(i) <= b@.len(),
    ensures
        *final(i) <= b@.len(),
        match r {
            Some(v) => *old(i) <= *final(i) && sd_alarm_vec(b@.skip(*old(i) as int)) == Some(
                (v.deep_view(), b@.skip(*final(i) as int)),
            ),
            None => *final(i) == *old(i) && sd_alarm_vec(b@.skip(*old(i) as int)) is None,
        },
{
    let i0 = *i;
    let n = match rd_u64(b, i) {
        None => {
            return None;
        },
        Some(n) => n,
    };
    let mut acc: Vec<AlarmInfo> = Vec::new();
    let mut k: u64 = 0;
    proof {
        assert(acc.deep_view() =~= Seq::<AlarmInfoView>::empty());
    }
    while k < n
        invariant
            k <= n,
            *i <= b@.len(),
            i0 == *old(i),
            i0 <= *i,
            acc.deep_view().len() == k as int,
            (match sd_alarm_elems(b@.skip(*i as int), n as int - k as int) {
                None => sd_alarm_vec(b@.skip(i0 as int)) is None,
                Some((v, rest)) => sd_alarm_vec(b@.skip(i0 as int)) == Some(
                    (acc.deep_view() + v, rest),
                ),
            }),
        decreases n - k,
    {
        let ghost acc_pre = acc.deep_view();
        match rd_alarm(b, i) {
            None => {
                *i = i0;
                return None;
            },
            Some(a) => {
                let ghost av = a@;
                acc.push(a);
                proof {
                    assert(acc.deep_view() =~= acc_pre.push(av));
                    if let Some((v, rest)) = sd_alarm_elems(b@.skip(*i as int), n as int - k as int
                        - 1) {
                        assert(acc_pre + (seq![av] + v) =~= acc_pre.push(av) + v);
                    }
                }
            },
        }
        k += 1;
    }
    proof {
        assert(sd_alarm_elems(b@.skip(*i as int), 0) == Some(
            (Seq::<AlarmInfoView>::empty(), b@.skip(*i as int)),
        ));
        assert(acc.deep_view() + Seq::<AlarmInfoView>::empty() =~= acc.deep_view());
    }
    Some(acc)
}

/// Decodes one whole buffer as one request; anything else than exactly one
/// complete message is refused.
pub fn decode_request(b: &Vec<u8>) -> (r: Option<Request>)
    ensures
        match r {
            Some(req) => spec_decode_request(b@) == Some(req@),
            None => spec_decode_request(b@) is None,
        },
{
    if b.len() < 1 {
        return None;
    }
    let tag = b[0];
    let mut i: usize = 1;
    proof {
        assert(b@[0] == tag);
    }
    let req: Request = if tag == 1 {
        match rd_opt_string(b, &mut i) {
            None => {
                return None;
            },
            Some(newsound) => Request::ChangeGeneralSound { newsound },
        }
    } else if tag == 2 {
        let poll = match rd_opt_u64(b, &mut i) {
            None => {
                return None;
            },
            Some(v) => v,
        };
        let tpfc = match rd_opt_u32(b, &mut i) {
            None => {
                return None;
            },
            Some(v) => v,
        };
        let tsfc = match rd_opt_u32(b, &mut i) {
            None => {
                return None;
            },
            Some(v) => v,
        };
        Request::ChangePollFrequency { poll, tpfc, tsfc }
    } else if tag == 3 {
        match rd_opt_bool(b, &mut i) {
            None => {
                return None;
            },
            Some(noti) => Request::SetNotify { noti },
        }
    } else if tag == 4 {
        match rd_opt_string(b, &mut i) {
            None => {
                return None;
            },
            Some(newname) => Request::ChangeAppName { newname },
        }
    } else if tag == 5 {
        Request::KillSwitch
    } else if tag == 6 {
        match rd_opt_u32(b, &mut i) {
            None => {
                return None;
            },
            Some(git) => Request::FetchGeneralInfo { git },
        }
    } else if tag == 7 {
        Request::FetchAlarms
    } else if tag == 8 {
        match rd_opt_alarm(b, &mut i) {
            None => {
                return None;
            },
            Some(al) => Request::NewAlarm { al },
        }
    } else if tag == 9 {
        match rd_opt_alarm(b, &mut i) {
            None => {
                return None;
            },
            Some(al) => Request::RemoveAlarm { al },
        }
    } else {
        return None;
    };
    if i != b.len() {
        return None;
    }
    proof {
        assert(b@.skip(i as int).len() == 0);
    }
    Some(req)
}

fn rd_data(b: &Vec<u8>, i: &mut usize) -> (r: Option<DataValue>)
    requires
        *old(i) <= b@.len(),
    ensures
        *final(i) <= b@.len(),
        match r {
            Some(d) => *old(i) <= *final(i) && sd_data(b@.skip(*old(i) as int)) == Some(
                (d@, b@.skip(*final(i) as int)),
            ),
            None => *final(i) == *old(i) && sd_data(b@.skip(*old(i) as int)) is None,
        },
{
    let i0 = *i;
    if b.len() - *i < 1 {
        return None;
    }
    let tag = b[*i];
    proof {
        assert(b@.skip(i0 as int)[0] == tag);
        assert(b@.skip(i0 as int).skip(1) =~= b@.skip(i0 + 1));
    }
    *i = *i + 1;
    if tag == 1 {
        match rd_string(b, i) {
            None => {
                *i = i0;
                None
            },
            Some(s) => Some(DataValue::St(s)),
        }
    } else if tag == 2 {
        match rd_u64(b, i) {
            None => {
                *i = i0;
                None
            },
            Some(x) => Some(DataValue::Ui(x)),
        }
    } else if tag == 3 {
        match rd_u32(b, i) {
            None => {
                *i = i0;
                None
            },
            Some(x) => Some(DataValue::Sui(x)),
        }
    } else if tag == 4 {
        match rd_bool(b, i) {
            None => {
                *i = i0;
                None
            },
            Some(v) => Some(DataValue::Bl(v)),
        }
    } else {
        *i = i0;
        None
    }
}

fn rd_reason(b: &Vec<u8>, i: &mut usize) -> (r: Option<ErrorReason>)
    requires
        *old(i) <= b@.len(),
    ensures
        *final(i) <= b@.len(),
        match r {
            Some(e) => *old(i) <= *final(i) && sd_reason(b@.skip(*old(i) as int)) == Some(
                (e, b@.skip(*final(i) as int)),
            ),
            None => *final(i) == *old(i) && sd_reason(b@.skip(*old(i) as int)) is None,
        },
{
    if b.len() - *i < 1 {
        return None;
    }
    let tag = b[*i];
    proof {
        assert(b@.skip(*i as int)[0] == tag);
        assert(b@.skip(*i as int).skip(1) =~= b@.skip(*i + 1));
    }
    if tag == 1 {
        *i = *i + 1;
        Some(ErrorReason::ParseFailureError)
    } else if tag == 2 {
        *i = *i + 1;
        Some(ErrorReason::MissingRequiredComponent)
    } else if tag == 3 {
        *i = *i + 1;
        Some(ErrorReason::IllegalEnumOption)
    } else if tag == 4 {
        *i = *i + 1;
        Some(ErrorReason::InternalServerError)
    } else {
        None
    }
}

/// Decodes one whole buffer as one response; anything else than exactly one
/// complete message is refused.
pub fn decode_response(b: &Vec<u8>) -> (r: Option<Response>)
    ensures
        match r {
            Some(resp) => spec_decode_response(b@) == Some(resp@),
            None => spec_decode_response(b@) is None,
        },
{
    if b.len() < 1 {
        return None;
    }
    let tag = b[0];
    let mut i: usize = 1;
    proof {
        assert(b@[0] == tag);
    }
    let resp: Response = if tag == 1 {
        Response::Success
    } else if tag == 2 {
        match rd_data(b, &mut i) {
            None => {
                return None;
            },
            Some(dat) => Response::SuccessWithData { dat },
        }
    } else if tag == 3 {
        match rd_alarm_vec(b, &mut i) {
            None => {
                return None;
            },
            Some(als) => Response::SuccessWithAlarms { als },
        }
    } else if tag == 4 {
        match rd_reason(b, &mut i) {
            None => {
                return None;
            },
            Some(reason) => Response::Error { reason },
        }
    } else {
        return None;
    };
    if i != b.len() {
        return None;
    }
    proof {
        assert(b@.skip(i as int).len() == 0);
    }
    Some(resp)
}

// ---------------------------------------------------------------------------
// Between stored alarms and wire alarms.
// ---------------------------------------------------------------------------

/// A stored alarm on the wire: the time of day travels as an optional
/// field, and an absent repeat rule travels as the empty list.
pub open spec fn spec_alarm_to_info(a: crate::alarm::AlarmView) -> AlarmInfoView {
    AlarmInfoView {
        title: a.title,
        desc: a.description,
        time: Some(a.time_of_day),
        repeat: match a.repeat {
            None => Seq::empty(),
            Some(r) => r,
        },
        sound: a.sound,
        icon: a.icon,
    }
}

/// A wire alarm as a stored alarm: refused when the mandatory time is
/// absent, or lies outside the day; an empty repeat list becomes an absent
/// rule.
pub open spec fn spec_info_to_alarm(w: AlarmInfoView) -> Result<
    crate::alarm::AlarmView,
    ErrorReason,
> {
    match w.time {
        None => Err(ErrorReason::MissingRequiredComponent),
        Some(t) => if t < 86400 {
            Ok(
                crate::alarm::AlarmView {
                    title: w.title,
                    description: w.desc,
                    time_of_day: t,
                    repeat: if w.repeat.len() == 0 {
                        None
                    } else {
                        Some(w.repeat)
                    },
                    sound: w.sound,
                    icon: w.icon,
                },
            )
        } else {
            Err(ErrorReason::ParseFailureError)
        },
    }
}

/// Law: a stored alarm survives the trip onto the wire and back — its wire
/// form converts back to the very same alarm, for every well-formed alarm,
/// in particular for every time of day in 0..=86399.
pub proof fn lemma_alarm_info_round_trip(a: crate::alarm::AlarmView)
    requires
        crate::alarm::alarm_wf(a),
    ensures
        spec_info_to_alarm(spec_alarm_to_info(a)) == Ok::<crate::alarm::AlarmView, ErrorReason>(a),
{
}

fn clone_str_vec(v: &Vec<String>) -> (r: Vec<String>)
    ensures
        r.deep_view() == v.deep_view(),
{
    let mut r: Vec<String> = Vec::new();
    let mut k: usize = 0;
    proof {
        assert(r.deep_view() =~= v.deep_view().take(0));
    }
    while k < v.len()
        invariant
            k <= v@.len(),
            r.deep_view() == v.deep_view().take(k as int),
        decreases v@.len() - k,
    {
        let ghost r_pre = r.deep_view();
        let c = v[k].clone();
        proof {
            assert(c@ == v@[k as int]@);
        }
        r.push(c);
        proof {
            assert(v.deep_view()[k as int] == v@[k as int]@);
            assert(r.deep_view() =~= r_pre.push(v@[k as int]@));
            assert(r.deep_view() =~= v.deep_view().take(k as int + 1));
        }
        k += 1;
    }
    proof {
        assert(v.deep_view().take(k as int) =~= v.deep_view());
    }
    r
}

/// The wire form of a stored alarm.
pub fn alarm_to_info(a: &AlarmSpec) -> (r: AlarmInfo)
    ensures
        r@ == spec_alarm_to_info(a@),
{
    let repeat: Vec<String> = match &a.repeat {
        None => Vec::new(),
        Some(v) => clone_str_vec(v),
    };
    let r = AlarmInfo {
        title: clone_opt_string(&a.title),
        desc: clone_opt_string(&a.description),
        time: Some(a.time_of_day),
        repeat,
        sound: clone_opt_string(&a.sound),
        icon: clone_opt_string(&a.icon),
    };
    proof {
        assert(r@ =~~= spec_alarm_to_info(a@));
    }
    r
}

/// The stored form of a wire alarm, or the reason it is refused.
pub fn info_to_alarm(w: AlarmInfo) -> (r: Result<AlarmSpec, ErrorReason>)
    ensures
        match r {
            Ok(a) => spec_info_to_alarm(w@) == Ok::<crate::alarm::AlarmView, ErrorReason>(a@),
            Err(e) => spec_info_to_alarm(w@) == Err::<crate::alarm::AlarmView, ErrorReason>(e),
        },
{
    let t = match w.time {
        None => {
            return Err(ErrorReason::MissingRequiredComponent);
        },
        Some(t) => t,
    };
    if t >= 86400 {
        return Err(ErrorReason::ParseFailureError);
    }
    let repeat: Option<Vec<String>> = if w.repeat.len() == 0 {
        None
    } else {
        Some(w.repeat)
    };
    let a = AlarmSpec {
        title: w.title,
        description: w.desc,
        time_of_day: t,
        repeat,
        sound: w.sound,
        icon: w.icon,
    };
    proof {
        assert(a@ =~~= spec_info_to_alarm(w@).unwrap());
    }
    Ok(a)
}

/// Flattens a fallible enum conversion to a plain error message.
pub fn ri_to_rr<T>(i: Result<T, i32>) -> (r: Result<T, &'static str>)
    ensures
        match i {
            Ok(_) => r is Ok && (i matches Ok(v) ==> r matches Ok(w) && w == v),
            Err(_) => r is Err,
        },
{
    if let Ok(z) = i {
        Ok(z)
    } else {
        Err("failed enum conversion")
    }
}

fn rd_opt_bool(b: &Vec<u8>, i: &mut usize) -> (r: Option<Option<bool>>)
    requires
        *old(i) <= b@.len(),
    ensures
        *final(i) <= b@.len(),
        match r {
            Some(o) => *old(i) <= *final(i) && sd_opt_bool(b@.skip(*old(i) as int)) == Some(
                (o, b@.skip(*final(i) as int)),
            ),
            None => *final(i) == *old(i) && sd_opt_bool(b@.skip(*old(i) as int)) is None,
        },
{
    let i0 = *i;
    match rd_bool(b, i) {
        None => None,
        Some(false) => Some(None),
        Some(true) => match rd_bool(b, i) {
            None => {
                *i = i0;
                None
            },
            Some(v) => Some(Some(v)),
        },
    }
}

} // verus!
