//! Content-hash identifiers for alarms: a checksum over the concatenation
//! of an alarm's fields, recomputed from the alarm itself and never stored,
//! used only by the control client to address an alarm in a listing.
//!
//! The identifier string lists the six fields, comma-separated: absent
//! strings contribute nothing, an absent time contributes 0, and the repeat
//! list is written `["Mo", "We"]`, each code in quotes.

use vstd::prelude::*;
use vstd::utf8::encode_utf8;
use crate::codec::{AlarmInfo, AlarmInfoView};

verus! {

/// The decimal digits of a number, most significant first.
pub open spec fn spec_decimal(n: int) -> Seq<char>
    decreases n,
{
    if n < 10 {
        seq![spec_digit(n)]
    } else {
        spec_decimal(n / 10) + seq![spec_digit(n % 10)]
    }
}

/// The character of one decimal digit.
pub open spec fn spec_digit(d: int) -> char {
    if d == 0 {
        '0'
    } else if d == 1 {
        '1'
    } else if d == 2 {
        '2'
    } else if d == 3 {
        '3'
    } else if d == 4 {
        '4'
    } else if d == 5 {
        '5'
    } else if d == 6 {
        '6'
    } else if d == 7 {
        '7'
    } else if d == 8 {
        '8'
    } else {
        '9'
    }
}

/// An optional string's contribution to the identifier: its text, or none.
pub open spec fn spec_opt_text(o: Option<Seq<char>>) -> Seq<char> {
    match o {
        None => Seq::empty(),
        Some(s) => s,
    }
}

/// One repeat code in quotes.
pub open spec fn spec_quoted(s: Seq<char>) -> Seq<char> {
    "\""@ + s + "\""@
}

/// The repeat codes, quoted and comma-separated.
pub open spec fn spec_list_items(v: Seq<Seq<char>>) -> Seq<char>
    decreases v.len(),
{
    if v.len() == 0 {
        Seq::empty()
    } else if v.len() == 1 {
        spec_quoted(v[0])
    } else {
        spec_list_items(v.drop_last()) + ", "@ + spec_quoted(v.last())
    }
}

/// The repeat list in brackets.
pub open spec fn spec_list_fmt(v: Seq<Seq<char>>) -> Seq<char> {
    "["@ + spec_list_items(v) + "]"@
}

/// The identifier string of a wire alarm: its six fields, comma-separated.
pub open spec fn spec_ident_chars(w: AlarmInfoView) -> Seq<char> {
    spec_opt_text(w.title) + ","@ + spec_opt_text(w.desc) + ","@ + spec_decimal(
        match w.time {
            None => 0,
            Some(t) => t as int,
        },
    ) + ","@ + spec_list_fmt(w.repeat) + ","@ + spec_opt_text(w.sound) + ","@ + spec_opt_text(
        w.icon,
    )
}

/// The CRC-32 named: what `crc32fast::hash` returns of a byte sequence, a
/// function of the bytes alone.
pub uninterp spec fn crc32_of(b: Seq<u8>) -> u32;

/// Relies on crc32fast::hash: the CRC-32 (IEEE) checksum of the bytes,
/// computed from the bytes alone.
#[verifier::external_body]
fn crc32(b: &[u8]) -> (r: u32)
    ensures
        r == crc32_of(b@),
{
    crc32fast::hash(b)
}

fn digit_str(d: u32) -> (r: &'static str)
    requires
        d < 10,
    ensures
        r@ == seq![spec_digit(d as int)],
{
    let r = if d == 0 {
        "0"
    } else if d == 1 {
        "1"
    } else if d == 2 {
        "2"
    } else if d == 3 {
        "3"
    } else if d == 4 {
        "4"
    } else if d == 5 {
        "5"
    } else if d == 6 {
        "6"
    } else if d == 7 {
        "7"
    } else if d == 8 {
        "8"
    } else {
        "9"
    };
    proof {
        reveal_strlit("0");
        reveal_strlit("1");
        reveal_strlit("2");
        reveal_strlit("3");
        reveal_strlit("4");
        reveal_strlit("5");
        reveal_strlit("6");
        reveal_strlit("7");
        reveal_strlit("8");
        reveal_strlit("9");
        assert(r@ =~= seq![spec_digit(d as int)]);
    }
    r
}

fn push_decimal(out: &mut String, n: u32)
    ensures
        final(out)@ == old(out)@ + spec_decimal(n as int),
    decreases n,
{
    if n >= 10 {
        proof {
            assert(n / 10 < n) by (nonlinear_arith)
                requires
                    n >= 10,
            ;
        }
        push_decimal(out, n / 10);
    }
    out.append(digit_str(n % 10));
    proof {
        assert(out@ =~= old(out)@ + spec_decimal(n as int));
    }
}

/// The decimal text of a number.
pub fn u32_to_decimal(n: u32) -> (r: String)
    ensures
        r@ == spec_decimal(n as int),
{
    let mut out = String::new();
    push_decimal(&mut out, n);
    proof {
        assert(out@ =~= spec_decimal(n as int));
    }
    out
}

fn push_opt_text(out: &mut String, o: &Option<String>)
    ensures
        final(out)@ == old(out)@ + spec_opt_text(o.deep_view()),
{
    match o {
        None => {
            proof {
                assert(out@ =~= old(out)@ + spec_opt_text(o.deep_view()));
            }
        },
        Some(s) => {
            out.append(s.as_str());
        },
    }
}

fn push_list_fmt(out: &mut String, v: &Vec<String>)
    ensures
        final(out)@ == old(out)@ + spec_list_fmt(v.deep_view()),
{
    out.append("[");
    let ghost dv = v.deep_view();
    proof {
        assert(dv.len() == v@.len());
        assert(spec_list_items(dv.take(0)) =~= Seq::<char>::empty());
        assert(out@ =~= old(out)@ + "["@ + spec_list_items(dv.take(0)));
    }
    let mut k: usize = 0;
    while k < v.len()
        invariant
            k <= v@.len(),
            dv == v.deep_view(),
            dv.len() == v@.len(),
            out@ == old(out)@ + "["@ + spec_list_items(dv.take(k as int)),
        decreases v@.len() - k,
    {
        if k > 0 {
            out.append(", ");
        }
        out.append("\"");
        out.append(v[k].as_str());
        out.append("\"");
        proof {
            let pre1 = dv.take(k as int + 1);
            assert(pre1.drop_last() =~= dv.take(k as int));
            assert(pre1.last() == dv[k as int]);
            assert(dv[k as int] == v@[k as int]@);
            if k == 0 {
                assert(spec_list_items(pre1) == spec_quoted(dv[0]));
            } else {
                assert(spec_list_items(pre1) == spec_list_items(dv.take(k as int)) + ", "@
                    + spec_quoted(dv[k as int]));
            }
            assert(out@ =~= old(out)@ + "["@ + spec_list_items(pre1));
        }
        k += 1;
    }
    out.append("]");
    proof {
        assert(dv.take(k as int) =~= dv);
        assert(out@ =~= old(out)@ + spec_list_fmt(dv));
    }
}

/// The identifier string of a wire alarm.
pub fn alarm_ident_string(w: &AlarmInfo) -> (r: String)
    ensures
        r@ == spec_ident_chars(w@),
{
    let mut out = String::new();
    push_opt_text(&mut out, &w.title);
    out.append(",");
    push_opt_text(&mut out, &w.desc);
    out.append(",");
    match w.time {
        None => push_decimal(&mut out, 0),
        Some(t) => push_decimal(&mut out, t),
    }
    out.append(",");
    push_list_fmt(&mut out, &w.repeat);
    out.append(",");
    push_opt_text(&mut out, &w.sound);
    out.append(",");
    push_opt_text(&mut out, &w.icon);
    proof {
        assert(out@ =~= spec_ident_chars(w@));
    }
    out
}

/// The content-hash identifier of a wire alarm: the checksum of its
/// identifier string's bytes.
pub fn alarm_hash(w: &AlarmInfo) -> (r: u32)
    ensures
        r == crc32_of(encode_utf8(spec_ident_chars(w@))),
{
    let s = alarm_ident_string(w);
    crc32(s.as_str().as_bytes())
}

/// The first listed alarm whose content hash is the given one, if any.
pub fn find_by_hash(als: &Vec<AlarmInfo>, h: u32) -> (r: Option<usize>)
    ensures
        (match r {
            Some(i) => i < als@.len() && crc32_of(
                encode_utf8(spec_ident_chars(als.deep_view()[i as int])),
            ) == h && (forall|k: int|
                0 <= k < i ==> crc32_of(
                    encode_utf8(spec_ident_chars(#[trigger] als.deep_view()[k])),
                ) != h),
            None => forall|k: int|
                0 <= k < als@.len() ==> crc32_of(
                    encode_utf8(spec_ident_chars(#[trigger] als.deep_view()[k])),
                ) != h,
        }),
{
    let mut i: usize = 0;
    while i < als.len()
        invariant
            i <= als@.len(),
            als.deep_view().len() == als@.len(),
            forall|k: int|
                0 <= k < i ==> crc32_of(
                    encode_utf8(spec_ident_chars(#[trigger] als.deep_view()[k])),
                ) != h,
        decreases als@.len() - i,
    {
        proof {
            assert(als.deep_view()[i as int] == als@[i as int]@);
        }
        if alarm_hash(&als[i]) == h {
            return Some(i);
        }
        i += 1;
    }
    None
}

} // verus!
