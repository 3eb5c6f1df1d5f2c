//! What the control client computes before anything crosses the wire:
//! parsing the values of its command line — a poll triple `poll,tpfc,tsfc`,
//! a boolean, a time of day `HH:MM[:SS]`, a comma-separated repeat list,
//! and a hexadecimal alarm identifier.
//!
//! All parsers are strict: digits only, no signs, no blanks.

use vstd::prelude::*;
use vstd::string::StringSliceAdditionalSpecFns;
use vstd::utf8::{decode_utf8, encode_utf8, valid_utf8};

verus! {

// ---------------------------------------------------------------------------
// Digit runs.
// ---------------------------------------------------------------------------

/// A nonempty run of decimal digit bytes.
pub open spec fn is_dec_digits(b: Seq<u8>) -> bool {
    b.len() > 0 && forall|k: int| 0 <= k < b.len() ==> 48 <= #[trigger] b[k] <= 57
}

/// The number a run of decimal digit bytes writes.
pub open spec fn dec_val(b: Seq<u8>) -> int
    decreases b.len(),
{
    if b.len() == 0 {
        0
    } else {
        dec_val(b.drop_last()) * 10 + (b.last() - 48)
    }
}

proof fn lemma_dec_val_nonneg(b: Seq<u8>)
    requires
        forall|k: int| 0 <= k < b.len() ==> 48 <= #[trigger] b[k],
    ensures
        dec_val(b) >= 0,
    decreases b.len(),
{
    if b.len() > 0 {
        lemma_dec_val_nonneg(b.drop_last());
    }
}

proof fn lemma_dec_val_prefix(b: Seq<u8>, m: int)
    requires
        0 <= m < b.len(),
        forall|k: int| 0 <= k < b.len() ==> 48 <= #[trigger] b[k] <= 57,
    ensures
        dec_val(b.take(m)) <= dec_val(b.take(m + 1)) <= dec_val(b),
    decreases b.len() - m,
{
    assert(b.take(m + 1).drop_last() =~= b.take(m));
    lemma_dec_val_nonneg(b.take(m));
    if m + 1 == b.len() {
        assert(b.take(m + 1) =~= b);
    } else {
        lemma_dec_val_prefix(b, m + 1);
    }
}

/// Reads a nonempty decimal digit run as a number, when it has one and the
/// number fits.
pub fn parse_u64_digits(b: &[u8]) -> (r: Option<u64>)
    ensures
        (match r {
            Some(x) => is_dec_digits(b@) && dec_val(b@) == x as int,
            None => !(is_dec_digits(b@) && dec_val(b@) <= u64::MAX),
        }),
{
    if b.len() == 0 {
        return None;
    }
    let mut x: u64 = 0;
    let mut k: usize = 0;
    proof {
        assert(b@.take(0) =~= Seq::<u8>::empty());
    }
    while k < b.len()
        invariant
            k <= b@.len(),
            b@.len() > 0,
            x as int == dec_val(b@.take(k as int)),
            forall|j: int| 0 <= j < k ==> 48 <= #[trigger] b@[j] <= 57,
        decreases b@.len() - k,
    {
        let d = b[k];
        if d < 48 || d > 57 {
            return None;
        }
        let dv = (d - 48) as u64;
        if x > (u64::MAX - dv) / 10 {
            proof {
                assert(dec_val(b@.take(k as int + 1)) == x as int * 10 + dv) by {
                    assert(b@.take(k as int + 1).drop_last() =~= b@.take(k as int));
                }
                assert(x as int * 10 + dv > u64::MAX) by (nonlinear_arith)
                    requires
                        x > (u64::MAX - dv) / 10,
                        dv <= 9,
                ;
                if is_dec_digits(b@) {
                    lemma_dec_val_prefix(b@, k as int);
                }
            }
            return None;
        }
        proof {
            assert(x * 10 + dv <= u64::MAX) by (nonlinear_arith)
                requires
                    x <= (u64::MAX - dv) / 10,
                    dv <= 9,
            ;
            assert(b@.take(k as int + 1).drop_last() =~= b@.take(k as int));
        }
        x = x * 10 + dv;
        k += 1;
    }
    proof {
        assert(b@.take(k as int) =~= b@);
    }
    Some(x)
}

/// As `parse_u64_digits`, for a number that must fit in a u32.
pub fn parse_u32_digits(b: &[u8]) -> (r: Option<u32>)
    ensures
        (match r {
            Some(x) => is_dec_digits(b@) && dec_val(b@) == x as int,
            None => !(is_dec_digits(b@) && dec_val(b@) <= u32::MAX),
        }),
{
    match parse_u64_digits(b) {
        None => {
            proof {
                if is_dec_digits(b@) {
                    lemma_dec_val_nonneg(b@);
                }
            }
            None
        },
        Some(x) => if x <= 0xffff_ffff {
            Some(x as u32)
        } else {
            None
        },
    }
}

// ---------------------------------------------------------------------------
// Splitting at a separator byte.
// ---------------------------------------------------------------------------

/// Index of the first separator byte, or -1.
pub open spec fn find_sep(b: Seq<u8>, sep: u8) -> int
    decreases b.len(),
{
    if b.len() == 0 {
        -1
    } else if b[0] == sep {
        0
    } else {
        let r = find_sep(b.drop_first(), sep);
        if r < 0 {
            -1
        } else {
            r + 1
        }
    }
}

proof fn lemma_find_sep_at(b: Seq<u8>, sep: u8, m: int)
    requires
        0 <= m < b.len(),
        b[m] == sep,
        forall|j: int| 0 <= j < m ==> b[j] != sep,
    ensures
        find_sep(b, sep) == m,
    decreases m,
{
    if m > 0 {
        lemma_find_sep_at(b.drop_first(), sep, m - 1);
    }
}

proof fn lemma_find_sep_none(b: Seq<u8>, sep: u8)
    requires
        forall|j: int| 0 <= j < b.len() ==> b[j] != sep,
    ensures
        find_sep(b, sep) == -1,
    decreases b.len(),
{
    if b.len() > 0 {
        lemma_find_sep_none(b.drop_first(), sep);
    }
}

/// The pieces between the separators; one more piece than separators, and
/// pieces may be empty.
pub open spec fn spec_split(b: Seq<u8>, sep: u8) -> Seq<Seq<u8>>
    decreases b.len(),
{
    let m = find_sep(b, sep);
    if m < 0 || m >= b.len() {
        seq![b]
    } else {
        seq![b.take(m)] + spec_split(b.skip(m + 1), sep)
    }
}

proof fn lemma_find_sep_range(b: Seq<u8>, sep: u8)
    ensures
        -1 <= find_sep(b, sep) < b.len(),
        find_sep(b, sep) >= 0 ==> b[find_sep(b, sep)] == sep,
    decreases b.len(),
{
    if b.len() > 0 && b[0] != sep {
        lemma_find_sep_range(b.drop_first(), sep);
    }
}

/// Splits a byte string at every separator byte.
pub fn split_bytes(b: &[u8], sep: u8) -> (r: Vec<Vec<u8>>)
    ensures
        r.deep_view() == spec_split(b@, sep),
{
    let mut parts: Vec<Vec<u8>> = Vec::new();
    let mut start: usize = 0;
    let mut k: usize = 0;
    proof {
        assert(parts.deep_view() =~= Seq::<Seq<u8>>::empty());
        assert(b@.skip(0) =~= b@);
    }
    while k < b.len()
        invariant
            start <= k <= b@.len(),
            parts.deep_view() + spec_split(b@.skip(start as int), sep) =~= spec_split(b@, sep),
            forall|j: int| start <= j < k ==> b@[j] != sep,
        decreases b@.len() - k,
    {
        if b[k] == sep {
            let piece = slice_range_to_vec(b, start, k);
            let ghost pre = parts.deep_view();
            let ghost pv = piece.deep_view();
            let ghost tail = b@.skip(start as int);
            proof {
                assert(pv =~= b@.subrange(start as int, k as int));
            }
            parts.push(piece);
            proof {
                assert(parts.deep_view() =~= pre.push(pv));
                assert forall|j: int| 0 <= j < k - start implies tail[j] != sep by {
                    assert(tail[j] == b@[start + j]);
                }
                assert(tail[k - start] == sep);
                lemma_find_sep_at(tail, sep, k as int - start as int);
                assert(tail.take(k - start) =~= b@.subrange(start as int, k as int));
                assert(tail.skip(k - start + 1) =~= b@.skip(k as int + 1));

                assert(spec_split(tail, sep) == seq![tail.take(k - start)] + spec_split(
                    tail.skip(k - start + 1),
                    sep,
                ));
                assert(parts.deep_view() + spec_split(b@.skip(k as int + 1), sep) =~= spec_split(
                    b@,
                    sep,
                ));
            }
            start = k + 1;
        }
        k += 1;
    }
    let piece = slice_range_to_vec(b, start, b.len());
    let ghost pre = parts.deep_view();
    let ghost pv = piece.deep_view();
    let ghost tail = b@.skip(start as int);
    proof {
        assert(pv =~= b@.subrange(start as int, b@.len() as int));
    }
    parts.push(piece);
    proof {
        assert(parts.deep_view() =~= pre.push(pv));
        assert forall|j: int| 0 <= j < tail.len() implies tail[j] != sep by {
            assert(tail[j] == b@[start + j]);
        }
        lemma_find_sep_none(tail, sep);
        assert(tail =~= b@.subrange(start as int, b@.len() as int));
        assert(parts.deep_view() =~= pre.push(tail));
        assert(parts.deep_view() =~= spec_split(b@, sep));
    }
    parts
}

fn slice_range_to_vec(b: &[u8], start: usize, end: usize) -> (r: Vec<u8>)
    requires
        start <= end <= b@.len(),
    ensures
        r@ == b@.subrange(start as int, end as int),
{
    let mut r: Vec<u8> = Vec::new();
    let mut k: usize = start;
    proof {
        assert(r@ =~= b@.subrange(start as int, start as int));
    }
    while k < end
        invariant
            start <= k <= end <= b@.len(),
            r@ == b@.subrange(start as int, k as int),
        decreases end - k,
    {
        r.push(b[k]);
        proof {
            assert(r@ =~= b@.subrange(start as int, k as int + 1));
        }
        k += 1;
    }
    r
}

// ---------------------------------------------------------------------------
// The client's value parsers.
// ---------------------------------------------------------------------------

/// What a `set poll` value means: either the poll interval alone, or the
/// interval and the two decimation periods, comma-separated.
pub open spec fn spec_parse_poll(b: Seq<u8>) -> Option<(u64, Option<(u32, u32)>)> {
    let parts = spec_split(b, 44);
    if parts.len() == 1 {
        if is_dec_digits(parts[0]) && dec_val(parts[0]) <= u64::MAX {
            Some((dec_val(parts[0]) as u64, None))
        } else {
            None
        }
    } else if parts.len() == 3 {
        if is_dec_digits(parts[0]) && dec_val(parts[0]) <= u64::MAX && is_dec_digits(parts[1])
            && dec_val(parts[1]) <= u32::MAX && is_dec_digits(parts[2]) && dec_val(parts[2])
            <= u32::MAX {
            Some(
                (
                    dec_val(parts[0]) as u64,
                    Some((dec_val(parts[1]) as u32, dec_val(parts[2]) as u32)),
                ),
            )
        } else {
            None
        }
    } else {
        None
    }
}

/// Parses a `set poll` value: `poll` or `poll,tpfc,tsfc`.
pub fn parse_poll_value(s: &str) -> (r: Option<(u64, Option<(u32, u32)>)>)
    ensures
        r == spec_parse_poll(s.spec_bytes()),
{
    let parts = split_bytes(s.as_bytes(), 44);
    proof {
        assert(parts.deep_view().len() == parts@.len());
    }
    if parts.len() == 1 {
        proof {
            assert(parts.deep_view()[0] =~= parts@[0]@);
        }
        match parse_u64_digits(parts[0].as_slice()) {
            None => None,
            Some(p) => Some((p, None)),
        }
    } else if parts.len() == 3 {
        proof {
            assert(parts.deep_view()[0] =~= parts@[0]@);
            assert(parts.deep_view()[1] =~= parts@[1]@);
            assert(parts.deep_view()[2] =~= parts@[2]@);
        }
        let p = match parse_u64_digits(parts[0].as_slice()) {
            None => {
                return None;
            },
            Some(p) => p,
        };
        let t = match parse_u32_digits(parts[1].as_slice()) {
            None => {
                return None;
            },
            Some(t) => t,
        };
        let c = match parse_u32_digits(parts[2].as_slice()) {
            None => {
                return None;
            },
            Some(c) => c,
        };
        Some((p, Some((t, c))))
    } else {
        None
    }
}

/// What a boolean value means: the words "true" and "false" and nothing
/// else.
pub open spec fn spec_parse_bool(s: Seq<char>) -> Option<bool> {
    if s == "true"@ {
        Some(true)
    } else if s == "false"@ {
        Some(false)
    } else {
        None
    }
}

fn bytes_eq(a: &[u8], b: &[u8]) -> (r: bool)
    ensures
        r == (a@ == b@),
{
    if a.len() != b.len() {
        proof {
            assert(a@.len() != b@.len());
        }
        return false;
    }
    let mut k: usize = 0;
    while k < a.len()
        invariant
            k <= a@.len(),
            a@.len() == b@.len(),
            forall|j: int| 0 <= j < k ==> a@[j] == b@[j],
        decreases a@.len() - k,
    {
        if a[k] != b[k] {
            return false;
        }
        k += 1;
    }
    proof {
        assert(a@ =~= b@);
    }
    true
}

/// Parses a boolean value: `true` or `false`, anything else refused.
pub fn parse_bool_value(s: &str) -> (r: Option<bool>)
    ensures
        r == spec_parse_bool(s@),
{
    broadcast use vstd::utf8::encode_utf8_decode_utf8;

    if bytes_eq(s.as_bytes(), "true".as_bytes()) {
        proof {
            assert(decode_utf8(encode_utf8(s@)) == decode_utf8(encode_utf8("true"@)));
        }
        Some(true)
    } else if bytes_eq(s.as_bytes(), "false".as_bytes()) {
        proof {
            assert(decode_utf8(encode_utf8(s@)) == decode_utf8(encode_utf8("false"@)));
        }
        Some(false)
    } else {
        proof {
            if s@ == "true"@ || s@ == "false"@ {
                assert(false);
            }
        }
        None
    }
}

/// What a time-of-day value means: `HH:MM` or `HH:MM:SS` with each part a
/// digit run, taken as seconds since midnight when that fits.
pub open spec fn spec_parse_time(b: Seq<u8>) -> Option<u32> {
    let parts = spec_split(b, 58);
    if parts.len() == 2 {
        if is_dec_digits(parts[0]) && dec_val(parts[0]) <= u32::MAX && is_dec_digits(parts[1])
            && dec_val(parts[1]) <= u32::MAX && dec_val(parts[0]) * 3600 + dec_val(parts[1]) * 60
            <= u32::MAX {
            Some((dec_val(parts[0]) * 3600 + dec_val(parts[1]) * 60) as u32)
        } else {
            None
        }
    } else if parts.len() == 3 {
        if is_dec_digits(parts[0]) && dec_val(parts[0]) <= u32::MAX && is_dec_digits(parts[1])
            && dec_val(parts[1]) <= u32::MAX && is_dec_digits(parts[2]) && dec_val(parts[2])
            <= u32::MAX && dec_val(parts[0]) * 3600 + dec_val(parts[1]) * 60 + dec_val(parts[2])
            <= u32::MAX {
            Some((dec_val(parts[0]) * 3600 + dec_val(parts[1]) * 60 + dec_val(parts[2])) as u32)
        } else {
            None
        }
    } else {
        None
    }
}

/// Parses a time-of-day value, `HH:MM` or `HH:MM:SS`, to seconds since
/// midnight; refused when malformed or out of range.
pub fn parse_time_value(s: &str) -> (r: Option<u32>)
    ensures
        r == spec_parse_time(s.spec_bytes()),
{
    let parts = split_bytes(s.as_bytes(), 58);
    proof {
        assert(parts.deep_view().len() == parts@.len());
    }
    if parts.len() != 2 && parts.len() != 3 {
        return None;
    }
    proof {
        assert(parts.deep_view()[0] =~= parts@[0]@);
        assert(parts.deep_view()[1] =~= parts@[1]@);
        if parts@.len() == 3 {
            assert(parts.deep_view()[2] =~= parts@[2]@);
        }
    }
    let h = match parse_u32_digits(parts[0].as_slice()) {
        None => {
            return None;
        },
        Some(h) => h,
    };
    let m = match parse_u32_digits(parts[1].as_slice()) {
        None => {
            return None;
        },
        Some(m) => m,
    };
    if h as u64 * 3600 + m as u64 * 60 > 0xffff_ffff {
        proof {
            if parts@.len() == 3 && is_dec_digits(parts.deep_view()[2]) {
                lemma_dec_val_nonneg(parts.deep_view()[2]);
            }
        }
        return None;
    }
    let hm = h * 3600 + m * 60;
    if parts.len() == 2 {
        Some(hm)
    } else {
        let sec = match parse_u32_digits(parts[2].as_slice()) {
            None => {
                return None;
            },
            Some(v) => v,
        };
        if hm as u64 + sec as u64 <= 0xffff_ffff {
            Some(hm + sec)
        } else {
            None
        }
    }
}

/// What a repeat value means: nothing at all for the empty string, else the
/// comma-separated pieces, kept as they are.
pub open spec fn spec_parse_repeat(b: Seq<u8>) -> Seq<Seq<u8>> {
    if b.len() == 0 {
        Seq::empty()
    } else {
        spec_split(b, 44)
    }
}

/// Parses a repeat value: the comma-separated weekday codes, the empty
/// string standing for none at all.
pub fn parse_repeat_value(s: &str) -> (r: Vec<String>)
    ensures
        r.deep_view().len() == spec_parse_repeat(s.spec_bytes()).len(),
        forall|k: int|
            0 <= k < r.deep_view().len() ==> encode_utf8(#[trigger] r.deep_view()[k])
                == spec_parse_repeat(s.spec_bytes())[k],
{
    broadcast use vstd::utf8::encode_utf8_decode_utf8, vstd::utf8::encode_utf8_valid_utf8;

    let bs = s.as_bytes();
    if bs.len() == 0 {
        let r: Vec<String> = Vec::new();
        proof {
            assert(r.deep_view() =~= Seq::<Seq<char>>::empty());
        }
        return r;
    }
    let parts = split_bytes(bs, 44);
    let mut out: Vec<String> = Vec::new();
    let mut k: usize = 0;
    proof {
        assert(out.deep_view() =~= Seq::<Seq<char>>::empty());
        assert(parts.deep_view().len() == parts@.len());
    }
    while k < parts.len()
        invariant
            k <= parts@.len(),
            parts.deep_view() == spec_split(s.spec_bytes(), 44),
            parts.deep_view().len() == parts@.len(),
            s.spec_bytes().len() > 0,
            out.deep_view().len() == k as int,
            forall|j: int|
                0 <= j < k ==> encode_utf8(#[trigger] out.deep_view()[j]) == parts.deep_view()[j],
        decreases parts@.len() - k,
    {
        let ghost pre = out.deep_view();
        proof {
            assert(parts.deep_view()[k as int] =~= parts@[k as int]@);
        }
        let piece = parts[k].clone();
        proof {
            vstd::utf8::encode_utf8_valid_utf8(s@);
            assert(s.spec_bytes() == encode_utf8(s@));
            lemma_split_pieces_valid(s.spec_bytes(), 44);
        }
        match crate::codec::bytes_to_string(piece) {
            None => {
                proof {
                    assert(false);
                }
            },
            Some(p) => {
                let ghost pv = p@;
                out.push(p);
                proof {
                    assert(out.deep_view() =~= pre.push(pv));
                }
            },
        }
        k += 1;
    }
    out
}

/// Splitting valid UTF-8 at an ASCII separator keeps every piece valid.
proof fn lemma_split_pieces_valid(b: Seq<u8>, sep: u8)
    requires
        valid_utf8(b),
        sep < 0x80,
    ensures
        forall|k: int|
            0 <= k < spec_split(b, sep).len() ==> valid_utf8(#[trigger] spec_split(b, sep)[k]),
    decreases b.len(),
{
    let m = find_sep(b, sep);
    lemma_find_sep_range(b, sep);
    if m >= 0 {
        vstd::utf8::is_char_boundary_iff_not_is_continuation_byte(b, m);
        vstd::utf8::valid_utf8_split(b, m);
        assert(b.take(m) =~= b.subrange(0, m));
        let rest = b.subrange(m, b.len() as int);
        assert(rest[0] == sep);
        assert(vstd::utf8::length_of_first_scalar(rest) == 1);
        assert(vstd::utf8::is_char_boundary(rest, 1)) by {
            reveal_with_fuel(vstd::utf8::is_char_boundary, 2);
        }
        vstd::utf8::valid_utf8_split(rest, 1);
        assert(rest.subrange(1, rest.len() as int) =~= b.skip(m + 1));
        lemma_split_pieces_valid(b.skip(m + 1), sep);
        assert forall|k: int| 0 <= k < spec_split(b, sep).len() implies valid_utf8(
            #[trigger] spec_split(b, sep)[k],
        ) by {
            if k > 0 {
                assert(spec_split(b, sep)[k] == spec_split(b.skip(m + 1), sep)[k - 1]);
            }
        }
    }
}

/// Hexadecimal digits.
pub open spec fn is_hex_digits(b: Seq<u8>) -> bool {
    b.len() > 0 && forall|k: int| 0 <= k < b.len() ==> hex_digit_val(#[trigger] b[k]) >= 0
}

/// Value of one hexadecimal digit byte, or -1.
pub open spec fn hex_digit_val(d: u8) -> int {
    if 48 <= d <= 57 {
        d - 48
    } else if 97 <= d <= 102 {
        d - 87
    } else if 65 <= d <= 70 {
        d - 55
    } else {
        -1
    }
}

/// The number a run of hexadecimal digit bytes writes.
pub open spec fn hex_val(b: Seq<u8>) -> int
    decreases b.len(),
{
    if b.len() == 0 {
        0
    } else {
        hex_val(b.drop_last()) * 16 + hex_digit_val(b.last())
    }
}

proof fn lemma_hex_val_nonneg(b: Seq<u8>)
    requires
        forall|k: int| 0 <= k < b.len() ==> hex_digit_val(#[trigger] b[k]) >= 0,
    ensures
        hex_val(b) >= 0,
    decreases b.len(),
{
    if b.len() > 0 {
        lemma_hex_val_nonneg(b.drop_last());
    }
}

proof fn lemma_hex_val_prefix(b: Seq<u8>, m: int)
    requires
        0 <= m < b.len(),
        forall|k: int| 0 <= k < b.len() ==> hex_digit_val(#[trigger] b[k]) >= 0,
    ensures
        hex_val(b.take(m)) <= hex_val(b.take(m + 1)) <= hex_val(b),
    decreases b.len() - m,
{
    assert(b.take(m + 1).drop_last() =~= b.take(m));
    lemma_hex_val_nonneg(b.take(m));
    if m + 1 == b.len() {
        assert(b.take(m + 1) =~= b);
    } else {
        lemma_hex_val_prefix(b, m + 1);
    }
}

fn hex_digit(d: u8) -> (r: i8)
    ensures
        r as int == hex_digit_val(d),
{
    if 48 <= d && d <= 57 {
        (d - 48) as i8
    } else if 97 <= d && d <= 102 {
        (d - 87) as i8
    } else if 65 <= d && d <= 70 {
        (d - 55) as i8
    } else {
        -1
    }
}

/// Parses a hexadecimal alarm identifier, as the listing prints it.
pub fn parse_hex_u32(s: &str) -> (r: Option<u32>)
    ensures
        (match r {
            Some(x) => is_hex_digits(s.spec_bytes()) && hex_val(s.spec_bytes()) == x as int,
            None => !(is_hex_digits(s.spec_bytes()) && hex_val(s.spec_bytes()) <= u32::MAX),
        }),
{
    let b = s.as_bytes();
    if b.len() == 0 {
        return None;
    }
    let mut x: u32 = 0;
    let mut k: usize = 0;
    proof {
        assert(b@.take(0) =~= Seq::<u8>::empty());
    }
    while k < b.len()
        invariant
            k <= b@.len(),
            b@.len() > 0,
            b@ == s.spec_bytes(),
            x as int == hex_val(b@.take(k as int)),
            forall|j: int| 0 <= j < k ==> hex_digit_val(#[trigger] b@[j]) >= 0,
        decreases b@.len() - k,
    {
        let d = hex_digit(b[k]);
        if d < 0 {
            return None;
        }
        let dv = d as u32;
        if x > (u32::MAX - dv) / 16 {
            proof {
                assert(hex_val(b@.take(k as int + 1)) == x as int * 16 + dv) by {
                    assert(b@.take(k as int + 1).drop_last() =~= b@.take(k as int));
                }
                assert(x as int * 16 + dv > u32::MAX) by (nonlinear_arith)
                    requires
                        x > (u32::MAX - dv) / 16,
                        dv <= 15,
                ;
                if is_hex_digits(b@) {
                    lemma_hex_val_prefix(b@, k as int);
                }
            }
            return None;
        }
        proof {
            assert(x * 16 + dv <= u32::MAX) by (nonlinear_arith)
                requires
                    x <= (u32::MAX - dv) / 16,
                    dv <= 15,
            ;
            assert(b@.take(k as int + 1).drop_last() =~= b@.take(k as int));
        }
        x = x * 16 + dv;
        k += 1;
    }
    proof {
        assert(b@.take(k as int) =~= b@);
    }
    Some(x)
}

} // verus!
