//! The backing file's format: a pretty JSON document with one `habits`
//! array. Rendering and parsing are defined as spec functions over character
//! sequences; the executable codec is proved equal to them, and parsing a
//! rendered store gives the store back.

use vstd::prelude::*;
use vstd::string::StrSliceExecFns;
use vstd::string::StringExecFns;

use crate::error::HabitError;
use crate::habit::Habit;
use crate::habit::HabitView;
use crate::habit::completions_wf;
use crate::num::dec_chars;
use crate::num::p_dec_var;
use crate::num::p_rad;
use crate::num::parse_dec_var;
use crate::num::parse_rad;
use crate::num::push_dec;
use crate::num::push_rad;
use crate::num::rad_char;
use crate::num::rad_chars;
use crate::num::rad_val;
use crate::store::HabitStore;
use crate::ts::Timestamp;

verus! {

// ---------------------------------------------------------------- rendering
/// One character's JSON escape: quote and backslash are escaped, control
/// characters become a four-digit escape, everything else stands as is.
pub open spec fn esc_char(c: char) -> Seq<char> {
    if c == '"' {
        seq!['\\', '"']
    } else if c == '\\' {
        seq!['\\', '\\']
    } else if (c as u32) < 0x20 {
        seq!['\\', 'u', '0', '0', rad_char(c as u32 as int / 16), rad_char(c as u32 as int % 16)]
    } else {
        seq![c]
    }
}

pub open spec fn esc_str(s: Seq<char>) -> Seq<char>
    decreases s.len(),
{
    if s.len() == 0 {
        Seq::empty()
    } else {
        esc_char(s[0]) + esc_str(s.drop_first())
    }
}

/// A JSON string literal: the escaped text between quotes.
pub open spec fn json_str(s: Seq<char>) -> Seq<char> {
    seq!['"'] + esc_str(s) + seq!['"']
}

/// A timestamp in its serialized form: date and time of day in UTC.
pub open spec fn ts_chars(t: Timestamp) -> Seq<char> {
    rad_chars(t.year as nat, 4, 10) + seq!['-'] + rad_chars(t.month as nat, 2, 10) + seq!['-']
        + rad_chars(t.day as nat, 2, 10) + seq!['T'] + rad_chars(t.hour as nat, 2, 10) + seq![':']
        + rad_chars(t.minute as nat, 2, 10) + seq![':'] + rad_chars(t.second as nat, 2, 10)
        + seq!['Z']
}

pub open spec fn quoted_ts(t: Timestamp) -> Seq<char> {
    seq!['"'] + ts_chars(t) + seq!['"']
}

/// A non-empty completion list: quoted timestamps, comma-separated.
pub open spec fn ts_list_chars(l: Seq<Timestamp>) -> Seq<char>
    decreases l.len(),
{
    if l.len() == 0 {
        Seq::empty()
    } else if l.len() == 1 {
        quoted_ts(l[0])
    } else {
        quoted_ts(l[0]) + seq![',', ' '] + ts_list_chars(l.drop_first())
    }
}

/// The unique id in its canonical textual form: five hyphen-separated
/// lower-case hexadecimal groups of 8, 4, 4, 4 and 12 digits.
pub open spec fn uuid_chars(id: u128) -> Seq<char> {
    let n = id as nat;
    let s1 = n / 0x1000000000000000000000000;
    let r1 = n % 0x1000000000000000000000000;
    let s2 = r1 / 0x100000000000000000000;
    let r2 = r1 % 0x100000000000000000000;
    let s3 = r2 / 0x10000000000000000;
    let r3 = r2 % 0x10000000000000000;
    let s4 = r3 / 0x1000000000000;
    let s5 = r3 % 0x1000000000000;
    rad_chars(s1, 8, 16) + seq!['-'] + rad_chars(s2, 4, 16) + seq!['-'] + rad_chars(s3, 4, 16)
        + seq!['-'] + rad_chars(s4, 4, 16) + seq!['-'] + rad_chars(s5, 12, 16)
}

pub open spec fn opt_str_chars(d: Option<Seq<char>>) -> Seq<char> {
    match d {
        Option::Some(s) => json_str(s),
        Option::None => "null"@,
    }
}

pub open spec fn opt_dec_chars(f: Option<u32>) -> Seq<char> {
    match f {
        Option::Some(v) => dec_chars(v as nat),
        Option::None => "null"@,
    }
}

pub open spec fn bool_chars(b: bool) -> Seq<char> {
    if b {
        "true"@
    } else {
        "false"@
    }
}

/// One record as a pretty JSON object.
pub open spec fn habit_chars(h: HabitView) -> Seq<char> {
    "{\n      \"id\": \""@ + uuid_chars(h.id) + "\",\n      \"name\": "@ + json_str(h.name)
        + ",\n      \"description\": "@ + opt_str_chars(h.description)
        + ",\n      \"created_at\": \""@ + ts_chars(h.created_at)
        + "\",\n      \"completions\": ["@ + ts_list_chars(h.completions)
        + "],\n      \"target_frequency\": "@ + opt_dec_chars(h.target_frequency)
        + ",\n      \"is_active\": "@ + bool_chars(h.is_active) + "\n    }"@
}

/// A non-empty habit list, comma-separated with indentation.
pub open spec fn habit_list_chars(s: Seq<HabitView>) -> Seq<char>
    decreases s.len(),
{
    if s.len() == 0 {
        Seq::empty()
    } else if s.len() == 1 {
        habit_chars(s[0])
    } else {
        habit_chars(s[0]) + ",\n    "@ + habit_list_chars(s.drop_first())
    }
}

/// The whole backing document.
pub open spec fn render_store_spec(s: Seq<HabitView>) -> Seq<char> {
    if s.len() == 0 {
        "{\n  \"habits\": ["@ + "]\n}"@
    } else {
        "{\n  \"habits\": ["@ + "\n    "@ + habit_list_chars(s) + "\n  ]\n}"@
    }
}

// ------------------------------------------------------------------ parsing
/// The literal l stands at position i.
pub open spec fn p_lit(t: Seq<char>, i: int, l: Seq<char>) -> Option<int> {
    if 0 <= i && i + l.len() <= t.len() && t.subrange(i, i + l.len()) == l {
        Some(i + l.len())
    } else {
        None
    }
}

/// One escape sequence at position i (at the backslash).
pub open spec fn p_escape(t: Seq<char>, i: int) -> Option<(char, int)> {
    if 0 <= i && i + 1 < t.len() && t[i] == '\\' {
        let e = t[i + 1];
        if e == '"' {
            Some(('"', i + 2))
        } else if e == '\\' {
            Some(('\\', i + 2))
        } else if e == '/' {
            Some(('/', i + 2))
        } else if e == 'n' {
            Some(('\n', i + 2))
        } else if e == 't' {
            Some(('\t', i + 2))
        } else if e == 'r' {
            Some(('\r', i + 2))
        } else if e == 'u' {
            match p_rad(t, i + 2, 4, 16, 0) {
                Some((v, j)) => if v < 0x20 {
                    Some(((v as u8) as char, j))
                } else {
                    None
                },
                None => None,
            }
        } else {
            None
        }
    } else {
        None
    }
}

/// String content up to and including the closing quote.
pub open spec fn p_str_body(t: Seq<char>, i: int) -> Option<(Seq<char>, int)>
    decreases t.len() - i,
{
    if 0 <= i && i < t.len() {
        if t[i] == '"' {
            Some((Seq::empty(), i + 1))
        } else if t[i] == '\\' {
            match p_escape(t, i) {
                Some((c, j)) => {
                    proof {
                        lemma_p_escape_pos(t, i);
                    }
                    match p_str_body(t, j) {
                        Some((rest, e)) => Some((seq![c] + rest, e)),
                        None => None,
                    }
                },
                None => None,
            }
        } else if (t[i] as u32) >= 0x20 {
            match p_str_body(t, i + 1) {
                Some((rest, e)) => Some((seq![t[i]] + rest, e)),
                None => None,
            }
        } else {
            None
        }
    } else {
        None
    }
}

/// An escape advances the position and stays in bounds.
pub proof fn lemma_p_escape_pos(t: Seq<char>, i: int)
    ensures
        p_escape(t, i) matches Some((c, j)) ==> i < j <= t.len(),
{
    if 0 <= i && i + 1 < t.len() && t[i] == '\\' && t[i + 1] == 'u' {
        lemma_p_rad_pos(t, i + 2, 4, 16, 0);
    }
}

/// Fixed-width parsing lands exactly w characters further, in bounds.
pub proof fn lemma_p_rad_pos(t: Seq<char>, i: int, w: int, b: int, acc: int)
    requires
        w >= 0,
    ensures
        p_rad(t, i, w, b, acc) matches Some((v, j)) ==> j == i + w && (w > 0 ==> 0 <= i && j
            <= t.len()),
    decreases w,
{
    if w > 0 && 0 <= i && i < t.len() {
        match rad_val(t[i]) {
            Some(d) => {
                if d < b {
                    lemma_p_rad_pos(t, i + 1, w - 1, b, acc * b + d);
                }
            },
            None => {},
        }
    }
}

/// A quoted JSON string at position i.
pub open spec fn p_string(t: Seq<char>, i: int) -> Option<(Seq<char>, int)> {
    if 0 <= i && i < t.len() && t[i] == '"' {
        p_str_body(t, i + 1)
    } else {
        None
    }
}

/// A serialized timestamp at position i; it must denote a real civil time.
pub open spec fn p_ts(t: Seq<char>, i: int) -> Option<(Timestamp, int)> {
    match p_rad(t, i, 4, 10, 0) {
        Some((y, i1)) => match p_lit(t, i1, seq!['-']) {
            Some(i2) => match p_rad(t, i2, 2, 10, 0) {
                Some((mo, i3)) => match p_lit(t, i3, seq!['-']) {
                    Some(i4) => match p_rad(t, i4, 2, 10, 0) {
                        Some((d, i5)) => match p_lit(t, i5, seq!['T']) {
                            Some(i6) => match p_rad(t, i6, 2, 10, 0) {
                                Some((h, i7)) => match p_lit(t, i7, seq![':']) {
                                    Some(i8) => match p_rad(t, i8, 2, 10, 0) {
                                        Some((mi, i9)) => match p_lit(t, i9, seq![':']) {
                                            Some(i10) => match p_rad(t, i10, 2, 10, 0) {
                                                Some((sec, i11)) => match p_lit(
                                                    t,
                                                    i11,
                                                    seq!['Z'],
                                                ) {
                                                    Some(i12) => {
                                                        let ts = Timestamp {
                                                            year: y as u32,
                                                            month: mo as u32,
                                                            day: d as u32,
                                                            hour: h as u32,
                                                            minute: mi as u32,
                                                            second: sec as u32,
                                                        };
                                                        if y == ts.year as int && mo
                                                            == ts.month as int && d == ts.day as int
                                                            && h == ts.hour as int && mi
                                                            == ts.minute as int && sec
                                                            == ts.second as int && ts.valid() {
                                                            Some((ts, i12))
                                                        } else {
                                                            None
                                                        }
                                                    },
                                                    None => None,
                                                },
                                                None => None,
                                            },
                                            None => None,
                                        },
                                        None => None,
                                    },
                                    None => None,
                                },
                                None => None,
                            },
                            None => None,
                        },
                        None => None,
                    },
                    None => None,
                },
                None => None,
            },
            None => None,
        },
        None => None,
    }
}

pub open spec fn p_quoted_ts(t: Seq<char>, i: int) -> Option<(Timestamp, int)> {
    match p_lit(t, i, seq!['"']) {
        Some(i1) => match p_ts(t, i1) {
            Some((ts, i2)) => match p_lit(t, i2, seq!['"']) {
                Some(i3) => Some((ts, i3)),
                None => None,
            },
            None => None,
        },
        None => None,
    }
}

/// A quoted timestamp advances the position.
pub proof fn lemma_p_quoted_ts_pos(t: Seq<char>, i: int)
    ensures
        p_quoted_ts(t, i) matches Some((ts, j)) ==> i < j <= t.len(),
{
    match p_lit(t, i, seq!['"']) {
        Some(i1) => {
            lemma_p_rad_pos(t, i1, 4, 10, 0);
            match p_rad(t, i1, 4, 10, 0) {
                Some((y, p1)) => {
                    lemma_p_rad_pos(t, p1 + 1, 2, 10, 0);
                    match p_rad(t, p1 + 1, 2, 10, 0) {
                        Some((mo, p2)) => {
                            lemma_p_rad_pos(t, p2 + 1, 2, 10, 0);
                            match p_rad(t, p2 + 1, 2, 10, 0) {
                                Some((d, p3)) => {
                                    lemma_p_rad_pos(t, p3 + 1, 2, 10, 0);
                                    match p_rad(t, p3 + 1, 2, 10, 0) {
                                        Some((h, p4)) => {
                                            lemma_p_rad_pos(t, p4 + 1, 2, 10, 0);
                                            match p_rad(t, p4 + 1, 2, 10, 0) {
                                                Some((mi, p5)) => {
                                                    lemma_p_rad_pos(t, p5 + 1, 2, 10, 0);
                                                },
                                                None => {},
                                            }
                                        },
                                        None => {},
                                    }
                                },
                                None => {},
                            }
                        },
                        None => {},
                    }
                },
                None => {},
            }
        },
        None => {},
    }
}

/// One or more quoted timestamps, comma-separated.
pub open spec fn p_ts_list(t: Seq<char>, i: int) -> Option<(Seq<Timestamp>, int)>
    decreases t.len() - i,
{
    match p_quoted_ts(t, i) {
        Some((ts, j)) => {
            if 0 <= j && j < t.len() && t[j] == ',' {
                match p_lit(t, j, seq![',', ' ']) {
                    Some(j2) => {
                        proof {
                            lemma_p_quoted_ts_pos(t, i);
                        }
                        match p_ts_list(t, j2) {
                            Some((rest, k)) => Some((seq![ts] + rest, k)),
                            None => None,
                        }
                    },
                    None => None,
                }
            } else {
                Some((seq![ts], j))
            }
        },
        None => None,
    }
}

/// The unique id's textual form at position i.
pub open spec fn p_uuid(t: Seq<char>, i: int) -> Option<(u128, int)> {
    match p_rad(t, i, 8, 16, 0) {
        Some((s1, i1)) => match p_lit(t, i1, seq!['-']) {
            Some(i2) => match p_rad(t, i2, 4, 16, 0) {
                Some((s2, i3)) => match p_lit(t, i3, seq!['-']) {
                    Some(i4) => match p_rad(t, i4, 4, 16, 0) {
                        Some((s3, i5)) => match p_lit(t, i5, seq!['-']) {
                            Some(i6) => match p_rad(t, i6, 4, 16, 0) {
                                Some((s4, i7)) => match p_lit(t, i7, seq!['-']) {
                                    Some(i8) => match p_rad(t, i8, 12, 16, 0) {
                                        Some((s5, i9)) => {
                                            let v = s1 * 0x1000000000000000000000000 + s2
                                                * 0x100000000000000000000 + s3
                                                * 0x10000000000000000 + s4 * 0x1000000000000 + s5;
                                            if v <= u128::MAX {
                                                Some((v as u128, i9))
                                            } else {
                                                None
                                            }
                                        },
                                        None => None,
                                    },
                                    None => None,
                                },
                                None => None,
                            },
                            None => None,
                        },
                        None => None,
                    },
                    None => None,
                },
                None => None,
            },
            None => None,
        },
        None => None,
    }
}

/// A string or the word "null".
pub open spec fn p_opt_string(t: Seq<char>, i: int) -> Option<(Option<Seq<char>>, int)> {
    if 0 <= i && i < t.len() && t[i] == '"' {
        match p_string(t, i) {
            Some((s, j)) => Some((Some(s), j)),
            None => None,
        }
    } else {
        match p_lit(t, i, "null"@) {
            Some(j) => Some((None, j)),
            None => None,
        }
    }
}

/// A 32-bit decimal or the word "null".
pub open spec fn p_opt_dec(t: Seq<char>, i: int) -> Option<(Option<u32>, int)> {
    if 0 <= i && i < t.len() && t[i] == 'n' {
        match p_lit(t, i, "null"@) {
            Some(j) => Some((None, j)),
            None => None,
        }
    } else {
        let (v, j) = p_dec_var(t, i, 0);
        if j > i && v <= u32::MAX {
            Some((Some(v as u32), j))
        } else {
            None
        }
    }
}

/// The optional trailing active flag, then the record's closing brace. A
/// record without the flag (an older file) counts as active.
pub open spec fn p_active_close(t: Seq<char>, i: int) -> Option<(bool, int)> {
    if 0 <= i && i < t.len() && t[i] == ',' {
        match p_lit(t, i, ",\n      \"is_active\": "@) {
            Some(j) => {
                let b = if 0 <= j && j < t.len() && t[j] == 't' {
                    match p_lit(t, j, "true"@) {
                        Some(j2) => Some((true, j2)),
                        None => None,
                    }
                } else {
                    match p_lit(t, j, "false"@) {
                        Some(j2) => Some((false, j2)),
                        None => None,
                    }
                };
                match b {
                    Some((v, j2)) => match p_lit(t, j2, "\n    }"@) {
                        Some(j3) => Some((v, j3)),
                        None => None,
                    },
                    None => None,
                }
            },
            None => None,
        }
    } else {
        match p_lit(t, i, "\n    }"@) {
            Some(j) => Some((true, j)),
            None => None,
        }
    }
}

/// The completion array's contents: empty (the closing bracket is left for
/// the next literal) or a list; a history that is not sorted and
/// date-deduplicated is refused.
pub open spec fn p_completions(t: Seq<char>, i: int) -> Option<(Seq<Timestamp>, int)> {
    if 0 <= i && i < t.len() && t[i] == '"' {
        p_ts_list(t, i)
    } else {
        Some((Seq::empty(), i))
    }
}

/// One record object at position i.
pub open spec fn p_habit(t: Seq<char>, i: int) -> Option<(HabitView, int)> {
    match p_lit(t, i, "{\n      \"id\": \""@) {
        Some(i1) => match p_uuid(t, i1) {
            Some((id, i2)) => match p_lit(t, i2, "\",\n      \"name\": "@) {
                Some(i3) => match p_string(t, i3) {
                    Some((name, i4)) => match p_lit(t, i4, ",\n      \"description\": "@) {
                        Some(i5) => match p_opt_string(t, i5) {
                            Some((description, i6)) => match p_lit(
                                t,
                                i6,
                                ",\n      \"created_at\": \""@,
                            ) {
                                Some(i7) => match p_ts(t, i7) {
                                    Some((created_at, i8)) => match p_lit(
                                        t,
                                        i8,
                                        "\",\n      \"completions\": ["@,
                                    ) {
                                        Some(i9) => match p_completions(t, i9) {
                                            Some((completions, i10)) => match p_lit(
                                                t,
                                                i10,
                                                "],\n      \"target_frequency\": "@,
                                            ) {
                                                Some(i11) => match p_opt_dec(t, i11) {
                                                    Some((target_frequency, i12)) => match
                                                        p_active_close(t, i12) {
                                                        Some((is_active, i13)) => {
                                                            if completions_wf(completions) {
                                                                Some(
                                                                    (
                                                                        HabitView {
                                                                            id,
                                                                            name,
                                                                            description,
                                                                            created_at,
                                                                            completions,
                                                                            target_frequency,
                                                                            is_active,
                                                                        },
                                                                        i13,
                                                                    ),
                                                                )
                                                            } else {
                                                                None
                                                            }
                                                        },
                                                        None => None,
                                                    },
                                                    None => None,
                                                },
                                                None => None,
                                            },
                                            None => None,
                                        },
                                        None => None,
                                    },
                                    None => None,
                                },
                                None => None,
                            },
                            None => None,
                        },
                        None => None,
                    },
                    None => None,
                },
                None => None,
            },
            None => None,
        },
        None => None,
    }
}

/// The habit array's records: one or more, comma-separated. The fuel bounds
/// how many records may still follow; the document parser hands in the text
/// length, which no record count can exceed.
pub open spec fn p_habits(t: Seq<char>, i: int, fuel: nat) -> Option<(Seq<HabitView>, int)>
    decreases fuel,
{
    if fuel == 0 {
        None
    } else {
        match p_habit(t, i) {
            Some((h, j)) => {
                if 0 <= j && j < t.len() && t[j] == ',' {
                    match p_lit(t, j, ",\n    "@) {
                        Some(j2) => match p_habits(t, j2, (fuel - 1) as nat) {
                            Some((rest, k)) => Some((seq![h] + rest, k)),
                            None => None,
                        },
                        None => None,
                    }
                } else {
                    Some((seq![h], j))
                }
            },
            None => None,
        }
    }
}

/// The whole backing document: the one `habits` array, nothing after it.
pub open spec fn parse_store_spec(t: Seq<char>) -> Option<Seq<HabitView>> {
    match p_lit(t, 0, "{\n  \"habits\": ["@) {
        Some(i0) => {
            if 0 <= i0 && i0 < t.len() && t[i0] == ']' {
                match p_lit(t, i0, "]\n}"@) {
                    Some(e) => if e == t.len() {
                        Some(Seq::empty())
                    } else {
                        None
                    },
                    None => None,
                }
            } else {
                match p_lit(t, i0, "\n    "@) {
                    Some(i1) => match p_habits(t, i1, t.len() as nat) {
                        Some((hs, i2)) => match p_lit(t, i2, "\n  ]\n}"@) {
                            Some(e) => if e == t.len() {
                                Some(hs)
                            } else {
                                None
                            },
                            None => None,
                        },
                        None => None,
                    },
                    None => None,
                }
            }
        },
        None => None,
    }
}

// --------------------------------------------------------- executable codec
/// Relies on std's FromIterator for String: collecting characters yields the
/// string of exactly those characters.
#[verifier::external_body]
fn chars_to_string(v: &Vec<char>) -> (r: String)
    ensures
        r@ == v@,
{
    v.iter().collect()
}

/// Appends a literal.
fn push_str_chars(out: &mut Vec<char>, s: &str)
    ensures
        final(out)@ == old(out)@ + s@,
{
    let len = s.unicode_len();
    let mut k: usize = 0;
    while k < len
        invariant
            len == s@.len(),
            k <= len,
            out@ == old(out)@ + s@.subrange(0, k as int),
        decreases len - k,
    {
        out.push(s.get_char(k));
        proof {
            assert(out@ =~= old(out)@ + s@.subrange(0, k as int + 1));
        }
        k += 1;
    }
    proof {
        assert(out@ =~= old(out)@ + s@);
    }
}

/// Appends the escaped content of s from index k on.
fn push_esc(out: &mut Vec<char>, s: &str, k: usize)
    requires
        k <= s@.len(),
    ensures
        final(out)@ == old(out)@ + esc_str(s@.subrange(k as int, s@.len() as int)),
    decreases s@.len() - k,
{
    let len = s.unicode_len();
    if k == len {
        proof {
            assert(out@ =~= out@ + esc_str(s@.subrange(k as int, s@.len() as int)));
        }
        return ;
    }
    let c = s.get_char(k);
    if c == '"' {
        out.push('\\');
        out.push('"');
    } else if c == '\\' {
        out.push('\\');
        out.push('\\');
    } else if (c as u32) < 0x20 {
        out.push('\\');
        out.push('u');
        out.push('0');
        out.push('0');
        let u = c as u32;
        push_rad(out, (u / 16) as u64, 1, 16);
        push_rad(out, (u % 16) as u64, 1, 16);
        proof {
            let m1 = (u / 16) as nat;
            let m2 = (u % 16) as nat;
            assert(rad_chars(m1 / 16, 0, 16) == Seq::<char>::empty());
            assert(rad_chars(m2 / 16, 0, 16) == Seq::<char>::empty());
            assert(rad_chars(m1, 1, 16) =~= seq![rad_char((m1 % 16) as int)]);
            assert(rad_chars(m2, 1, 16) =~= seq![rad_char((m2 % 16) as int)]);
            assert((m1 % 16) as int == u as int / 16);
            assert((m2 % 16) as int == u as int % 16);
        }
    } else {
        out.push(c);
    }
    proof {
        assert(out@ =~= old(out)@ + esc_char(s@[k as int]));
    }
    push_esc(out, s, k + 1);
    proof {
        let tail = s@.subrange(k as int, s@.len() as int);
        assert(tail.drop_first() =~= s@.subrange(k as int + 1, s@.len() as int));
        assert(tail[0] == s@[k as int]);
        assert(out@ =~= old(out)@ + esc_str(tail));
    }
}

/// Appends a JSON string literal.
fn push_json_str(out: &mut Vec<char>, s: &str)
    ensures
        final(out)@ == old(out)@ + json_str(s@),
{
    out.push('"');
    push_esc(out, s, 0);
    out.push('"');
    proof {
        assert(s@.subrange(0, s@.len() as int) =~= s@);
        assert(out@ =~= old(out)@ + json_str(s@));
    }
}

/// Appends a serialized timestamp.
fn push_ts(out: &mut Vec<char>, t: &Timestamp)
    ensures
        final(out)@ == old(out)@ + ts_chars(*t),
{
    push_rad(out, t.year as u64, 4, 10);
    out.push('-');
    push_rad(out, t.month as u64, 2, 10);
    out.push('-');
    push_rad(out, t.day as u64, 2, 10);
    out.push('T');
    push_rad(out, t.hour as u64, 2, 10);
    out.push(':');
    push_rad(out, t.minute as u64, 2, 10);
    out.push(':');
    push_rad(out, t.second as u64, 2, 10);
    out.push('Z');
    proof {
        assert(out@ =~= old(out)@ + ts_chars(*t));
    }
}

/// Appends the quoted timestamps of l from index k on, comma-separated.
fn push_ts_list(out: &mut Vec<char>, l: &Vec<Timestamp>, k: usize)
    requires
        k < l.len(),
    ensures
        final(out)@ == old(out)@ + ts_list_chars(l@.subrange(k as int, l@.len() as int)),
    decreases l.len() - k,
{
    out.push('"');
    push_ts(out, &l[k]);
    out.push('"');
    let ghost tail = l@.subrange(k as int, l@.len() as int);
    if k + 1 < l.len() {
        out.push(',');
        out.push(' ');
        push_ts_list(out, l, k + 1);
        proof {
            assert(tail.drop_first() =~= l@.subrange(k as int + 1, l@.len() as int));
            assert(tail[0] == l@[k as int]);
            assert(out@ =~= old(out)@ + ts_list_chars(tail));
        }
    } else {
        proof {
            assert(tail.len() == 1 && tail[0] == l@[k as int]);
            assert(out@ =~= old(out)@ + ts_list_chars(tail));
        }
    }
}

/// Appends the unique id's canonical textual form.
fn push_uuid(out: &mut Vec<char>, id: u128)
    ensures
        final(out)@ == old(out)@ + uuid_chars(id),
{
    let s1 = id / 0x1000000000000000000000000u128;
    let r1 = id % 0x1000000000000000000000000u128;
    let s2 = r1 / 0x100000000000000000000u128;
    let r2 = r1 % 0x100000000000000000000u128;
    let s3 = r2 / 0x10000000000000000u128;
    let r3 = r2 % 0x10000000000000000u128;
    let s4 = r3 / 0x1000000000000u128;
    let s5 = r3 % 0x1000000000000u128;
    push_rad(out, s1 as u64, 8, 16);
    out.push('-');
    push_rad(out, s2 as u64, 4, 16);
    out.push('-');
    push_rad(out, s3 as u64, 4, 16);
    out.push('-');
    push_rad(out, s4 as u64, 4, 16);
    out.push('-');
    push_rad(out, s5 as u64, 12, 16);
    proof {
        assert(out@ =~= old(out)@ + uuid_chars(id));
    }
}

/// Appends one record object.
#[verifier::spinoff_prover]
#[verifier::rlimit(100)]
fn push_habit(out: &mut Vec<char>, h: &Habit)
    ensures
        final(out)@ == old(out)@ + habit_chars(h@),
{
    let ghost h0 = old(out)@;
    push_str_chars(out, "{\n      \"id\": \"");
    push_uuid(out, h.id);
    let ghost a1 = "{\n      \"id\": \""@ + uuid_chars(h@.id);
    proof {
        assert(out@ =~= h0 + a1);
    }
    push_str_chars(out, "\",\n      \"name\": ");
    push_json_str(out, h.name.as_str());
    let ghost a2 = a1 + "\",\n      \"name\": "@ + json_str(h@.name);
    proof {
        assert(out@ =~= h0 + a2);
    }
    push_str_chars(out, ",\n      \"description\": ");
    match &h.description {
        Some(d) => push_json_str(out, d.as_str()),
        None => push_str_chars(out, "null"),
    }
    let ghost a3 = a2 + ",\n      \"description\": "@ + opt_str_chars(h@.description);
    proof {
        assert(out@ =~= h0 + a3);
    }
    push_str_chars(out, ",\n      \"created_at\": \"");
    push_ts(out, &h.created_at);
    let ghost a4 = a3 + ",\n      \"created_at\": \""@ + ts_chars(h@.created_at);
    proof {
        assert(out@ =~= h0 + a4);
    }
    push_str_chars(out, "\",\n      \"completions\": [");
    if h.completions.len() > 0 {
        push_ts_list(out, &h.completions, 0);
        proof {
            assert(h.completions@.subrange(0, h.completions@.len() as int) =~= h.completions@);
        }
    } else {
        proof {
            assert(ts_list_chars(h.completions@) =~= Seq::<char>::empty());
        }
    }
    let ghost a5 = a4 + "\",\n      \"completions\": ["@ + ts_list_chars(h@.completions);
    proof {
        assert(out@ =~= h0 + a5);
    }
    push_str_chars(out, "],\n      \"target_frequency\": ");
    match &h.target_frequency {
        Some(v) => push_dec(out, *v as u64),
        None => push_str_chars(out, "null"),
    }
    let ghost a6 = a5 + "],\n      \"target_frequency\": "@ + opt_dec_chars(h@.target_frequency);
    proof {
        assert(out@ =~= h0 + a6);
    }
    push_str_chars(out, ",\n      \"is_active\": ");
    if h.is_active {
        push_str_chars(out, "true");
    } else {
        push_str_chars(out, "false");
    }
    push_str_chars(out, "\n    }");
    let ghost a7 = a6 + ",\n      \"is_active\": "@ + bool_chars(h@.is_active) + "\n    }"@;
    proof {
        assert(out@ =~= h0 + a7);
        assert(a7 =~= habit_chars(h@));
    }
}

/// Appends the records of the store from index k on, comma-separated.
#[verifier::spinoff_prover]
#[verifier::rlimit(100)]
fn push_habit_list(out: &mut Vec<char>, habits: &Vec<Habit>, k: usize)
    requires
        k < habits.len(),
    ensures
        final(out)@ == old(out)@ + habit_list_chars(
            habits@.map_values(|h: Habit| h@).subrange(k as int, habits@.len() as int),
        ),
    decreases habits.len() - k,
{
    let ghost sv = habits@.map_values(|h: Habit| h@);
    let ghost tail = sv.subrange(k as int, sv.len() as int);
    push_habit(out, &habits[k]);
    if k + 1 < habits.len() {
        push_str_chars(out, ",\n    ");
        push_habit_list(out, habits, k + 1);
        proof {
            assert(tail.drop_first() =~= sv.subrange(k as int + 1, sv.len() as int));
            assert(tail[0] == sv[k as int]);
            assert(out@ =~= old(out)@ + habit_list_chars(tail));
        }
    } else {
        proof {
            assert(tail.len() == 1 && tail[0] == sv[k as int]);
            assert(out@ =~= old(out)@ + habit_list_chars(tail));
        }
    }
}

impl HabitStore {
    /// Serializes the whole collection as the pretty backing document.
    pub fn render_json(&self) -> (r: Vec<char>)
        ensures
            r@ == render_store_spec(self@),
    {
        let mut out: Vec<char> = Vec::new();
        push_str_chars(&mut out, "{\n  \"habits\": [");
        if self.habits.len() == 0 {
            push_str_chars(&mut out, "]\n}");
        } else {
            push_str_chars(&mut out, "\n    ");
            push_habit_list(&mut out, &self.habits, 0);
            push_str_chars(&mut out, "\n  ]\n}");
            proof {
                assert(self@.subrange(0, self@.len() as int) =~= self@);
            }
        }
        proof {
            assert(out@ =~= render_store_spec(self@));
        }
        out
    }

    /// Serializes the collection to a string, for the caller that writes the
    /// backing file.
    pub fn render_json_string(&self) -> (r: String)
        ensures
            r@ == render_store_spec(self@),
    {
        let out = self.render_json();
        chars_to_string(&out)
    }
}

/// Checks the given literal at position i.
fn expect_lit(t: &Vec<char>, i: usize, l: &str) -> (r: Option<usize>)
    ensures
        (match r {
            Some(j) => p_lit(t@, i as int, l@) == Some(j as int) && i <= j <= t.len(),
            None => p_lit(t@, i as int, l@) is None,
        }),
{
    let ll = l.unicode_len();
    if i > t.len() || ll > t.len() - i {
        return None;
    }
    let mut k: usize = 0;
    while k < ll
        invariant
            ll == l@.len(),
            i + ll <= t.len(),
            k <= ll,
            forall|m: int| 0 <= m < k ==> t@[i + m] == l@[m],
        decreases ll - k,
    {
        if t[i + k] != l.get_char(k) {
            proof {
                assert(t@.subrange(i as int, i as int + ll) != l@) by {
                    assert(t@.subrange(i as int, i as int + ll)[k as int] == t@[i + k]);
                }
            }
            return None;
        }
        k += 1;
    }
    proof {
        assert(t@.subrange(i as int, i as int + ll) =~= l@);
    }
    Some(i + ll)
}

/// Checks one character at position i.
fn expect_char(t: &Vec<char>, i: usize, c: char) -> (r: Option<usize>)
    ensures
        (match r {
            Some(j) => p_lit(t@, i as int, seq![c]) == Some(j as int) && i < j <= t.len(),
            None => p_lit(t@, i as int, seq![c]) is None,
        }),
{
    if i < t.len() && t[i] == c {
        proof {
            assert(t@.subrange(i as int, i as int + 1) =~= seq![c]);
        }
        Some(i + 1)
    } else {
        proof {
            if i < t.len() {
                assert(t@.subrange(i as int, i as int + 1)[0] == t@[i as int]);
            }
        }
        None
    }
}

/// Reads one escape sequence.
fn parse_escape(t: &Vec<char>, i: usize) -> (r: Option<(char, usize)>)
    ensures
        (match r {
            Some((c, j)) => p_escape(t@, i as int) == Some((c, j as int)) && i < j <= t.len(),
            None => p_escape(t@, i as int) is None,
        }),
{
    if i < t.len() && i + 1 < t.len() && t[i] == '\\' {
        let e = t[i + 1];
        if e == '"' {
            Some(('"', i + 2))
        } else if e == '\\' {
            Some(('\\', i + 2))
        } else if e == '/' {
            Some(('/', i + 2))
        } else if e == 'n' {
            Some(('\n', i + 2))
        } else if e == 't' {
            Some(('\t', i + 2))
        } else if e == 'r' {
            Some(('\r', i + 2))
        } else if e == 'u' {
            proof {
                reveal_with_fuel(crate::num::npow, 6);
            }
            match parse_rad(t, i + 2, 4, 16) {
                Some((v, j)) => {
                    if v < 0x20 {
                        proof {
                            lemma_p_rad_pos(t@, i as int + 2, 4, 16, 0);
                        }
                        Some(((v as u8) as char, j))
                    } else {
                        None
                    }
                },
                None => None,
            }
        } else {
            None
        }
    } else {
        None
    }
}

/// Reads string content up to and including the closing quote.
fn parse_str_body(t: &Vec<char>, i: usize) -> (r: Option<(Vec<char>, usize)>)
    requires
        i <= t.len(),
    ensures
        (match r {
            Some((v, j)) => p_str_body(t@, i as int) == Some((v@, j as int)) && i < j <= t.len(),
            None => p_str_body(t@, i as int) is None,
        }),
    decreases t.len() - i,
{
    if i < t.len() {
        let c = t[i];
        if c == '"' {
            let v: Vec<char> = Vec::new();
            proof {
                assert(v@ =~= Seq::<char>::empty());
            }
            Some((v, i + 1))
        } else if c == '\\' {
            match parse_escape(t, i) {
                Some((e, j)) => {
                    match parse_str_body(t, j) {
                        Some((mut rest, end)) => {
                            let ghost restv = rest@;
                            rest.insert(0, e);
                            proof {
                                assert(rest@ =~= seq![e] + restv);
                            }
                            Some((rest, end))
                        },
                        None => None,
                    }
                },
                None => None,
            }
        } else if (c as u32) >= 0x20 {
            match parse_str_body(t, i + 1) {
                Some((mut rest, end)) => {
                    let ghost restv = rest@;
                    rest.insert(0, c);
                    proof {
                        assert(rest@ =~= seq![c] + restv);
                    }
                    Some((rest, end))
                },
                None => None,
            }
        } else {
            None
        }
    } else {
        None
    }
}

/// Reads a quoted JSON string.
fn parse_string(t: &Vec<char>, i: usize) -> (r: Option<(Vec<char>, usize)>)
    requires
        i <= t.len(),
    ensures
        (match r {
            Some((v, j)) => p_string(t@, i as int) == Some((v@, j as int)) && i < j <= t.len(),
            None => p_string(t@, i as int) is None,
        }),
{
    if i < t.len() && t[i] == '"' {
        parse_str_body(t, i + 1)
    } else {
        None
    }
}

/// Reads a serialized timestamp.
fn parse_ts(t: &Vec<char>, i: usize) -> (r: Option<(Timestamp, usize)>)
    requires
        i <= t.len(),
    ensures
        (match r {
            Some((ts, j)) => p_ts(t@, i as int) == Some((ts, j as int)) && i < j <= t.len()
                && ts.valid(),
            None => p_ts(t@, i as int) is None,
        }),
{
    proof {
        reveal_with_fuel(crate::num::npow, 6);
    }
    let r1 = parse_rad(t, i, 4, 10);
    let (y, i1) = match r1 {
        Some(p) => p,
        None => {
            return None;
        },
    };
    let i2 = match expect_char(t, i1, '-') {
        Some(j) => j,
        None => {
            return None;
        },
    };
    let (mo, i3) = match parse_rad(t, i2, 2, 10) {
        Some(p) => p,
        None => {
            return None;
        },
    };
    let i4 = match expect_char(t, i3, '-') {
        Some(j) => j,
        None => {
            return None;
        },
    };
    let (d, i5) = match parse_rad(t, i4, 2, 10) {
        Some(p) => p,
        None => {
            return None;
        },
    };
    let i6 = match expect_char(t, i5, 'T') {
        Some(j) => j,
        None => {
            return None;
        },
    };
    let (h, i7) = match parse_rad(t, i6, 2, 10) {
        Some(p) => p,
        None => {
            return None;
        },
    };
    let i8 = match expect_char(t, i7, ':') {
        Some(j) => j,
        None => {
            return None;
        },
    };
    let (mi, i9) = match parse_rad(t, i8, 2, 10) {
        Some(p) => p,
        None => {
            return None;
        },
    };
    let i10 = match expect_char(t, i9, ':') {
        Some(j) => j,
        None => {
            return None;
        },
    };
    let (sec, i11) = match parse_rad(t, i10, 2, 10) {
        Some(p) => p,
        None => {
            return None;
        },
    };
    let i12 = match expect_char(t, i11, 'Z') {
        Some(j) => j,
        None => {
            return None;
        },
    };
    let ts = Timestamp {
        year: y as u32,
        month: mo as u32,
        day: d as u32,
        hour: h as u32,
        minute: mi as u32,
        second: sec as u32,
    };
    if ts.check_valid() {
        proof {
            lemma_p_rad_pos(t@, i as int, 4, 10, 0);
        }
        Some((ts, i12))
    } else {
        None
    }
}

/// Reads a quoted timestamp.
fn parse_quoted_ts(t: &Vec<char>, i: usize) -> (r: Option<(Timestamp, usize)>)
    requires
        i <= t.len(),
    ensures
        (match r {
            Some((ts, j)) => p_quoted_ts(t@, i as int) == Some((ts, j as int)) && i < j
                <= t.len() && ts.valid(),
            None => p_quoted_ts(t@, i as int) is None,
        }),
{
    let i1 = match expect_char(t, i, '"') {
        Some(j) => j,
        None => {
            return None;
        },
    };
    let (ts, i2) = match parse_ts(t, i1) {
        Some(p) => p,
        None => {
            return None;
        },
    };
    match expect_char(t, i2, '"') {
        Some(i3) => Some((ts, i3)),
        None => None,
    }
}

/// Reads one or more quoted timestamps, comma-separated.
fn parse_ts_list(t: &Vec<char>, i: usize) -> (r: Option<(Vec<Timestamp>, usize)>)
    requires
        i <= t.len(),
    ensures
        (match r {
            Some((v, j)) => p_ts_list(t@, i as int) == Some((v@, j as int)) && i < j <= t.len()
                && (forall|k: int| 0 <= k < v@.len() ==> (#[trigger] v@[k]).valid()),
            None => p_ts_list(t@, i as int) is None,
        }),
    decreases t.len() - i,
{
    proof {
        reveal_strlit(", ");
        assert(", "@ =~= seq![',', ' ']);
    }
    let (ts, j) = match parse_quoted_ts(t, i) {
        Some(p) => p,
        None => {
            return None;
        },
    };
    if j < t.len() && t[j] == ',' {
        let j2 = match expect_lit(t, j, ", ") {
            Some(p) => p,
            None => {
                return None;
            },
        };
        match parse_ts_list(t, j2) {
            Some((mut rest, k)) => {
                rest.insert(0, ts);
                proof {
                    assert(rest@ =~= seq![ts] + rest@.subrange(1, rest@.len() as int));
                }
                Some((rest, k))
            },
            None => None,
        }
    } else {
        let mut v: Vec<Timestamp> = Vec::new();
        v.push(ts);
        proof {
            assert(v@ =~= seq![ts]);
        }
        Some((v, j))
    }
}

/// Reads the unique id's textual form.
fn parse_uuid_chars(t: &Vec<char>, i: usize) -> (r: Option<(u128, usize)>)
    requires
        i <= t.len(),
    ensures
        (match r {
            Some((id, j)) => p_uuid(t@, i as int) == Some((id, j as int)) && i < j <= t.len(),
            None => p_uuid(t@, i as int) is None,
        }),
{
    proof {
        reveal_with_fuel(crate::num::npow, 14);
    }
    let (s1, i1) = match parse_rad(t, i, 8, 16) {
        Some(p) => p,
        None => {
            return None;
        },
    };
    let i2 = match expect_char(t, i1, '-') {
        Some(j) => j,
        None => {
            return None;
        },
    };
    let (s2, i3) = match parse_rad(t, i2, 4, 16) {
        Some(p) => p,
        None => {
            return None;
        },
    };
    let i4 = match expect_char(t, i3, '-') {
        Some(j) => j,
        None => {
            return None;
        },
    };
    let (s3, i5) = match parse_rad(t, i4, 4, 16) {
        Some(p) => p,
        None => {
            return None;
        },
    };
    let i6 = match expect_char(t, i5, '-') {
        Some(j) => j,
        None => {
            return None;
        },
    };
    let (s4, i7) = match parse_rad(t, i6, 4, 16) {
        Some(p) => p,
        None => {
            return None;
        },
    };
    let i8 = match expect_char(t, i7, '-') {
        Some(j) => j,
        None => {
            return None;
        },
    };
    let (s5, i9) = match parse_rad(t, i8, 12, 16) {
        Some(p) => p,
        None => {
            return None;
        },
    };
    let v: u128 = (s1 as u128) * 0x1000000000000000000000000u128 + (s2 as u128)
        * 0x100000000000000000000u128 + (s3 as u128) * 0x10000000000000000u128 + (s4 as u128)
        * 0x1000000000000u128 + (s5 as u128);
    proof {
        lemma_p_rad_pos(t@, i as int, 8, 16, 0);
    }
    Some((v, i9))
}

/// Reads a string or the word "null".
fn parse_opt_string(t: &Vec<char>, i: usize) -> (r: Option<(Option<Vec<char>>, usize)>)
    requires
        i <= t.len(),
    ensures
        (match r {
            Some((v, j)) => p_opt_string(t@, i as int) == Some(
                (
                    match v {
                        Some(vv) => Some(vv@),
                        None => None,
                    },
                    j as int,
                ),
            ) && i < j <= t.len(),
            None => p_opt_string(t@, i as int) is None,
        }),
{
    if i < t.len() && t[i] == '"' {
        match parse_string(t, i) {
            Some((s, j)) => Some((Some(s), j)),
            None => None,
        }
    } else {
        match expect_lit(t, i, "null") {
            Some(j) => {
                proof {
                    reveal_strlit("null");
                }
                Some((None, j))
            },
            None => None,
        }
    }
}

/// Reads a 32-bit decimal or the word "null".
fn parse_opt_dec(t: &Vec<char>, i: usize) -> (r: Option<(Option<u32>, usize)>)
    requires
        i <= t.len(),
    ensures
        (match r {
            Some((v, j)) => p_opt_dec(t@, i as int) == Some((v, j as int)) && i < j <= t.len(),
            None => p_opt_dec(t@, i as int) is None,
        }),
{
    if i < t.len() && t[i] == 'n' {
        match expect_lit(t, i, "null") {
            Some(j) => {
                proof {
                    reveal_strlit("null");
                }
                Some((None, j))
            },
            None => None,
        }
    } else {
        match parse_dec_var(t, i) {
            Some((v, j)) => Some((Some(v), j)),
            None => None,
        }
    }
}

/// Reads the optional active flag and the record's closing brace.
fn parse_active_close(t: &Vec<char>, i: usize) -> (r: Option<(bool, usize)>)
    requires
        i <= t.len(),
    ensures
        (match r {
            Some((b, j)) => p_active_close(t@, i as int) == Some((b, j as int)) && i < j
                <= t.len(),
            None => p_active_close(t@, i as int) is None,
        }),
{
    if i < t.len() && t[i] == ',' {
        let j = match expect_lit(t, i, ",\n      \"is_active\": ") {
            Some(j) => j,
            None => {
                return None;
            },
        };
        proof {
            reveal_strlit(",\n      \"is_active\": ");
        }
        let (b, j2) = if j < t.len() && t[j] == 't' {
            match expect_lit(t, j, "true") {
                Some(j2) => (true, j2),
                None => {
                    return None;
                },
            }
        } else {
            match expect_lit(t, j, "false") {
                Some(j2) => (false, j2),
                None => {
                    return None;
                },
            }
        };
        match expect_lit(t, j2, "\n    }") {
            Some(j3) => {
                proof {
                    reveal_strlit("\n    }");
                }
                Some((b, j3))
            },
            None => None,
        }
    } else {
        match expect_lit(t, i, "\n    }") {
            Some(j) => {
                proof {
                    reveal_strlit("\n    }");
                }
                Some((true, j))
            },
            None => None,
        }
    }
}

/// Checks that a completion history is strictly sorted with unique dates.
fn check_completions_wf(v: &Vec<Timestamp>) -> (r: bool)
    ensures
        r == completions_wf(v@),
{
    let n = v.len();
    let mut a: usize = 0;
    while a < n
        invariant
            n == v.len(),
            a <= n,
            forall|x: int, y: int|
                0 <= x < y < n && x < a ==> v@[x].lt(v@[y]) && !v@[x].same_date(v@[y]),
        decreases n - a,
    {
        let mut b: usize = a + 1;
        while b < n
            invariant
                n == v.len(),
                a < n,
                a + 1 <= b <= n,
                forall|y: int| a < y < b ==> v@[a as int].lt(v@[y]) && !v@[a as int].same_date(
                    v@[y],
                ),
            decreases n - b,
        {
            if !v[a].time_lt(&v[b]) || v[a].date_eq(&v[b]) {
                return false;
            }
            b += 1;
        }
        a += 1;
    }
    true
}

/// Reads one record object.
#[verifier::rlimit(100)]
fn parse_habit(t: &Vec<char>, i: usize) -> (r: Option<(Habit, usize)>)
    requires
        i <= t.len(),
    ensures
        (match r {
            Some((h, j)) => p_habit(t@, i as int) == Some((h@, j as int)) && i < j <= t.len()
                && h@.wf(),
            None => p_habit(t@, i as int) is None,
        }),
{
    let i1 = match expect_lit(t, i, "{\n      \"id\": \"") {
        Some(j) => j,
        None => {
            return None;
        },
    };
    let (id, i2) = match parse_uuid_chars(t, i1) {
        Some(p) => p,
        None => {
            return None;
        },
    };
    let i3 = match expect_lit(t, i2, "\",\n      \"name\": ") {
        Some(j) => j,
        None => {
            return None;
        },
    };
    let (namev, i4) = match parse_string(t, i3) {
        Some(p) => p,
        None => {
            return None;
        },
    };
    let i5 = match expect_lit(t, i4, ",\n      \"description\": ") {
        Some(j) => j,
        None => {
            return None;
        },
    };
    let (descv, i6) = match parse_opt_string(t, i5) {
        Some(p) => p,
        None => {
            return None;
        },
    };
    let i7 = match expect_lit(t, i6, ",\n      \"created_at\": \"") {
        Some(j) => j,
        None => {
            return None;
        },
    };
    let (created_at, i8) = match parse_ts(t, i7) {
        Some(p) => p,
        None => {
            return None;
        },
    };
    let i9 = match expect_lit(t, i8, "\",\n      \"completions\": [") {
        Some(j) => j,
        None => {
            return None;
        },
    };
    let (completions, i10) = if i9 < t.len() && t[i9] == '"' {
        match parse_ts_list(t, i9) {
            Some(p) => p,
            None => {
                return None;
            },
        }
    } else {
        let v: Vec<Timestamp> = Vec::new();
        proof {
            assert(v@ =~= Seq::<Timestamp>::empty());
        }
        (v, i9)
    };
    let i11 = match expect_lit(t, i10, "],\n      \"target_frequency\": ") {
        Some(j) => j,
        None => {
            return None;
        },
    };
    let (target_frequency, i12) = match parse_opt_dec(t, i11) {
        Some(p) => p,
        None => {
            return None;
        },
    };
    let (is_active, i13) = match parse_active_close(t, i12) {
        Some(p) => p,
        None => {
            return None;
        },
    };
    if !check_completions_wf(&completions) {
        return None;
    }
    let h = Habit {
        id,
        name: chars_to_string(&namev),
        description: match &descv {
            Some(d) => Some(chars_to_string(d)),
            None => None,
        },
        created_at,
        completions,
        target_frequency,
        is_active,
    };
    Some((h, i13))
}

/// Reads one or more records, comma-separated; fuel bounds the count.
fn parse_habits(t: &Vec<char>, i: usize, fuel: usize) -> (r: Option<(Vec<Habit>, usize)>)
    requires
        i <= t.len(),
    ensures
        (match r {
            Some((v, j)) => p_habits(t@, i as int, fuel as nat) == Some(
                (v@.map_values(|h: Habit| h@), j as int),
            ) && i < j <= t.len() && crate::store::store_wf(v@.map_values(|h: Habit| h@)),
            None => p_habits(t@, i as int, fuel as nat) is None,
        }),
    decreases fuel,
{
    if fuel == 0 {
        return None;
    }
    proof {
        reveal_strlit(",\n    ");
    }
    let (h, j) = match parse_habit(t, i) {
        Some(p) => p,
        None => {
            return None;
        },
    };
    if j < t.len() && t[j] == ',' {
        let j2 = match expect_lit(t, j, ",\n    ") {
            Some(p) => p,
            None => {
                return None;
            },
        };
        match parse_habits(t, j2, fuel - 1) {
            Some((mut rest, k)) => {
                let ghost hv = h@;
                let ghost restv = rest@.map_values(|x: Habit| x@);
                rest.insert(0, h);
                proof {
                    assert(rest@.map_values(|x: Habit| x@) =~= seq![hv] + restv);
                }
                Some((rest, k))
            },
            None => None,
        }
    } else {
        let ghost hv = h@;
        let mut v: Vec<Habit> = Vec::new();
        v.push(h);
        proof {
            assert(v@.map_values(|x: Habit| x@) =~= seq![hv]);
        }
        Some((v, j))
    }
}

/// Turns a string into its character sequence.
pub fn str_chars(s: &str) -> (r: Vec<char>)
    ensures
        r@ == s@,
{
    let len = s.unicode_len();
    let mut v: Vec<char> = Vec::new();
    let mut i: usize = 0;
    while i < len
        invariant
            len == s@.len(),
            i <= len,
            v@ == s@.subrange(0, i as int),
        decreases len - i,
    {
        v.push(s.get_char(i));
        proof {
            assert(v@ =~= s@.subrange(0, i as int + 1));
        }
        i += 1;
    }
    proof {
        assert(v@ =~= s@);
    }
    v
}

impl HabitStore {
    /// Parses the backing document. A document that does not hold the
    /// expected format is refused as corrupt.
    pub fn parse_json(text: &Vec<char>) -> (r: Result<HabitStore, HabitError>)
        ensures
            (match r {
                Ok(s) => parse_store_spec(text@) == Some(s@) && crate::store::store_wf(s@),
                Err(e) => parse_store_spec(text@) is None && e@ is Corrupt,
            }),
    {
        let t = text;
        proof {
            reveal_strlit("{\n  \"habits\": [");
            reveal_strlit("]\n}");
            reveal_strlit("\n    ");
            reveal_strlit("\n  ]\n}");
        }
        let i0 = match expect_lit(t, 0, "{\n  \"habits\": [") {
            Some(j) => j,
            None => {
                return Err(HabitError::Corrupt(String::from_str(
                    "the backing file does not hold the expected format",
                )));
            },
        };
        if i0 < t.len() && t[i0] == ']' {
            match expect_lit(t, i0, "]\n}") {
                Some(e) => {
                    if e == t.len() {
                        let s = HabitStore { habits: Vec::new() };
                        proof {
                            assert(s@ =~= Seq::<HabitView>::empty());
                        }
                        Ok(s)
                    } else {
                        Err(HabitError::Corrupt(String::from_str(
                            "the backing file does not hold the expected format",
                        )))
                    }
                },
                None => Err(HabitError::Corrupt(String::from_str(
                    "the backing file does not hold the expected format",
                ))),
            }
        } else {
            let i1 = match expect_lit(t, i0, "\n    ") {
                Some(j) => j,
                None => {
                    return Err(HabitError::Corrupt(String::from_str(
                        "the backing file does not hold the expected format",
                    )));
                },
            };
            let (habits, i2) = match parse_habits(t, i1, t.len()) {
                Some(p) => p,
                None => {
                    return Err(HabitError::Corrupt(String::from_str(
                        "the backing file does not hold the expected format",
                    )));
                },
            };
            match expect_lit(t, i2, "\n  ]\n}") {
                Some(e) => {
                    if e == t.len() {
                        let s = HabitStore { habits };
                        Ok(s)
                    } else {
                        Err(HabitError::Corrupt(String::from_str(
                            "the backing file does not hold the expected format",
                        )))
                    }
                },
                None => Err(HabitError::Corrupt(String::from_str(
                    "the backing file does not hold the expected format",
                ))),
            }
        }
    }

    /// Parses the backing document from a string.
    pub fn parse_json_str(text: &str) -> (r: Result<HabitStore, HabitError>)
        ensures
            (match r {
                Ok(s) => parse_store_spec(text@) == Some(s@) && crate::store::store_wf(s@),
                Err(e) => parse_store_spec(text@) is None && e@ is Corrupt,
            }),
    {
        let v = str_chars(text);
        Self::parse_json(&v)
    }
}

} // verus!

// ------------------------------------------------------------- round trip
verus! {

/// A concatenation inside a text splits into its two parts.
proof fn lemma_sub_split(t: Seq<char>, i: int, a: Seq<char>, b: Seq<char>)
    requires
        0 <= i,
        i + a.len() + b.len() <= t.len(),
        t.subrange(i, i + a.len() + b.len()) == a + b,
    ensures
        t.subrange(i, i + a.len()) == a,
        t.subrange(i + a.len(), i + a.len() + b.len()) == b,
{
    assert(t.subrange(i, i + a.len()) =~= a) by {
        assert forall|k: int| 0 <= k < a.len() implies t.subrange(i, i + a.len())[k] == a[k] by {
            assert(t.subrange(i, i + a.len() + b.len())[k] == (a + b)[k]);
        }
    }
    assert(t.subrange(i + a.len(), i + a.len() + b.len()) =~= b) by {
        assert forall|k: int| 0 <= k < b.len() implies t.subrange(
            i + a.len(),
            i + a.len() + b.len(),
        )[k] == b[k] by {
            assert(t.subrange(i, i + a.len() + b.len())[a.len() + k] == (a + b)[a.len() + k]);
            assert((a + b)[a.len() + k] == b[k]);
            assert(t.subrange(i + a.len(), i + a.len() + b.len())[k] == t[i + a.len() + k]);
            assert(t.subrange(i, i + a.len() + b.len())[a.len() + k] == t[i + a.len() + k]);
        }
    }
}

/// A rendered literal at its position parses as that literal.
proof fn lemma_rt_lit(t: Seq<char>, i: int, l: Seq<char>)
    requires
        0 <= i,
        i + l.len() <= t.len(),
        t.subrange(i, i + l.len()) == l,
    ensures
        p_lit(t, i, l) == Some(i + l.len()),
{
}

/// A rendered timestamp parses back to the same timestamp.
proof fn lemma_rt_ts(t: Seq<char>, i: int, ts: Timestamp)
    requires
        ts.valid(),
        0 <= i,
        i + 20 <= t.len(),
        t.subrange(i, i + 20) == ts_chars(ts),
    ensures
        ts_chars(ts).len() == 20,
        p_ts(t, i) == Some((ts, i + 20)),
{
    reveal_with_fuel(crate::num::npow, 6);
    let y = rad_chars(ts.year as nat, 4, 10);
    let mo = rad_chars(ts.month as nat, 2, 10);
    let d = rad_chars(ts.day as nat, 2, 10);
    let h = rad_chars(ts.hour as nat, 2, 10);
    let mi = rad_chars(ts.minute as nat, 2, 10);
    let sec = rad_chars(ts.second as nat, 2, 10);
    crate::num::lemma_rad_chars_len(ts.year as nat, 4, 10);
    crate::num::lemma_rad_chars_len(ts.month as nat, 2, 10);
    crate::num::lemma_rad_chars_len(ts.day as nat, 2, 10);
    crate::num::lemma_rad_chars_len(ts.hour as nat, 2, 10);
    crate::num::lemma_rad_chars_len(ts.minute as nat, 2, 10);
    crate::num::lemma_rad_chars_len(ts.second as nat, 2, 10);
    let whole = ts_chars(ts);
    assert(whole.len() == 20);
    assert(t.subrange(i, i + 4) =~= y) by {
        assert forall|k: int| 0 <= k < 4 implies t.subrange(i, i + 4)[k] == y[k] by {
            assert(t.subrange(i, i + 20)[k] == whole[k]);
            assert(whole[k] == y[k]);
        }
    }
    assert forall|k: int| 0 <= k < 20 implies t[i + k] == whole[k] by {
        assert(t.subrange(i, i + 20)[k] == whole[k]);
    }
    crate::num::lemma_p_rad_of_rad_chars(t, i, ts.year as nat, 4, 10, 0);
    assert(t.subrange(i + 5, i + 7) =~= mo) by {
        assert forall|k: int| 0 <= k < 2 implies t.subrange(i + 5, i + 7)[k] == mo[k] by {
            assert(t[i + 5 + k] == whole[5 + k]);
            assert(whole[5 + k] == mo[k]);
        }
    }
    crate::num::lemma_p_rad_of_rad_chars(t, i + 5, ts.month as nat, 2, 10, 0);
    assert(t.subrange(i + 8, i + 10) =~= d) by {
        assert forall|k: int| 0 <= k < 2 implies t.subrange(i + 8, i + 10)[k] == d[k] by {
            assert(t[i + 8 + k] == whole[8 + k]);
            assert(whole[8 + k] == d[k]);
        }
    }
    crate::num::lemma_p_rad_of_rad_chars(t, i + 8, ts.day as nat, 2, 10, 0);
    assert(t.subrange(i + 11, i + 13) =~= h) by {
        assert forall|k: int| 0 <= k < 2 implies t.subrange(i + 11, i + 13)[k] == h[k] by {
            assert(t[i + 11 + k] == whole[11 + k]);
            assert(whole[11 + k] == h[k]);
        }
    }
    crate::num::lemma_p_rad_of_rad_chars(t, i + 11, ts.hour as nat, 2, 10, 0);
    assert(t.subrange(i + 14, i + 16) =~= mi) by {
        assert forall|k: int| 0 <= k < 2 implies t.subrange(i + 14, i + 16)[k] == mi[k] by {
            assert(t[i + 14 + k] == whole[14 + k]);
            assert(whole[14 + k] == mi[k]);
        }
    }
    crate::num::lemma_p_rad_of_rad_chars(t, i + 14, ts.minute as nat, 2, 10, 0);
    assert(t.subrange(i + 17, i + 19) =~= sec) by {
        assert forall|k: int| 0 <= k < 2 implies t.subrange(i + 17, i + 19)[k] == sec[k] by {
            assert(t[i + 17 + k] == whole[17 + k]);
            assert(whole[17 + k] == sec[k]);
        }
    }
    crate::num::lemma_p_rad_of_rad_chars(t, i + 17, ts.second as nat, 2, 10, 0);
    let a1 = y + seq!['-'];
    let a2 = a1 + mo;
    let a3 = a2 + seq!['-'];
    let a4 = a3 + d;
    let a5 = a4 + seq!['T'];
    let a6 = a5 + h;
    let a7 = a6 + seq![':'];
    let a8 = a7 + mi;
    let a9 = a8 + seq![':'];
    let a10 = a9 + sec;
    assert(whole == a10 + seq!['Z']);
    assert(whole[4] == '-') by {
        assert(a1[4] == '-');
        assert(a2[4] == a1[4] && a3[4] == a2[4] && a4[4] == a3[4] && a5[4] == a4[4] && a6[4]
            == a5[4] && a7[4] == a6[4] && a8[4] == a7[4] && a9[4] == a8[4] && a10[4] == a9[4]);
    }
    assert(whole[7] == '-') by {
        assert(a3[7] == '-');
        assert(a4[7] == a3[7] && a5[7] == a4[7] && a6[7] == a5[7] && a7[7] == a6[7] && a8[7]
            == a7[7] && a9[7] == a8[7] && a10[7] == a9[7]);
    }
    assert(whole[10] == 'T') by {
        assert(a5[10] == 'T');
        assert(a6[10] == a5[10] && a7[10] == a6[10] && a8[10] == a7[10] && a9[10] == a8[10]
            && a10[10] == a9[10]);
    }
    assert(whole[13] == ':') by {
        assert(a7[13] == ':');
        assert(a8[13] == a7[13] && a9[13] == a8[13] && a10[13] == a9[13]);
    }
    assert(whole[16] == ':') by {
        assert(a9[16] == ':');
        assert(a10[16] == a9[16]);
    }
    assert(whole[19] == 'Z');
    assert(t[i + 4] == '-' && t[i + 7] == '-' && t[i + 10] == 'T' && t[i + 13] == ':' && t[i + 16]
        == ':' && t[i + 19] == 'Z');
    assert(t.subrange(i + 4, i + 5) =~= seq!['-']);
    assert(t.subrange(i + 7, i + 8) =~= seq!['-']);
    assert(t.subrange(i + 10, i + 11) =~= seq!['T']);
    assert(t.subrange(i + 13, i + 14) =~= seq![':']);
    assert(t.subrange(i + 16, i + 17) =~= seq![':']);
    assert(t.subrange(i + 19, i + 20) =~= seq!['Z']);
}

} // verus!
