//! Digits and positional numerals: rendering integers as fixed- or
//! variable-width radix strings, parsing them back, and the round-trip
//! lemmas the file codec builds on.

use vstd::prelude::*;
use vstd::string::StrSliceExecFns;

verus! {

/// The sixteen digit characters, lower case.
pub open spec fn rad_char(d: int) -> char {
    if d == 0 {
        '0'
    } else if d == 1 {
        '1'
    } else if d == 2 {
        '2'
    } else if d == 3 {
        '3'
    } else if d == 4 {
        '4'
    } else if d == 5 {
        '5'
    } else if d == 6 {
        '6'
    } else if d == 7 {
        '7'
    } else if d == 8 {
        '8'
    } else if d == 9 {
        '9'
    } else if d == 10 {
        'a'
    } else if d == 11 {
        'b'
    } else if d == 12 {
        'c'
    } else if d == 13 {
        'd'
    } else if d == 14 {
        'e'
    } else {
        'f'
    }
}

/// The value of a digit character in radices up to 16; letters of either
/// case are accepted.
pub open spec fn rad_val(c: char) -> Option<int> {
    let u = c as u32;
    if 48 <= u <= 57 {
        Some((u - 48) as int)
    } else if 97 <= u <= 102 {
        Some((u - 87) as int)
    } else if 65 <= u <= 70 {
        Some((u - 55) as int)
    } else {
        None
    }
}

pub open spec fn npow(b: nat, e: nat) -> nat
    decreases e,
{
    if e == 0 {
        1
    } else {
        b * npow(b, (e - 1) as nat)
    }
}

pub proof fn lemma_npow_pos(b: nat, e: nat)
    requires
        b >= 1,
    ensures
        npow(b, e) >= 1,
    decreases e,
{
    if e > 0 {
        lemma_npow_pos(b, (e - 1) as nat);
        assert(b * npow(b, (e - 1) as nat) >= npow(b, (e - 1) as nat)) by (nonlinear_arith)
            requires
                b >= 1,
                npow(b, (e - 1) as nat) >= 1,
        ;
    }
}

pub proof fn lemma_rad_char_val(d: int)
    requires
        0 <= d < 16,
    ensures
        rad_val(rad_char(d)) == Some(d),
{
}

/// The w low radix-b digits of n, most significant first.
pub open spec fn rad_chars(n: nat, w: nat, b: nat) -> Seq<char>
    decreases w,
{
    if w == 0 {
        Seq::empty()
    } else {
        rad_chars(n / b, (w - 1) as nat, b).push(rad_char((n % b) as int))
    }
}

pub proof fn lemma_rad_chars_len(n: nat, w: nat, b: nat)
    requires
        2 <= b <= 16,
    ensures
        rad_chars(n, w, b).len() == w,
    decreases w,
{
    if w > 0 {
        lemma_rad_chars_len(n / b, (w - 1) as nat, b);
        assert(rad_chars(n, w, b) == rad_chars(n / b, (w - 1) as nat, b).push(
            rad_char((n % b) as int),
        ));
    } else {
        assert(rad_chars(n, 0, b) == Seq::<char>::empty());
    }
}

/// Every character of a radix rendering is a digit of that radix.
pub proof fn lemma_rad_chars_digits(n: nat, w: nat, b: nat)
    requires
        2 <= b <= 16,
    ensures
        forall|k: int|
            0 <= k < w ==> {
                let v = rad_val(#[trigger] rad_chars(n, w, b)[k]);
                v matches Some(d) && 0 <= d < b
            },
    decreases w,
{
    lemma_rad_chars_len(n, w, b);
    if w > 0 {
        let w1 = (w - 1) as nat;
        lemma_rad_chars_digits(n / b, w1, b);
        lemma_rad_chars_len(n / b, w1, b);
        let s = rad_chars(n, w, b);
        let s1 = rad_chars(n / b, w1, b);
        vstd::arithmetic::div_mod::lemma_mod_bound(n as int, b as int);
        lemma_rad_char_val((n % b) as int);
        assert forall|k: int| 0 <= k < w implies {
            let v = rad_val(#[trigger] s[k]);
            v matches Some(d) && 0 <= d < b
        } by {
            if k < w1 {
                assert(s[k] == s1[k]);
            } else {
                assert(s[k] == rad_char((n % b) as int));
            }
        }
    }
}

/// Parses exactly w radix-b digits from position i, most significant first,
/// into an accumulator.
pub open spec fn p_rad(t: Seq<char>, i: int, w: int, b: int, acc: int) -> Option<(int, int)>
    decreases w,
{
    if w <= 0 {
        Some((acc, i))
    } else if 0 <= i && i < t.len() {
        match rad_val(t[i]) {
            Some(d) => if d < b {
                p_rad(t, i + 1, w - 1, b, acc * b + d)
            } else {
                None
            },
            None => None,
        }
    } else {
        None
    }
}

/// Fixed-width parsing splits over widths.
pub proof fn lemma_p_rad_split(t: Seq<char>, i: int, w1: int, w2: int, b: int, acc: int)
    requires
        w1 >= 0,
        w2 >= 0,
    ensures
        p_rad(t, i, w1 + w2, b, acc) == (match p_rad(t, i, w1, b, acc) {
            Some((a, j)) => p_rad(t, j, w2, b, a),
            None => None::<(int, int)>,
        }),
    decreases w1,
{
    if w1 > 0 {
        if 0 <= i && i < t.len() {
            match rad_val(t[i]) {
                Some(d) => {
                    if d < b {
                        lemma_p_rad_split(t, i + 1, w1 - 1, w2, b, acc * b + d);
                    }
                },
                None => {},
            }
        }
    }
}

/// Parsing the fixed-width rendering of n recovers n.
pub proof fn lemma_p_rad_of_rad_chars(t: Seq<char>, i: int, n: nat, w: nat, b: int, acc: int)
    requires
        2 <= b <= 16,
        n < npow(b as nat, w),
        0 <= i,
        i + w <= t.len(),
        t.subrange(i, i + w) == rad_chars(n, w, b as nat),
    ensures
        p_rad(t, i, w as int, b, acc) == Some((acc * npow(b as nat, w) + n, i + w)),
    decreases w,
{
    lemma_rad_chars_len(n, w, b as nat);
    if w == 0 {
        assert(npow(b as nat, 0) == 1);
        assert(p_rad(t, i, 0, b, acc) == Some((acc, i)));
        assert(n == 0);
        assert(acc * npow(b as nat, w) + n == acc) by (nonlinear_arith)
            requires
                npow(b as nat, w) == 1,
                n == 0,
        ;
    } else {
        let w1 = (w - 1) as nat;
        let s = rad_chars(n, w, b as nat);
        let s1 = rad_chars(n / (b as nat), w1, b as nat);
        lemma_rad_chars_len(n / (b as nat), w1, b as nat);
        assert(s == s1.push(rad_char((n % (b as nat)) as int)));
        assert(t.subrange(i, i + w1) =~= s1) by {
            assert forall|k: int| 0 <= k < w1 implies t.subrange(i, i + w1)[k] == s1[k] by {
                assert(t.subrange(i, i + w as int)[k] == s[k]);
                assert(s[k] == s1[k]);
            }
        }
        vstd::arithmetic::div_mod::lemma_fundamental_div_mod(n as int, b as int);
        vstd::arithmetic::div_mod::lemma_mod_bound(n as int, b as int);
        assert(n / (b as nat) < npow(b as nat, w1)) by (nonlinear_arith)
            requires
                b >= 2,
                n < (b as nat) * npow(b as nat, w1),
                n == (b as nat) * (n / (b as nat)) + n % (b as nat),
                n % (b as nat) >= 0,
        ;
        lemma_p_rad_of_rad_chars(t, i, n / (b as nat), w1, b, acc);
        lemma_p_rad_split(t, i, w1 as int, 1, b, acc);
        let a = acc * npow(b as nat, w1) + n / (b as nat);
        assert(t[i + w1] == s[w1 as int]);
        assert(s[w1 as int] == rad_char((n % (b as nat)) as int));
        assert(n % (b as nat) < b) by (nonlinear_arith)
            requires
                b >= 2,
        ;
        lemma_rad_char_val((n % (b as nat)) as int);
        assert(p_rad(t, i + w, 0, b, a * b + n % (b as nat)) == Some(
            (a * b + n % (b as nat), i + w),
        ));
        assert(p_rad(t, i + w1, 1, b, a) == Some((a * b + n % (b as nat), i + w)));
        assert(a * b + n % (b as nat) == acc * npow(b as nat, w) + n) by (nonlinear_arith)
            requires
                a == acc * npow(b as nat, w1) + n / (b as nat),
                npow(b as nat, w) == (b as nat) * npow(b as nat, w1),
                n == (b as nat) * (n / (b as nat)) + n % (b as nat),
                b >= 2,
        ;
        assert(w1 as int + 1 == w as int);
        assert(p_rad(t, i, w as int, b, acc) == Some((a * b + n % (b as nat), i + w)));
    }
}

/// n in decimal, no padding, most significant digit first.
pub open spec fn dec_chars(n: nat) -> Seq<char>
    decreases n,
{
    if n < 10 {
        seq![rad_char(n as int)]
    } else {
        dec_chars(n / 10).push(rad_char((n % 10) as int))
    }
}

/// The unpadded decimal rendering is the fixed-width rendering at its own
/// length, and the value fits that width.
pub proof fn lemma_dec_chars_is_rad(n: nat)
    ensures
        n < npow(10, dec_chars(n).len()),
        dec_chars(n) == rad_chars(n, dec_chars(n).len(), 10),
    decreases n,
{
    if n < 10 {
        assert(rad_chars(n, 0, 10) == Seq::<char>::empty());
        assert(rad_chars(n / 10, 0, 10) == Seq::<char>::empty());
        assert(rad_chars(n, 1, 10) == Seq::<char>::empty().push(rad_char(n as int)));
        assert(dec_chars(n) =~= rad_chars(n, 1, 10));
        assert(npow(10, 1) == 10 * npow(10, 0));
    } else {
        lemma_dec_chars_is_rad(n / 10);
        let l1 = dec_chars(n / 10).len();
        let l = dec_chars(n).len();
        assert(l == l1 + 1);
        assert(npow(10, l) == 10 * npow(10, l1));
        assert(n < 10 * npow(10, l1)) by (nonlinear_arith)
            requires
                n / 10 < npow(10, l1),
                n >= 10,
        ;
        assert(dec_chars(n) =~= rad_chars(n, l, 10));
    }
}

/// Greedy decimal parsing: consumes decimal digits while one is next,
/// folding them into the accumulator.
pub open spec fn p_dec_var(t: Seq<char>, i: int, acc: int) -> (int, int)
    decreases t.len() - i,
{
    if 0 <= i && i < t.len() {
        match rad_val(t[i]) {
            Some(d) => if d < 10 {
                p_dec_var(t, i + 1, acc * 10 + d)
            } else {
                (acc, i)
            },
            None => (acc, i),
        }
    } else {
        (acc, i)
    }
}

/// Greedy parsing never shrinks the accumulator.
pub proof fn lemma_p_dec_var_lower(t: Seq<char>, i: int, acc: int)
    requires
        acc >= 0,
    ensures
        p_dec_var(t, i, acc).0 >= acc,
        p_dec_var(t, i, acc).1 >= i,
    decreases t.len() - i,
{
    if 0 <= i && i < t.len() {
        match rad_val(t[i]) {
            Some(d) => {
                if d < 10 {
                    lemma_p_dec_var_lower(t, i + 1, acc * 10 + d);
                    assert(acc * 10 + d >= acc) by (nonlinear_arith)
                        requires
                            acc >= 0,
                            d >= 0,
                    ;
                }
            },
            None => {},
        }
    }
}

/// Over a run of exactly w digits followed by a non-digit (or the end),
/// greedy parsing agrees with fixed-width parsing.
pub proof fn lemma_p_dec_var_run(t: Seq<char>, i: int, w: int, acc: int, v: int, j: int)
    requires
        w >= 0,
        p_rad(t, i, w, 10, acc) == Some((v, j)),
        j == t.len() || (match rad_val(t[j]) {
            Some(d) => d >= 10,
            None => true,
        }),
    ensures
        p_dec_var(t, i, acc) == (v, j),
    decreases w,
{
    if w == 0 {
    } else {
        match rad_val(t[i]) {
            Some(d) => {
                if d < 10 {
                    lemma_p_dec_var_run(t, i + 1, w - 1, acc * 10 + d, v, j);
                }
            },
            None => {},
        }
    }
}

/// Parsing the decimal rendering of n, with a non-digit (or the end) just
/// after it, recovers n.
pub proof fn lemma_p_dec_var_of_dec_chars(t: Seq<char>, i: int, n: nat)
    requires
        0 <= i,
        i + dec_chars(n).len() <= t.len(),
        t.subrange(i, i + dec_chars(n).len()) == dec_chars(n),
        i + dec_chars(n).len() == t.len() || (match rad_val(t[i + dec_chars(n).len()]) {
            Some(d) => d >= 10,
            None => true,
        }),
    ensures
        p_dec_var(t, i, 0) == (n as int, i + dec_chars(n).len()),
{
    let w = dec_chars(n).len();
    lemma_dec_chars_is_rad(n);
    lemma_p_rad_of_rad_chars(t, i, n, w, 10, 0);
    lemma_p_dec_var_run(t, i, w as int, 0, n as int, i + w);
}

/// The decimal value a string denotes for a 32-bit unsigned parse: an
/// optional leading '+', then one or more decimal digits making up the whole
/// string, with a value that fits.
pub open spec fn spec_parse_u32(s: Seq<char>) -> Option<u32> {
    let start: int = if s.len() > 0 && s[0] == '+' {
        1
    } else {
        0
    };
    let (v, j) = p_dec_var(s, start, 0);
    if j == s.len() && j > start && v <= u32::MAX {
        Some(v as u32)
    } else {
        None
    }
}

fn rad_char_x(d: u8) -> (c: char)
    requires
        d < 16,
    ensures
        c == rad_char(d as int),
{
    if d == 0 {
        '0'
    } else if d == 1 {
        '1'
    } else if d == 2 {
        '2'
    } else if d == 3 {
        '3'
    } else if d == 4 {
        '4'
    } else if d == 5 {
        '5'
    } else if d == 6 {
        '6'
    } else if d == 7 {
        '7'
    } else if d == 8 {
        '8'
    } else if d == 9 {
        '9'
    } else if d == 10 {
        'a'
    } else if d == 11 {
        'b'
    } else if d == 12 {
        'c'
    } else if d == 13 {
        'd'
    } else if d == 14 {
        'e'
    } else {
        'f'
    }
}

/// The radix-b digit value of c, if c is one and it is below b.
fn rad_val_x(c: char, b: u64) -> (r: Option<u64>)
    requires
        2 <= b <= 16,
    ensures
        r == (match rad_val(c) {
            Some(d) => if d < b {
                Some(d as u64)
            } else {
                None::<u64>
            },
            None => None::<u64>,
        }),
{
    let u = c as u32;
    let d: u64 = if 48 <= u && u <= 57 {
        (u - 48) as u64
    } else if 97 <= u && u <= 102 {
        (u - 87) as u64
    } else if 65 <= u && u <= 70 {
        (u - 55) as u64
    } else {
        16
    };
    if d < b {
        Some(d)
    } else {
        None
    }
}

/// Appends the w low radix-b digits of n.
pub fn push_rad(out: &mut Vec<char>, n: u64, w: usize, b: u64)
    requires
        2 <= b <= 16,
    ensures
        final(out)@ == old(out)@ + rad_chars(n as nat, w as nat, b as nat),
    decreases w,
{
    if w == 0 {
        proof {
            assert(out@ =~= out@ + rad_chars(n as nat, 0, b as nat));
        }
    } else {
        push_rad(out, n / b, w - 1, b);
        let d = (n % b) as u8;
        out.push(rad_char_x(d));
        proof {
            assert(out@ =~= old(out)@ + rad_chars(n as nat, w as nat, b as nat));
        }
    }
}

/// Appends n in decimal without padding.
pub fn push_dec(out: &mut Vec<char>, n: u64)
    ensures
        final(out)@ == old(out)@ + dec_chars(n as nat),
    decreases n,
{
    if n < 10 {
        out.push(rad_char_x(n as u8));
        proof {
            assert(out@ =~= old(out)@ + dec_chars(n as nat));
        }
    } else {
        push_dec(out, n / 10);
        out.push(rad_char_x((n % 10) as u8));
        proof {
            assert(out@ =~= old(out)@ + dec_chars(n as nat));
        }
    }
}

/// Parses exactly w radix-b digits at position i.
pub fn parse_rad(t: &Vec<char>, i: usize, w: usize, b: u64) -> (r: Option<(u64, usize)>)
    requires
        2 <= b <= 16,
        i <= t.len(),
        npow(b as nat, w as nat) <= u64::MAX,
    ensures
        (match r {
            Some((v, j)) => p_rad(t@, i as int, w as int, b as int, 0) == Some((v as int, j as int))
                && i <= j <= t.len() && v < npow(b as nat, w as nat),
            None => p_rad(t@, i as int, w as int, b as int, 0) is None,
        }),
{
    let mut acc: u64 = 0;
    let mut j: usize = i;
    let mut rem: usize = w;
    loop
        invariant
            2 <= b <= 16,
            i <= j <= t.len(),
            rem <= w,
            npow(b as nat, w as nat) <= u64::MAX,
            acc < npow(b as nat, (w - rem) as nat),
            npow(b as nat, (w - rem) as nat) * npow(b as nat, rem as nat) == npow(
                b as nat,
                w as nat,
            ),
            p_rad(t@, i as int, w as int, b as int, 0) == p_rad(
                t@,
                j as int,
                rem as int,
                b as int,
                acc as int,
            ),
        ensures
            rem == 0,
            p_rad(t@, i as int, w as int, b as int, 0) == Some((acc as int, j as int)),
            i <= j <= t.len(),
            acc < npow(b as nat, w as nat),
        decreases rem,
    {
        if rem == 0 {
            proof {
                lemma_npow_pos(b as nat, (w - rem) as nat);
                assert(npow(b as nat, (w - rem) as nat) <= npow(b as nat, w as nat))
                    by (nonlinear_arith)
                    requires
                        npow(b as nat, (w - rem) as nat) * npow(b as nat, rem as nat) == npow(
                            b as nat,
                            w as nat,
                        ),
                        npow(b as nat, rem as nat) >= 1,
                        npow(b as nat, (w - rem) as nat) >= 1,
                ;
            }
            break ;
        }
        if j >= t.len() {
            return None;
        }
        let dv = rad_val_x(t[j], b);
        match dv {
            Some(d) => {
                proof {
                    let e1 = (w - rem) as nat;
                    let e2 = (w - rem + 1) as nat;
                    assert(npow(b as nat, e2) == (b as nat) * npow(b as nat, e1));
                    assert((acc as int) * (b as int) + (d as int) < npow(b as nat, e2))
                        by (nonlinear_arith)
                        requires
                            (acc as int) < npow(b as nat, e1),
                            (d as int) < (b as int),
                            2 <= b <= 16,
                            npow(b as nat, e2) == (b as nat) * npow(b as nat, e1),
                    ;
                    lemma_npow_pos(b as nat, (rem - 1) as nat);
                    assert(npow(b as nat, e2) * npow(b as nat, (rem - 1) as nat) == npow(
                        b as nat,
                        w as nat,
                    )) by (nonlinear_arith)
                        requires
                            npow(b as nat, e1) * npow(b as nat, rem as nat) == npow(
                                b as nat,
                                w as nat,
                            ),
                            npow(b as nat, e2) == (b as nat) * npow(b as nat, e1),
                            npow(b as nat, rem as nat) == (b as nat) * npow(
                                b as nat,
                                (rem - 1) as nat,
                            ),
                    ;
                    assert(npow(b as nat, e2) <= npow(b as nat, w as nat)) by (nonlinear_arith)
                        requires
                            npow(b as nat, e2) * npow(b as nat, (rem - 1) as nat) == npow(
                                b as nat,
                                w as nat,
                            ),
                            npow(b as nat, (rem - 1) as nat) >= 1,
                            npow(b as nat, e2) >= 0,
                    ;
                }
                acc = acc * b + d;
                j += 1;
                rem -= 1;
            },
            None => {
                return None;
            },
        }
    }
    Some((acc, j))
}

/// Greedy decimal parse at position i; the value must fit 32 bits and at
/// least one digit must be present.
pub fn parse_dec_var(t: &Vec<char>, i: usize) -> (r: Option<(u32, usize)>)
    requires
        i <= t.len(),
    ensures
        (match r {
            Some((v, j)) => i < j <= t.len() && p_dec_var(t@, i as int, 0) == (v as int, j as int),
            None => ({
                let (v, j) = p_dec_var(t@, i as int, 0);
                j == i || v > u32::MAX
            }),
        }),
{
    let mut acc: u64 = 0;
    let mut j: usize = i;
    loop
        invariant
            i <= j <= t.len(),
            acc <= u32::MAX,
            p_dec_var(t@, i as int, 0) == p_dec_var(t@, j as int, acc as int),
        ensures
            i <= j <= t.len(),
            acc <= u32::MAX,
            p_dec_var(t@, i as int, 0) == (acc as int, j as int),
        decreases t.len() - j,
    {
        if j >= t.len() {
            break ;
        }
        let dv = rad_val_x(t[j], 10);
        match dv {
            Some(d) => {
                let next = acc * 10 + d;
                if next > u32::MAX as u64 {
                    proof {
                        lemma_p_dec_var_lower(t@, j as int + 1, acc as int * 10 + d as int);
                    }
                    return None;
                }
                acc = next;
                j += 1;
            },
            None => {
                break ;
            },
        }
    }
    if j == i {
        return None;
    }
    Some((acc as u32, j))
}

/// Parses a string as a 32-bit unsigned decimal: an optional leading '+',
/// then digits making up the whole string.
pub fn parse_u32_str(s: &str) -> (r: Option<u32>)
    ensures
        r == spec_parse_u32(s@),
{
    let len = s.unicode_len();
    let mut v: Vec<char> = Vec::new();
    let mut i: usize = 0;
    while i < len
        invariant
            len == s@.len(),
            i <= len,
            v@ == s@.subrange(0, i as int),
        decreases len - i,
    {
        v.push(s.get_char(i));
        proof {
            assert(v@ =~= s@.subrange(0, i as int + 1));
        }
        i += 1;
    }
    proof {
        assert(v@ =~= s@);
    }
    let start: usize = if len > 0 && v[0] == '+' {
        1
    } else {
        0
    };
    match parse_dec_var(&v, start) {
        Some((val, j)) => {
            if j == len {
                Some(val)
            } else {
                None
            }
        },
        None => None,
    }
}

} // verus!
