//! Decoding of inbound protocol messages and of configuration files.
//!
//! The accepted grammar is the canonical form that `json` renders, up to
//! whitespace: one object per document, the discriminator first, keys in
//! declaration order, strings free of quotes, backslashes and control
//! characters; whitespace between tokens — an editor's pretty form — is
//! stripped before the canonical comparison.
//!
//! Each decoder first extracts a candidate by scanning, then re-renders
//! the candidate and accepts the input only if the two texts agree, so an
//! accepted document is provably the canonical form of its message.
use vstd::prelude::*;

use crate::json::bat_chars;
use crate::json::bool_chars;
use crate::json::dec_digits;
use crate::json::in_msg_doc;
use crate::json::text_ok;
use crate::messages::InMsgV;
use crate::messages::AudioStream;
use crate::messages::BatteryLevel;
use crate::messages::DisplayName;
use crate::messages::Hello;
use crate::messages::LogMsg;
use crate::messages::MessageToServer;
use crate::messages::MuteAudio;
use crate::messages::TransmitAudio;
use crate::state::ClientState;

verus! {

/// A protocol decode failure: the input is not a canonical document of
/// the grammar. The connection that sent it is torn down.
#[derive(Clone, Copy, PartialEq, Eq, Debug)]
pub struct MalformedMessage;

/// Whether a character is a decimal digit.
pub open spec fn is_digit(c: char) -> bool {
    c == '0' || c == '1' || c == '2' || c == '3' || c == '4' || c == '5' || c == '6' || c == '7'
        || c == '8' || c == '9'
}

/// The value of a digit character.
pub open spec fn digit_val(c: char) -> int {
    if c == '0' {
        0
    } else if c == '1' {
        1
    } else if c == '2' {
        2
    } else if c == '3' {
        3
    } else if c == '4' {
        4
    } else if c == '5' {
        5
    } else if c == '6' {
        6
    } else if c == '7' {
        7
    } else if c == '8' {
        8
    } else {
        9
    }
}

/// The number a digit string denotes.
pub open spec fn digits_val(ds: Seq<char>) -> int
    decreases ds.len(),
{
    if ds.len() == 0 {
        0
    } else {
        10 * digits_val(ds.drop_last()) + digit_val(ds.last())
    }
}

pub proof fn lemma_digits_val_nonneg(ds: Seq<char>)
    ensures
        digits_val(ds) >= 0,
    decreases ds.len(),
{
    if ds.len() > 0 {
        lemma_digits_val_nonneg(ds.drop_last());
    }
}

/// The decimal rendering consists of digits and denotes its number.
pub proof fn lemma_dec_digits_value(n: nat)
    ensures
        dec_digits(n).len() >= 1,
        forall|i: int| 0 <= i < dec_digits(n).len() ==> is_digit(#[trigger] dec_digits(n)[i]),
        digits_val(dec_digits(n)) == n,
    decreases n,
{
    if n < 10 {
        let d = crate::json::digit_char(n as int);
        assert(dec_digits(n) == seq![d]);
        assert(dec_digits(n).drop_last() =~= Seq::<char>::empty());
        assert(dec_digits(n).last() == d);
        assert(digit_val(d) == n);
        assert(digits_val(dec_digits(n)) == 10 * digits_val(Seq::<char>::empty()) + digit_val(d));
    } else {
        lemma_dec_digits_value(n / 10);
        let d = crate::json::digit_char((n % 10) as int);
        assert(dec_digits(n) == dec_digits(n / 10) + seq![d]);
        assert(dec_digits(n).drop_last() =~= dec_digits(n / 10));
        assert(dec_digits(n).last() == d);
        assert(digit_val(d) == n % 10);
        assert(forall|i: int|
            0 <= i < dec_digits(n).len() ==> is_digit(#[trigger] dec_digits(n)[i]));
    }
}

/// Compares the characters of `s` starting at `i` against `lit`; the
/// position after the match, or `None`.
fn eat_lit(s: &str, i: usize, lit: &str) -> (r: Option<usize>)
    ensures
        r matches Some(j) ==> i + lit@.len() == j && j <= s@.len() && s@.subrange(
            i as int,
            j as int,
        ) == lit@,
        r is None ==> !(i + lit@.len() <= s@.len() && s@.subrange(
            i as int,
            i + lit@.len(),
        ) == lit@),
{
    let n = s.unicode_len();
    let m = lit.unicode_len();
    if i > n || m > n - i {
        return None;
    }
    let mut j: usize = 0;
    while j < m
        invariant
            j <= m,
            n == s@.len(),
            i + m <= n,
            m == lit@.len(),
            forall|p: int| 0 <= p < j ==> s@[i + p] == lit@[p],
        decreases m - j,
    {
        if s.get_char(i + j) != lit.get_char(j) {
            proof {
                assert(s@.subrange(i as int, i + m) != lit@) by {
                    assert(s@.subrange(i as int, i + m)[j as int] == s@[i + j]);
                }
            }
            return None;
        }
        j += 1;
    }
    proof {
        assert(s@.subrange(i as int, i + m) =~= lit@);
    }
    Some(i + m)
}

/// Scans from `i` to the next quote; the text before it and the position
/// after it, or `None` when no quote follows.
fn scan_to_quote(s: &str, i: usize) -> (r: Option<(String, usize)>)
    ensures
        r matches Some(p) ==> ({
            let k = p.1 - 1;
            &&& i <= k < s@.len()
            &&& s@[k as int] == '"'
            &&& (forall|q: int| i <= q < k ==> s@[q] != '"')
            &&& p.0@ == s@.subrange(i as int, k as int)
        }),
        r is None ==> forall|q: int| i <= q < s@.len() ==> s@[q] != '"',
{
    let n = s.unicode_len();
    if i > n {
        return None;
    }
    let mut j: usize = i;
    while j < n
        invariant
            i <= j <= n,
            n == s@.len(),
            forall|q: int| i <= q < j ==> s@[q] != '"',
        decreases n - j,
    {
        if s.get_char(j) == '"' {
            let text = s.substring_char(i, j).to_owned();
            return Some((text, j + 1));
        }
        j += 1;
    }
    None
}

/// Scans a run of decimal digits from `i`; their value and the position
/// after them, or `None` on no digit or a value over `u32::MAX`.
#[verifier::rlimit(60)]
fn scan_u32(s: &str, i: usize) -> (r: Option<(u32, usize)>)
    ensures
        r matches Some(p) ==> i < p.1 <= s@.len(),
        forall|k: int, v0: u32|
            (i < k <= s@.len() && s@.subrange(i as int, k) == dec_digits(v0 as nat) && (k
                == s@.len() || !is_digit(s@[k]))) ==> r == Some::<(u32, usize)>(
                (v0, k as usize),
            ),
{
    let n = s.unicode_len();
    if i >= n {
        proof {
            assert forall|k: int, v0: u32|
                (i < k <= s@.len() && s@.subrange(i as int, k) == dec_digits(v0 as nat) && (k
                    == s@.len() || !is_digit(s@[k]))) implies false by {
                lemma_dec_digits_value(v0 as nat);
            }
        }
        return None;
    }
    let mut j: usize = i;
    let mut acc: u64 = 0;
    let mut overflowed = false;
    while j < n
        invariant
            i <= j <= n,
            n == s@.len(),
            acc <= 0xFFFF_FFFFu64,
            forall|q: int| i <= q < j ==> is_digit(#[trigger] s@[q]),
            !overflowed ==> acc == digits_val(s@.subrange(i as int, j as int)),
            overflowed ==> digits_val(s@.subrange(i as int, j as int)) > 0xFFFF_FFFF,
        ensures
            i <= j <= n,
            acc <= 0xFFFF_FFFFu64,
            forall|q: int| i <= q < j ==> is_digit(#[trigger] s@[q]),
            !overflowed ==> acc == digits_val(s@.subrange(i as int, j as int)),
            overflowed ==> digits_val(s@.subrange(i as int, j as int)) > 0xFFFF_FFFF,
            j == n || !is_digit(s@[j as int]),
        decreases n - j,
    {
        let c = s.get_char(j);
        let v = c as u32;
        if v < 48 || v > 57 {
            proof {
                assert(!is_digit(s@[j as int])) by {
                    assert(c as u32 == v);
                }
            }
            break;
        }
        proof {
            assert(is_digit(c) && digit_val(c) == v - 48) by {
                char_digit_facts(c, v);
            }
            assert(s@.subrange(i as int, j + 1).drop_last() =~= s@.subrange(i as int, j as int));
            assert(s@.subrange(i as int, j + 1).last() == c);
            lemma_digits_val_nonneg(s@.subrange(i as int, j as int));
        }
        if overflowed || acc > 0x1999_9999u64 || acc * 10 + ((v - 48) as u64) > 0xFFFF_FFFFu64 {
            proof {
                if !overflowed {
                    assert(digits_val(s@.subrange(i as int, j + 1)) > 0xFFFF_FFFF);
                }
            }
            overflowed = true;
            acc = 0;
        } else {
            acc = acc * 10 + ((v - 48) as u64);
        }
        j += 1;
    }
    proof {
        assert(j == n || !is_digit(s@[j as int]));
        assert forall|k: int, v0: u32|
            (i < k <= s@.len() && s@.subrange(i as int, k) == dec_digits(v0 as nat) && (k
                == s@.len() || !is_digit(s@[k]))) implies j == k && !overflowed && acc == v0 by {
            lemma_dec_digits_value(v0 as nat);
            assert(forall|q: int|
                i <= q < k ==> is_digit(#[trigger] s@[q])) by {
                assert(forall|q: int|
                    i <= q < k ==> s@[q] == dec_digits(v0 as nat)[q - i]);
            }
            if j < k {
                assert(is_digit(s@[j as int]));
            }
            if k < j {
                assert(is_digit(s@[k]));
            }
            assert(digits_val(s@.subrange(i as int, j as int)) == v0);
        }
    }
    if j == i {
        return None;
    }
    if overflowed {
        return None;
    }
    Some((acc as u32, j))
}

/// A character in the digit range is a digit of the matching value.
proof fn char_digit_facts(c: char, v: u32)
    requires
        c as u32 == v,
        48 <= v <= 57,
    ensures
        is_digit(c),
        digit_val(c) == v - 48,
{
    assert(('0' as u32) == 48 && ('1' as u32) == 49 && ('2' as u32) == 50 && ('3' as u32) == 51
        && ('4' as u32) == 52 && ('5' as u32) == 53 && ('6' as u32) == 54 && ('7' as u32) == 55
        && ('8' as u32) == 56 && ('9' as u32) == 57);
    assert(c as u32 == v);
    if v == 48 {
        assert(c == '0') by {
            assert(c as u32 == '0' as u32);
        }
    } else if v == 49 {
        assert(c == '1') by {
            assert(c as u32 == '1' as u32);
        }
    } else if v == 50 {
        assert(c == '2') by {
            assert(c as u32 == '2' as u32);
        }
    } else if v == 51 {
        assert(c == '3') by {
            assert(c as u32 == '3' as u32);
        }
    } else if v == 52 {
        assert(c == '4') by {
            assert(c as u32 == '4' as u32);
        }
    } else if v == 53 {
        assert(c == '5') by {
            assert(c as u32 == '5' as u32);
        }
    } else if v == 54 {
        assert(c == '6') by {
            assert(c as u32 == '6' as u32);
        }
    } else if v == 55 {
        assert(c == '7') by {
            assert(c as u32 == '7' as u32);
        }
    } else if v == 56 {
        assert(c == '8') by {
            assert(c as u32 == '8' as u32);
        }
    } else {
        assert(c == '9') by {
            assert(c as u32 == '9' as u32);
        }
    }
}

/// Scans a port number: digits whose value fits sixteen bits.
fn scan_u16(s: &str, i: usize) -> (r: Option<(u16, usize)>)
    ensures
        r matches Some(p) ==> p.1 <= s@.len(),
        forall|k: int, v0: u16|
            (i < k <= s@.len() && s@.subrange(i as int, k) == dec_digits(v0 as nat) && (k
                == s@.len() || !is_digit(s@[k]))) ==> r == Some::<(u16, usize)>(
                (v0, k as usize),
            ),
{
    match scan_u32(s, i) {
        Some((v, j)) => {
            if v <= 0xFFFF {
                Some((v as u16, j))
            } else {
                None
            }
        }
        None => None,
    }
}

/// Scans `true` or `false`.
fn scan_bool(s: &str, i: usize) -> (r: Option<(bool, usize)>)
    ensures
        r matches Some(p) ==> p.1 <= s@.len(),
        forall|b: bool|
            (i + bool_chars(b).len() <= s@.len() && s@.subrange(
                i as int,
                i + bool_chars(b).len(),
            ) == bool_chars(b)) ==> r == Some::<(bool, usize)>(
                (b, (i + bool_chars(b).len()) as usize),
            ),
{
    proof {
        reveal_strlit("true");
        reveal_strlit("false");
    }
    let r: Option<(bool, usize)> = match eat_lit(s, i, "true") {
        Some(j) => Some((true, j)),
        None => match eat_lit(s, i, "false") {
            Some(j) => Some((false, j)),
            None => None,
        },
    };
    proof {
        assert forall|b: bool|
            (i + bool_chars(b).len() <= s@.len() && s@.subrange(
                i as int,
                i + bool_chars(b).len(),
            ) == bool_chars(b)) implies r == Some::<(bool, usize)>(
            (b, (i + bool_chars(b).len()) as usize),
        ) by {
            if b {
                assert(s@.subrange(i as int, i + 4)[0] == 't');
            } else {
                assert(s@.subrange(i as int, i + 5)[0] == 'f');
                if i + 4 <= s@.len() && s@.subrange(i as int, i + 4) == "true"@ {
                    assert(s@.subrange(i as int, i + 4)[0] == 't');
                    assert(s@[i as int] == 't' && s@[i as int] == 'f');
                }
            }
        }
    }
    r
}

/// The decimal digit of a given value is that digit.
proof fn digit_char_val(d: int)
    requires
        0 <= d <= 9,
    ensures
        is_digit(crate::json::digit_char(d)),
        digit_val(crate::json::digit_char(d)) == d,
{
}

/// A battery value decomposes into its integer part and three fraction
/// digits of thousandths.
proof fn lemma_millis_decomp(l: u32)
    ensures
        l as int == (l as int / 1000) * 1000 + ((l as int / 100) % 10) * 100 + ((l as int / 10)
            % 10) * 10 + (l as int % 10),
{
    let x = l as int;
    vstd::arithmetic::div_mod::lemma_div_denominator(x, 10, 10);
    vstd::arithmetic::div_mod::lemma_div_denominator(x, 100, 10);
    vstd::arithmetic::div_mod::lemma_fundamental_div_mod(x, 10);
    vstd::arithmetic::div_mod::lemma_fundamental_div_mod(x / 10, 10);
    vstd::arithmetic::div_mod::lemma_fundamental_div_mod(x / 100, 10);
}

/// How the canonical battery rendering lays its characters out.
proof fn scan_bat_case(s: &str, i: usize, l: u32, k: int)
    requires
        i <= k <= s@.len(),
        s@.subrange(i as int, k) == bat_chars(l as nat),
        k == s@.len() || !is_digit(s@[k]),
    ensures
        ({
            let w = dec_digits((l as nat) / 1000);
            let d1 = ((l as int) / 100) % 10;
            let d2 = ((l as int) / 10) % 10;
            let d3 = (l as int) % 10;
            &&& i + w.len() + 2 <= k
            &&& s@.subrange(i as int, i + w.len() as int) == w
            &&& s@[i + w.len()] == '.'
            &&& is_digit(s@[i + w.len() + 1]) && digit_val(s@[i + w.len() + 1]) == d1
            &&& (d3 != 0 || d2 != 0 ==> k >= i + w.len() + 3 && is_digit(s@[i + w.len() + 2])
                && digit_val(s@[i + w.len() + 2]) == d2)
            &&& (d3 != 0 ==> k == i + w.len() + 4 && is_digit(s@[i + w.len() + 3]) && digit_val(
                s@[i + w.len() + 3],
            ) == d3)
            &&& (d3 == 0 && d2 != 0 ==> k == i + w.len() + 3)
            &&& (d3 == 0 && d2 == 0 ==> k == i + w.len() + 2)
            &&& (l as nat) / 1000 == ((l / 1000) as u32) as nat
        }),
{
    let w = dec_digits((l as nat) / 1000);
    let bc = bat_chars(l as nat);
    let d1 = ((l as int) / 100) % 10;
    let d2 = ((l as int) / 10) % 10;
    let d3 = (l as int) % 10;
    assert(k - i == bc.len());
    assert forall|q: int| 0 <= q < bc.len() implies s@[i + q] == bc[q] by {
        assert(s@.subrange(i as int, k)[q] == bc[q]);
    }
    assert(s@.subrange(i as int, i + w.len() as int) =~= w) by {
        assert(forall|q: int| 0 <= q < w.len() ==> bc[q] == w[q]);
    }
    digit_char_val(d1);
    digit_char_val(d2);
    digit_char_val(d3);
    if d3 != 0 {
        let fr = seq![
            crate::json::digit_char(d1),
            crate::json::digit_char(d2),
            crate::json::digit_char(d3),
        ];
        assert(bc == w + seq!['.'] + fr);
        assert(bc[w.len() as int] == '.');
        assert(bc[w.len() as int + 1] == crate::json::digit_char(d1));
        assert(bc[w.len() as int + 2] == crate::json::digit_char(d2));
        assert(bc[w.len() as int + 3] == crate::json::digit_char(d3));
    } else if d2 != 0 {
        let fr = seq![crate::json::digit_char(d1), crate::json::digit_char(d2)];
        assert(bc == w + seq!['.'] + fr);
        assert(bc[w.len() as int] == '.');
        assert(bc[w.len() as int + 1] == crate::json::digit_char(d1));
        assert(bc[w.len() as int + 2] == crate::json::digit_char(d2));
    } else {
        let fr = seq![crate::json::digit_char(d1)];
        assert(bc == w + seq!['.'] + fr);
        assert(bc[w.len() as int] == '.');
        assert(bc[w.len() as int + 1] == crate::json::digit_char(d1));
    }
}

/// Scans a battery level — an integer part, a point and one to three
/// fraction digits — as thousandths of a full charge.
#[verifier::rlimit(100)]
#[verifier::spinoff_prover]
fn scan_bat(s: &str, i: usize) -> (r: Option<(u32, usize)>)
    ensures
        r matches Some(p) ==> p.1 <= s@.len(),
        forall|l: u32, k: int|
            (i <= k <= s@.len() && s@.subrange(i as int, k) == bat_chars(l as nat) && (k
                == s@.len() || !is_digit(s@[k]))) ==> r == Some::<(u32, usize)>(
                (l, k as usize),
            ),
{
    proof {
        reveal_strlit(".");
    }
    let n = s.unicode_len();
    let whole_scan = scan_u32(s, i);
    proof {
        assert forall|l: u32, k: int|
            (i <= k <= s@.len() && s@.subrange(i as int, k) == bat_chars(l as nat) && (k
                == s@.len() || !is_digit(s@[k]))) implies whole_scan == Some::<(u32, usize)>(
            ((l / 1000) as u32, (i + dec_digits((l as nat) / 1000).len()) as usize),
        ) by {
            scan_bat_case(s, i, l, k);
            let w = dec_digits((l as nat) / 1000);
            lemma_dec_digits_value((l as nat) / 1000);
            assert(!is_digit(s@[i + w.len()]));
            assert(s@.subrange(i as int, i + w.len() as int) == dec_digits(
                (((l / 1000) as u32) as nat),
            ));
        }
    }
    let (whole, j1) = match whole_scan {
        Some(p) => p,
        None => {
            return None;
        }
    };
    let dot = eat_lit(s, j1, ".");
    let j2 = match dot {
        Some(j) => j,
        None => {
            proof {
                assert forall|l: u32, k: int|
                    (i <= k <= s@.len() && s@.subrange(i as int, k) == bat_chars(l as nat) && (k
                        == s@.len() || !is_digit(s@[k]))) implies false by {
                    scan_bat_case(s, i, l, k);
                    let w = dec_digits((l as nat) / 1000);
                    lemma_dec_digits_value((l as nat) / 1000);
                    assert(whole_scan == Some::<(u32, usize)>(
                        ((l / 1000) as u32, (i + w.len()) as usize),
                    )) by {
                        assert(!is_digit(s@[i + w.len()]));
                        assert(s@.subrange(i as int, i + w.len() as int) == dec_digits(
                            (((l / 1000) as u32) as nat),
                        ));
                    }
                    assert(j1 == i + w.len());
                    assert(s@.subrange(j1 as int, j1 + 1) =~= "."@);
                }
            }
            return None;
        }
    };
    let first = scan_digit(s, j2);
    let (d1, j3) = match first {
        Some(p) => p,
        None => {
            proof {
                assert forall|l: u32, k: int|
                    (i <= k <= s@.len() && s@.subrange(i as int, k) == bat_chars(l as nat) && (k
                        == s@.len() || !is_digit(s@[k]))) implies false by {
                    scan_bat_case(s, i, l, k);
                    let w = dec_digits((l as nat) / 1000);
                    lemma_dec_digits_value((l as nat) / 1000);
                    assert(whole_scan == Some::<(u32, usize)>(
                        ((l / 1000) as u32, (i + w.len()) as usize),
                    )) by {
                        assert(!is_digit(s@[i + w.len()]));
                        assert(s@.subrange(i as int, i + w.len() as int) == dec_digits(
                            (((l / 1000) as u32) as nat),
                        ));
                    }
                    assert(j2 == i + w.len() + 1);
                    assert(is_digit(s@[j2 as int]));
                }
            }
            return None;
        }
    };
    let second = scan_digit(s, j3);
    let third = match second {
        Some(_) => scan_digit(s, j3 + 1),
        None => None,
    };
    let frac: u64 = match (second, third) {
        (None, _) => (d1 as u64) * 100,
        (Some((d2, _)), None) => (d1 as u64) * 100 + (d2 as u64) * 10,
        (Some((d2, _)), Some((d3, _))) => (d1 as u64) * 100 + (d2 as u64) * 10 + (d3 as u64),
    };
    let end: usize = match (second, third) {
        (None, _) => j3,
        (Some(_), None) => j3 + 1,
        (Some(_), Some(_)) => j3 + 2,
    };
    let val: u64 = (whole as u64) * 1000 + frac;
    proof {
        assert forall|l: u32, k: int|
            (i <= k <= s@.len() && s@.subrange(i as int, k) == bat_chars(l as nat) && (k
                == s@.len() || !is_digit(s@[k]))) implies val == l && end == k by {
            scan_bat_case(s, i, l, k);
            lemma_millis_decomp(l);
            let w = dec_digits((l as nat) / 1000);
            lemma_dec_digits_value((l as nat) / 1000);
            assert(whole_scan == Some::<(u32, usize)>(
                ((l / 1000) as u32, (i + w.len()) as usize),
            )) by {
                assert(!is_digit(s@[i + w.len()]));
                assert(s@.subrange(i as int, i + w.len() as int) == dec_digits(
                    (((l / 1000) as u32) as nat),
                ));
            }
            let d1v = ((l as int) / 100) % 10;
            let d2v = ((l as int) / 10) % 10;
            let d3v = (l as int) % 10;
            assert(j2 == i + w.len() + 1);
            assert(d1 == d1v && j3 == i + w.len() + 2);
            if d3v != 0 {
                assert(is_digit(s@[j3 as int]) && digit_val(s@[j3 as int]) == d2v);
                assert(second == Some::<(u32, usize)>((d2v as u32, (j3 + 1) as usize)));
                assert(is_digit(s@[j3 + 1]) && digit_val(s@[j3 + 1]) == d3v);
                assert(third == Some::<(u32, usize)>((d3v as u32, (j3 + 2) as usize)));
                assert(end == j3 + 2 && k == i + w.len() + 4);
                assert(val == (l as int / 1000) * 1000 + d1v * 100 + d2v * 10 + d3v);
            } else if d2v != 0 {
                assert(is_digit(s@[j3 as int]) && digit_val(s@[j3 as int]) == d2v);
                assert(second == Some::<(u32, usize)>((d2v as u32, (j3 + 1) as usize)));
                assert(k == j3 + 1);
                assert(third == None::<(u32, usize)>);
                assert(end == j3 + 1);
                assert(val == (l as int / 1000) * 1000 + d1v * 100 + d2v * 10);
            } else {
                assert(k == j3);
                assert(second == None::<(u32, usize)>);
                assert(end == j3);
                assert(val == (l as int / 1000) * 1000 + d1v * 100);
            }
        }
    }
    if val > 0xFFFF_FFFFu64 {
        return None;
    }
    Some((val as u32, end))
}

/// Scans one decimal digit.
fn scan_digit(s: &str, i: usize) -> (r: Option<(u32, usize)>)
    ensures
        r == if i < s@.len() && is_digit(s@[i as int]) {
            Some::<(u32, usize)>((digit_val(s@[i as int]) as u32, (i + 1) as usize))
        } else {
            None::<(u32, usize)>
        },
{
    let n = s.unicode_len();
    if i >= n {
        return None;
    }
    let c = s.get_char(i);
    let v = c as u32;
    if v < 48 || v > 57 {
        proof {
            assert(!is_digit(c)) by {
                assert(c as u32 == v);
            }
        }
        return None;
    }
    proof {
        char_digit_facts(c, v);
    }
    Some((v - 48, i + 1))
}

/// One shape of the wire grammar: accepts exactly the canonical
/// `Hello` document.
#[verifier::rlimit(100)]
fn try_hello(s: &str) -> (r: Option<MessageToServer>)
    ensures
        r matches Some(m) ==> s@ == in_msg_doc(m@),
        forall|nv: Seq<char>|
            (text_ok(nv) && s@ == in_msg_doc(InMsgV::Hello(nv))) ==> r is Some,
{
    let _n = s.unicode_len();
    proof {
        reveal_strlit("\"");
    }
    let ghost lit: Seq<char> = "{\"type\":\"Hello\",\"client_name\":"@;
    let i1 = match eat_lit(s, 0, "{\"type\":\"Hello\",\"client_name\":") {
        Some(i) => i,
        None => {
            proof {
                assert forall|nv: Seq<char>|
                    text_ok(nv) && s@ == in_msg_doc(InMsgV::Hello(nv)) implies false by {
                    assert(s@.subrange(0, lit.len() as int) =~= lit);
                }
            }
            return None;
        }
    };
    let i2 = match eat_lit(s, i1, "\"") {
        Some(i) => i,
        None => {
            proof {
                assert forall|nv: Seq<char>|
                    text_ok(nv) && s@ == in_msg_doc(InMsgV::Hello(nv)) implies false by {
                    assert(s@[i1 as int] == '"');
                    assert(s@.subrange(i1 as int, i1 + 1) =~= "\""@);
                }
            }
            return None;
        }
    };
    let scanned = scan_to_quote(s, i2);
    let (text, _after) = match scanned {
        Some(p) => p,
        None => {
            proof {
                assert forall|nv: Seq<char>|
                    text_ok(nv) && s@ == in_msg_doc(InMsgV::Hello(nv)) implies false by {
                    assert(s@[lit.len() as int + 1 + nv.len() as int] == '"');
                }
            }
            return None;
        }
    };
    let m = MessageToServer::Hello(Hello { client_name: text });
    let rendered = crate::json::encode_client_message(&m);
    let same = rendered == s.to_owned();
    proof {
        assert forall|nv: Seq<char>|
            text_ok(nv) && s@ == in_msg_doc(InMsgV::Hello(nv)) implies same by {
            let k0: int = lit.len() as int + 1 + nv.len() as int;
            assert(s@[k0] == '"');
            assert(forall|q: int| i2 <= q < k0 ==> s@[q] == nv[q - i2]);
            assert(forall|q: int| i2 <= q < k0 ==> s@[q] != '"');
            let p = scanned->Some_0;
            let k = p.1 - 1;
            assert(k == k0) by {
                if k < k0 {
                    assert(s@[k as int] != '"');
                }
                if k0 < k {
                    assert(s@[k0] != '"');
                }
            }
            assert(p.0@ =~= nv);
            assert(rendered@ == s@);
        }
    }
    if same {
        Some(m)
    } else {
        None
    }
}

/// One shape of the wire grammar: accepts exactly the canonical `Ping`
/// document.
fn try_ping(s: &str) -> (r: Option<MessageToServer>)
    ensures
        r matches Some(m) ==> s@ == in_msg_doc(m@),
        s@ == in_msg_doc(InMsgV::Ping) ==> r is Some,
{
    let _n = s.unicode_len();
    let hit = eat_lit(s, 0, "{\"type\":\"Ping\"}");
    match hit {
        None => {
            proof {
                if s@ == in_msg_doc(InMsgV::Ping) {
                    assert(s@.subrange(0, s@.len() as int) =~= s@);
                }
            }
            None
        }
        Some(_) => {
            let m = MessageToServer::Ping;
            let rendered = crate::json::encode_client_message(&m);
            let same = rendered == s.to_owned();
            if same {
                Some(m)
            } else {
                proof {
                    if s@ == in_msg_doc(InMsgV::Ping) {
                        assert(rendered@ == s@);
                    }
                }
                None
            }
        }
    }
}

/// One shape of the wire grammar: accepts exactly the canonical
/// `BatteryLevel` document.
#[verifier::rlimit(100)]
#[verifier::spinoff_prover]
fn try_battery_level(s: &str) -> (r: Option<MessageToServer>)
    ensures
        r matches Some(m) ==> s@ == in_msg_doc(m@),
        forall|l: u32, c: bool|
            s@ == in_msg_doc(InMsgV::BatteryLevel(l, c)) ==> r is Some,
{
    let _n = s.unicode_len();
    proof {
        reveal_strlit(",\"is_charging\":");
        reveal_strlit("true");
        reveal_strlit("false");
    }
    let ghost lit1: Seq<char> = "{\"type\":\"BatteryLevel\",\"level\":"@;
    let ghost lit2: Seq<char> = ",\"is_charging\":"@;
    let i1 = match eat_lit(s, 0, "{\"type\":\"BatteryLevel\",\"level\":") {
        Some(i) => i,
        None => {
            proof {
                assert forall|l: u32, c: bool| s@ == in_msg_doc(InMsgV::BatteryLevel(l, c)) implies false by {
                    assert(s@.subrange(0, lit1.len() as int) =~= lit1);
                }
            }
            return None;
        }
    };
    let bat = scan_bat(s, i1);
    proof {
        assert forall|l: u32, c: bool| s@ == in_msg_doc(InMsgV::BatteryLevel(l, c)) implies bat == Some::<(u32, usize)>(
            (l, (i1 + bat_chars(l as nat).len()) as usize),
        ) by {
            let bl = bat_chars(l as nat).len() as int;
            assert(s@.subrange(i1 as int, i1 + bl) =~= bat_chars(l as nat));
            assert(s@[i1 + bl] == lit2[0]);
            assert(!is_digit(s@[i1 + bl]));
        }
    }
    let (level, j1) = match bat {
        Some(p) => p,
        None => {
            return None;
        }
    };
    let cg = match eat_lit(s, j1, ",\"is_charging\":") {
        Some(j) => j,
        None => {
            proof {
                assert forall|l: u32, c: bool| s@ == in_msg_doc(InMsgV::BatteryLevel(l, c)) implies false by {
                    let bl = bat_chars(l as nat).len() as int;
                    assert(s@.subrange(i1 + bl, i1 + bl + lit2.len()) =~= lit2);
                }
            }
            return None;
        }
    };
    let flag = scan_bool(s, cg);
    proof {
        assert forall|l: u32, c: bool| s@ == in_msg_doc(InMsgV::BatteryLevel(l, c)) implies flag is Some && (
        flag->Some_0).0 == c by {
            let bl = bat_chars(l as nat).len() as int;
            let base = i1 + bl + lit2.len() as int;
            assert(cg == base);
            assert(s@.subrange(base, base + bool_chars(c).len() as int) =~= bool_chars(c));
        }
    }
    let (is_charging, _after) = match flag {
        Some(p) => p,
        None => {
            return None;
        }
    };
    let m = MessageToServer::BatteryLevel(BatteryLevel { level, is_charging });
    let rendered = crate::json::encode_client_message(&m);
    let same = rendered == s.to_owned();
    proof {
        assert forall|l: u32, c: bool| s@ == in_msg_doc(InMsgV::BatteryLevel(l, c)) implies same by {
            assert(level == l && is_charging == c);
            assert(rendered@ == s@);
        }
    }
    if same {
        Some(m)
    } else {
        None
    }
}

/// One shape of the wire grammar: accepts exactly the canonical
/// `LogMsg` document.
#[verifier::rlimit(100)]
fn try_log_msg(s: &str) -> (r: Option<MessageToServer>)
    ensures
        r matches Some(m) ==> s@ == in_msg_doc(m@),
        forall|nv: Seq<char>|
            (text_ok(nv) && s@ == in_msg_doc(InMsgV::LogMsg(nv))) ==> r is Some,
{
    let _n = s.unicode_len();
    proof {
        reveal_strlit("\"");
    }
    let ghost lit: Seq<char> = "{\"type\":\"LogMsg\",\"message\":"@;
    let i1 = match eat_lit(s, 0, "{\"type\":\"LogMsg\",\"message\":") {
        Some(i) => i,
        None => {
            proof {
                assert forall|nv: Seq<char>|
                    text_ok(nv) && s@ == in_msg_doc(InMsgV::LogMsg(nv)) implies false by {
                    assert(s@.subrange(0, lit.len() as int) =~= lit);
                }
            }
            return None;
        }
    };
    let i2 = match eat_lit(s, i1, "\"") {
        Some(i) => i,
        None => {
            proof {
                assert forall|nv: Seq<char>|
                    text_ok(nv) && s@ == in_msg_doc(InMsgV::LogMsg(nv)) implies false by {
                    assert(s@[i1 as int] == '"');
                    assert(s@.subrange(i1 as int, i1 + 1) =~= "\""@);
                }
            }
            return None;
        }
    };
    let scanned = scan_to_quote(s, i2);
    let (text, _after) = match scanned {
        Some(p) => p,
        None => {
            proof {
                assert forall|nv: Seq<char>|
                    text_ok(nv) && s@ == in_msg_doc(InMsgV::LogMsg(nv)) implies false by {
                    assert(s@[lit.len() as int + 1 + nv.len() as int] == '"');
                }
            }
            return None;
        }
    };
    let m = MessageToServer::LogMsg(LogMsg { message: text });
    let rendered = crate::json::encode_client_message(&m);
    let same = rendered == s.to_owned();
    proof {
        assert forall|nv: Seq<char>|
            text_ok(nv) && s@ == in_msg_doc(InMsgV::LogMsg(nv)) implies same by {
            let k0: int = lit.len() as int + 1 + nv.len() as int;
            assert(s@[k0] == '"');
            assert(forall|q: int| i2 <= q < k0 ==> s@[q] == nv[q - i2]);
            assert(forall|q: int| i2 <= q < k0 ==> s@[q] != '"');
            let p = scanned->Some_0;
            let k = p.1 - 1;
            assert(k == k0) by {
                if k < k0 {
                    assert(s@[k as int] != '"');
                }
                if k0 < k {
                    assert(s@[k0] != '"');
                }
            }
            assert(p.0@ =~= nv);
            assert(rendered@ == s@);
        }
    }
    if same {
        Some(m)
    } else {
        None
    }
}

/// One shape of the wire grammar: accepts exactly the canonical
/// `DisplayName` document.
#[verifier::rlimit(100)]
fn try_display_name(s: &str) -> (r: Option<MessageToServer>)
    ensures
        r matches Some(m) ==> s@ == in_msg_doc(m@),
        forall|nv: Seq<char>|
            (text_ok(nv) && s@ == in_msg_doc(InMsgV::DisplayName(nv))) ==> r is Some,
{
    let _n = s.unicode_len();
    proof {
        reveal_strlit("\"");
    }
    let ghost lit: Seq<char> = "{\"type\":\"DisplayName\",\"display_name\":"@;
    let i1 = match eat_lit(s, 0, "{\"type\":\"DisplayName\",\"display_name\":") {
        Some(i) => i,
        None => {
            proof {
                assert forall|nv: Seq<char>|
                    text_ok(nv) && s@ == in_msg_doc(InMsgV::DisplayName(nv)) implies false by {
                    assert(s@.subrange(0, lit.len() as int) =~= lit);
                }
            }
            return None;
        }
    };
    let i2 = match eat_lit(s, i1, "\"") {
        Some(i) => i,
        None => {
            proof {
                assert forall|nv: Seq<char>|
                    text_ok(nv) && s@ == in_msg_doc(InMsgV::DisplayName(nv)) implies false by {
                    assert(s@[i1 as int] == '"');
                    assert(s@.subrange(i1 as int, i1 + 1) =~= "\""@);
                }
            }
            return None;
        }
    };
    let scanned = scan_to_quote(s, i2);
    let (text, _after) = match scanned {
        Some(p) => p,
        None => {
            proof {
                assert forall|nv: Seq<char>|
                    text_ok(nv) && s@ == in_msg_doc(InMsgV::DisplayName(nv)) implies false by {
                    assert(s@[lit.len() as int + 1 + nv.len() as int] == '"');
                }
            }
            return None;
        }
    };
    let m = MessageToServer::DisplayName(DisplayName { display_name: text });
    let rendered = crate::json::encode_client_message(&m);
    let same = rendered == s.to_owned();
    proof {
        assert forall|nv: Seq<char>|
            text_ok(nv) && s@ == in_msg_doc(InMsgV::DisplayName(nv)) implies same by {
            let k0: int = lit.len() as int + 1 + nv.len() as int;
            assert(s@[k0] == '"');
            assert(forall|q: int| i2 <= q < k0 ==> s@[q] == nv[q - i2]);
            assert(forall|q: int| i2 <= q < k0 ==> s@[q] != '"');
            let p = scanned->Some_0;
            let k = p.1 - 1;
            assert(k == k0) by {
                if k < k0 {
                    assert(s@[k as int] != '"');
                }
                if k0 < k {
                    assert(s@[k0] != '"');
                }
            }
            assert(p.0@ =~= nv);
            assert(rendered@ == s@);
        }
    }
    if same {
        Some(m)
    } else {
        None
    }
}

/// One shape of the wire grammar: accepts exactly the canonical
/// `AudioStream` document.
#[verifier::rlimit(100)]
#[verifier::spinoff_prover]
fn try_audio_stream(s: &str) -> (r: Option<MessageToServer>)
    ensures
        r matches Some(m) ==> s@ == in_msg_doc(m@),
        forall|ra: u16, rr: u16, sa: u16, sr: u16|
            s@ == in_msg_doc(InMsgV::AudioStream(ra, rr, sa, sr)) ==> r is Some,
{
    let _n = s.unicode_len();
    proof {
        reveal_strlit(",\"recv_repair_port\":");
        reveal_strlit(",\"send_audio_port\":");
        reveal_strlit(",\"send_repair_port\":");
        reveal_strlit("}");
    }
    let ghost lit1: Seq<char> = "{\"type\":\"AudioStream\",\"recv_audio_port\":"@;
    let ghost lit2: Seq<char> = ",\"recv_repair_port\":"@;
    let ghost lit3: Seq<char> = ",\"send_audio_port\":"@;
    let ghost lit4: Seq<char> = ",\"send_repair_port\":"@;
    let i1 = match eat_lit(s, 0, "{\"type\":\"AudioStream\",\"recv_audio_port\":") {
        Some(i) => i,
        None => {
            proof {
                assert forall|ra: u16, rr: u16, sa: u16, sr: u16|
                    s@ == in_msg_doc(InMsgV::AudioStream(ra, rr, sa, sr)) implies false by {
                    assert(s@.subrange(0, lit1.len() as int) =~= lit1);
                }
            }
            return None;
        }
    };
    let p1 = scan_u16(s, i1);
    proof {
        assert forall|ra: u16, rr: u16, sa: u16, sr: u16|
            s@ == in_msg_doc(InMsgV::AudioStream(ra, rr, sa, sr)) implies p1 == Some::<(u16, usize)>(
            (ra, (i1 + dec_digits(ra as nat).len()) as usize),
        ) by {
            lemma_dec_digits_value(ra as nat);
            let e1 = i1 + dec_digits(ra as nat).len() as int;
            assert(s@.subrange(i1 as int, e1) =~= dec_digits(ra as nat));
            assert(s@[e1] == lit2[0]);
            assert(!is_digit(s@[e1]));
        }
    }
    let (ra_v, j1) = match p1 {
        Some(p) => p,
        None => {
            return None;
        }
    };
    let j2 = match eat_lit(s, j1, ",\"recv_repair_port\":") {
        Some(j) => j,
        None => {
            proof {
                assert forall|ra: u16, rr: u16, sa: u16, sr: u16|
                    s@ == in_msg_doc(InMsgV::AudioStream(ra, rr, sa, sr)) implies false by {
                    assert(p1 == Some::<(u16, usize)>(
                        (ra, (i1 + dec_digits(ra as nat).len()) as usize),
                    ));
                    let e1 = lit1.len() + dec_digits(ra as nat).len() as int;
                    assert(s@.subrange(e1, e1 + lit2.len() as int) =~= lit2);
                }
            }
            return None;
        }
    };
    let p2 = scan_u16(s, j2);
    proof {
        assert forall|ra: u16, rr: u16, sa: u16, sr: u16|
            s@ == in_msg_doc(InMsgV::AudioStream(ra, rr, sa, sr)) implies p2 == Some::<(u16, usize)>(
            (rr, (j2 + dec_digits(rr as nat).len()) as usize),
        ) by {
            lemma_dec_digits_value(rr as nat);
            assert(p1 == Some::<(u16, usize)>(
                (ra, (i1 + dec_digits(ra as nat).len()) as usize),
            ));
            let b2 = lit1.len() + dec_digits(ra as nat).len() + lit2.len() as int;
            assert(j2 == b2);
            let e2 = b2 + dec_digits(rr as nat).len() as int;
            assert(s@.subrange(b2, e2) =~= dec_digits(rr as nat));
            assert(s@[e2] == lit3[0]);
            assert(!is_digit(s@[e2]));
        }
    }
    let (rr_v, j3) = match p2 {
        Some(p) => p,
        None => {
            return None;
        }
    };
    let j4 = match eat_lit(s, j3, ",\"send_audio_port\":") {
        Some(j) => j,
        None => {
            proof {
                assert forall|ra: u16, rr: u16, sa: u16, sr: u16|
                    s@ == in_msg_doc(InMsgV::AudioStream(ra, rr, sa, sr)) implies false by {
                    assert(p1 == Some::<(u16, usize)>(
                        (ra, (i1 + dec_digits(ra as nat).len()) as usize),
                    ));
                    assert(p2 == Some::<(u16, usize)>(
                        (rr, (j2 + dec_digits(rr as nat).len()) as usize),
                    ));
                    let e2 = lit1.len() + dec_digits(ra as nat).len() + lit2.len()
                        + dec_digits(rr as nat).len() as int;
                    assert(j3 == e2);
                    assert(s@.subrange(e2, e2 + lit3.len() as int) =~= lit3);
                }
            }
            return None;
        }
    };
    let p3 = scan_u16(s, j4);
    proof {
        assert forall|ra: u16, rr: u16, sa: u16, sr: u16|
            s@ == in_msg_doc(InMsgV::AudioStream(ra, rr, sa, sr)) implies p3 == Some::<(u16, usize)>(
            (sa, (j4 + dec_digits(sa as nat).len()) as usize),
        ) by {
            lemma_dec_digits_value(sa as nat);
            assert(p1 == Some::<(u16, usize)>(
                (ra, (i1 + dec_digits(ra as nat).len()) as usize),
            ));
            assert(p2 == Some::<(u16, usize)>(
                (rr, (j2 + dec_digits(rr as nat).len()) as usize),
            ));
            let b3 = lit1.len() + dec_digits(ra as nat).len() + lit2.len()
                + dec_digits(rr as nat).len() + lit3.len() as int;
            assert(j4 == b3);
            let e3 = b3 + dec_digits(sa as nat).len() as int;
            assert(s@.subrange(b3, e3) =~= dec_digits(sa as nat));
            assert(s@[e3] == lit4[0]);
            assert(!is_digit(s@[e3]));
        }
    }
    let (sa_v, j5) = match p3 {
        Some(p) => p,
        None => {
            return None;
        }
    };
    let j6 = match eat_lit(s, j5, ",\"send_repair_port\":") {
        Some(j) => j,
        None => {
            proof {
                assert forall|ra: u16, rr: u16, sa: u16, sr: u16|
                    s@ == in_msg_doc(InMsgV::AudioStream(ra, rr, sa, sr)) implies false by {
                    assert(p1 == Some::<(u16, usize)>(
                        (ra, (i1 + dec_digits(ra as nat).len()) as usize),
                    ));
                    assert(p2 == Some::<(u16, usize)>(
                        (rr, (j2 + dec_digits(rr as nat).len()) as usize),
                    ));
                    assert(p3 == Some::<(u16, usize)>(
                        (sa, (j4 + dec_digits(sa as nat).len()) as usize),
                    ));
                    let e3 = lit1.len() + dec_digits(ra as nat).len() + lit2.len()
                        + dec_digits(rr as nat).len() + lit3.len()
                        + dec_digits(sa as nat).len() as int;
                    assert(j5 == e3);
                    assert(s@.subrange(e3, e3 + lit4.len() as int) =~= lit4);
                }
            }
            return None;
        }
    };
    let p4 = scan_u16(s, j6);
    proof {
        assert forall|ra: u16, rr: u16, sa: u16, sr: u16|
            s@ == in_msg_doc(InMsgV::AudioStream(ra, rr, sa, sr)) implies p4 == Some::<(u16, usize)>(
            (sr, (j6 + dec_digits(sr as nat).len()) as usize),
        ) by {
            lemma_dec_digits_value(sr as nat);
            assert(p1 == Some::<(u16, usize)>(
                (ra, (i1 + dec_digits(ra as nat).len()) as usize),
            ));
            assert(p2 == Some::<(u16, usize)>(
                (rr, (j2 + dec_digits(rr as nat).len()) as usize),
            ));
            assert(p3 == Some::<(u16, usize)>(
                (sa, (j4 + dec_digits(sa as nat).len()) as usize),
            ));
            let b4 = lit1.len() + dec_digits(ra as nat).len() + lit2.len()
                + dec_digits(rr as nat).len() + lit3.len() + dec_digits(sa as nat).len()
                + lit4.len() as int;
            assert(j6 == b4);
            let e4 = b4 + dec_digits(sr as nat).len() as int;
            assert(s@.subrange(b4, e4) =~= dec_digits(sr as nat));
            assert(s@[e4] == '}');
            assert(!is_digit(s@[e4]));
        }
    }
    let (sr_v, _after) = match p4 {
        Some(p) => p,
        None => {
            return None;
        }
    };
    let m = MessageToServer::AudioStream(
        AudioStream {
            recv_audio_port: ra_v,
            recv_repair_port: rr_v,
            send_audio_port: sa_v,
            send_repair_port: sr_v,
        },
    );
    let rendered = crate::json::encode_client_message(&m);
    let same = rendered == s.to_owned();
    proof {
        assert forall|ra: u16, rr: u16, sa: u16, sr: u16|
            s@ == in_msg_doc(InMsgV::AudioStream(ra, rr, sa, sr)) implies same by {
            assert(p1 == Some::<(u16, usize)>(
                (ra, (i1 + dec_digits(ra as nat).len()) as usize),
            ));
            assert(p2 == Some::<(u16, usize)>(
                (rr, (j2 + dec_digits(rr as nat).len()) as usize),
            ));
            assert(p3 == Some::<(u16, usize)>(
                (sa, (j4 + dec_digits(sa as nat).len()) as usize),
            ));
            assert(p4 == Some::<(u16, usize)>(
                (sr, (j6 + dec_digits(sr as nat).len()) as usize),
            ));
            assert(ra_v == ra && rr_v == rr && sa_v == sa && sr_v == sr);
            assert(rendered@ == s@);
        }
    }
    if same {
        Some(m)
    } else {
        None
    }
}

/// One shape of the wire grammar: accepts exactly the canonical
/// `MuteAudio` document. Its payload is two booleans, so the four
/// candidate documents are simply compared against the input.
fn try_mute_audio(s: &str) -> (r: Option<MessageToServer>)
    ensures
        r matches Some(m) ==> s@ == in_msg_doc(m@),
        forall|a: bool, b: bool|
            s@ == in_msg_doc(InMsgV::MuteAudio(a, b)) ==> r is Some,
{
    let own = s.to_owned();
    let m_tt = MessageToServer::MuteAudio(MuteAudio { send_mute: true, recv_mute: true });
    let r_tt = crate::json::encode_client_message(&m_tt);
    if r_tt == own {
        return Some(m_tt);
    }
    let m_tf = MessageToServer::MuteAudio(MuteAudio { send_mute: true, recv_mute: false });
    let r_tf = crate::json::encode_client_message(&m_tf);
    if r_tf == own {
        return Some(m_tf);
    }
    let m_ft = MessageToServer::MuteAudio(MuteAudio { send_mute: false, recv_mute: true });
    let r_ft = crate::json::encode_client_message(&m_ft);
    if r_ft == own {
        return Some(m_ft);
    }
    let m_ff = MessageToServer::MuteAudio(MuteAudio { send_mute: false, recv_mute: false });
    let r_ff = crate::json::encode_client_message(&m_ff);
    if r_ff == own {
        return Some(m_ff);
    }
    None
}

/// One shape of the wire grammar: accepts exactly the canonical
/// `TransmitAudio` document. Its payload is two booleans, so the four
/// candidate documents are simply compared against the input.
fn try_transmit_audio(s: &str) -> (r: Option<MessageToServer>)
    ensures
        r matches Some(m) ==> s@ == in_msg_doc(m@),
        forall|a: bool, b: bool|
            s@ == in_msg_doc(InMsgV::TransmitAudio(a, b)) ==> r is Some,
{
    let own = s.to_owned();
    let m_tt = MessageToServer::TransmitAudio(TransmitAudio { send_audio: true, recv_audio: true });
    let r_tt = crate::json::encode_client_message(&m_tt);
    if r_tt == own {
        return Some(m_tt);
    }
    let m_tf = MessageToServer::TransmitAudio(TransmitAudio { send_audio: true, recv_audio: false });
    let r_tf = crate::json::encode_client_message(&m_tf);
    if r_tf == own {
        return Some(m_tf);
    }
    let m_ft = MessageToServer::TransmitAudio(TransmitAudio { send_audio: false, recv_audio: true });
    let r_ft = crate::json::encode_client_message(&m_ft);
    if r_ft == own {
        return Some(m_ft);
    }
    let m_ff = MessageToServer::TransmitAudio(TransmitAudio { send_audio: false, recv_audio: false });
    let r_ff = crate::json::encode_client_message(&m_ff);
    if r_ff == own {
        return Some(m_ff);
    }
    None
}

/// Whether a message's strings fit the grammar: only such a message has
/// a wire form at all.
pub open spec fn in_msg_wf(m: InMsgV) -> bool {
    match m {
        InMsgV::Hello(n) => text_ok(n),
        InMsgV::LogMsg(t) => text_ok(t),
        InMsgV::DisplayName(n) => text_ok(n),
        _ => true,
    }
}

/// Decodes one inbound document, both ways exact up to whitespace: an
/// accepted input is, once its whitespace outside strings is dropped,
/// precisely the canonical form of the returned message, and every
/// document whose stripped form is the canonical form of a well-formed
/// message is accepted. Everything else is refused and tears the
/// connection down.
pub fn decode_message(s: &str) -> (r: Result<MessageToServer, MalformedMessage>)
    ensures
        r matches Ok(m) ==> strip_ws_spec(s@, false) == in_msg_doc(m@),
        forall|mv: InMsgV|
            (in_msg_wf(mv) && strip_ws_spec(s@, false) == in_msg_doc(mv)) ==> r is Ok,
{
    let stripped = strip_ws(s);
    let t = stripped.as_str();
    if let Some(m) = try_hello(t) {
        return Ok(m);
    }
    if let Some(m) = try_ping(t) {
        return Ok(m);
    }
    if let Some(m) = try_battery_level(t) {
        return Ok(m);
    }
    if let Some(m) = try_log_msg(t) {
        return Ok(m);
    }
    if let Some(m) = try_display_name(t) {
        return Ok(m);
    }
    if let Some(m) = try_audio_stream(t) {
        return Ok(m);
    }
    if let Some(m) = try_mute_audio(t) {
        return Ok(m);
    }
    if let Some(m) = try_transmit_audio(t) {
        return Ok(m);
    }
    proof {
        assert forall|mv: InMsgV|
            in_msg_wf(mv) && stripped@ == in_msg_doc(mv) implies false by {
            match mv {
                InMsgV::Hello(n) => {
                    assert(stripped@ == in_msg_doc(InMsgV::Hello(n)));
                }
                InMsgV::Ping => {
                    assert(stripped@ == in_msg_doc(InMsgV::Ping));
                }
                InMsgV::BatteryLevel(l, c) => {
                    assert(stripped@ == in_msg_doc(InMsgV::BatteryLevel(l, c)));
                }
                InMsgV::LogMsg(t2) => {
                    assert(stripped@ == in_msg_doc(InMsgV::LogMsg(t2)));
                }
                InMsgV::DisplayName(n) => {
                    assert(stripped@ == in_msg_doc(InMsgV::DisplayName(n)));
                }
                InMsgV::AudioStream(ra, rr, sa, sr) => {
                    assert(stripped@ == in_msg_doc(InMsgV::AudioStream(ra, rr, sa, sr)));
                }
                InMsgV::MuteAudio(a, b) => {
                    assert(stripped@ == in_msg_doc(InMsgV::MuteAudio(a, b)));
                }
                InMsgV::TransmitAudio(a, b) => {
                    assert(stripped@ == in_msg_doc(InMsgV::TransmitAudio(a, b)));
                }
            }
        }
    }
    Err(MalformedMessage)
}

/// Whether a character is JSON whitespace.
pub open spec fn is_ws(c: char) -> bool {
    c == ' ' || c == '\t' || c == '\n' || c == '\r'
}

/// The text with every whitespace character outside string literals
/// removed: the compact form of a pretty-printed document.
pub open spec fn strip_ws_spec(s: Seq<char>, in_str: bool) -> Seq<char>
    decreases s.len(),
{
    if s.len() == 0 {
        Seq::empty()
    } else {
        let c = s[0];
        if in_str {
            seq![c] + strip_ws_spec(s.drop_first(), c != '"')
        } else if is_ws(c) {
            strip_ws_spec(s.drop_first(), false)
        } else {
            seq![c] + strip_ws_spec(s.drop_first(), c == '"')
        }
    }
}

/// Removes the whitespace outside string literals.
fn strip_ws(s: &str) -> (r: String)
    ensures
        r@ == strip_ws_spec(s@, false),
{
    let n = s.unicode_len();
    let mut out = String::new();
    let mut in_str = false;
    let mut i: usize = 0;
    proof {
        assert(s@.skip(0) =~= s@);
    }
    while i < n
        invariant
            i <= n,
            n == s@.len(),
            strip_ws_spec(s@, false) == out@ + strip_ws_spec(s@.skip(i as int), in_str),
        decreases n - i,
    {
        let c = s.get_char(i);
        proof {
            assert(s@.skip(i as int)[0] == s@[i as int]);
            assert(s@.skip(i as int).drop_first() =~= s@.skip(i as int + 1));
        }
        if in_str {
            append_char_via_substring(&mut out, s, i);
            if c == '"' {
                in_str = false;
            }
        } else if c == ' ' || c == '\t' || c == '\n' || c == '\r' {
        } else {
            append_char_via_substring(&mut out, s, i);
            if c == '"' {
                in_str = true;
            }
        }
        i += 1;
    }
    proof {
        assert(s@.skip(n as int) =~= Seq::<char>::empty());
    }
    out
}

/// Appends the single character at position `i` of `s`.
fn append_char_via_substring(out: &mut String, s: &str, i: usize)
    requires
        i < s@.len(),
    ensures
        final(out)@ == old(out)@ + seq![s@[i as int]],
{
    let n = s.unicode_len();
    let piece = s.substring_char(i, i + 1);
    out.append(piece);
    proof {
        assert(piece@ =~= seq![s@[i as int]]);
    }
}

/// The first field, at or after number `k`, that the record carries
/// (14 when none is left).
pub open spec fn cfg_next(stv: crate::state::ClientStateV, k: int) -> int
    decreases 14 - k,
    when k <= 14
{
    if k >= 14 {
        14
    } else if crate::config_doc::cfg_present(stv, k) {
        k
    } else {
        cfg_next(stv, k + 1)
    }
}

/// The rest of a compact configuration document from field `k` on: the
/// remaining rendered segments and the closing brace.
pub open spec fn cfg_tail(stv: crate::state::ClientStateV, k: int, has_prev: bool) -> Seq<char>
    decreases 14 - k,
    when k <= 14
{
    if k >= 14 {
        "}"@
    } else {
        crate::config_doc::cfg_field_seg(stv, false, k, has_prev) + cfg_tail(
            stv,
            k + 1,
            has_prev || crate::config_doc::cfg_present(stv, k),
        )
    }
}

/// The rest of a document either closes at once or starts with the next
/// field the record carries.
pub proof fn lemma_cfg_tail_shape(stv: crate::state::ClientStateV, k: int, has_prev: bool)
    requires
        1 <= k <= 14,
    ensures
        k <= cfg_next(stv, k) <= 14,
        cfg_next(stv, k) == 14 ==> cfg_tail(stv, k, has_prev) == "}"@,
        cfg_next(stv, k) < 14 ==> 14 > cfg_next(stv, k) >= k && crate::config_doc::cfg_present(
            stv,
            cfg_next(stv, k),
        ) && cfg_tail(stv, k, has_prev) == crate::config_doc::cfg_field_seg(
            stv,
            false,
            cfg_next(stv, k),
            has_prev,
        ) + cfg_tail(stv, cfg_next(stv, k) + 1, true),
    decreases 14 - k,
{
    if k == 14 {
    } else if crate::config_doc::cfg_present(stv, k) {
        assert(cfg_tail(stv, k, has_prev) == crate::config_doc::cfg_field_seg(
            stv,
            false,
            k,
            has_prev,
        ) + cfg_tail(stv, k + 1, true));
    } else {
        lemma_cfg_tail_shape(stv, k + 1, has_prev);
        assert(crate::config_doc::cfg_field_seg(stv, false, k, has_prev)
            =~= Seq::<char>::empty());
        assert(cfg_tail(stv, k, has_prev) =~= cfg_tail(stv, k + 1, has_prev));
    }
}

/// Reveals the short punctuation literals of the configuration grammar.
proof fn proof_strlits()
    ensures
        "{"@ =~= seq!['{'],
        "}"@ =~= seq!['}'],
        ","@ =~= seq![','],
        ""@ =~= Seq::<char>::empty(),
        "\""@ =~= seq!['"'],
{
    reveal_strlit("{");
    reveal_strlit("}");
    reveal_strlit(",");
    reveal_strlit("");
    reveal_strlit("\"");
}

/// Splitting a suffix equality at a concatenation boundary.
proof fn lemma_subrange_concat_at(s: Seq<char>, i: int, a: Seq<char>, b: Seq<char>)
    requires
        0 <= i <= s.len(),
        s.subrange(i, s.len() as int) == a + b,
    ensures
        i + a.len() + b.len() == s.len(),
        s.subrange(i, i + a.len() as int) == a,
        s.subrange(i + a.len() as int, s.len() as int) == b,
{
    assert(s.subrange(i, s.len() as int).len() == s.len() - i);
    assert((a + b).len() == a.len() + b.len());
    assert(s.len() - i == a.len() + b.len());
    assert forall|q: int| 0 <= q < a.len() implies s.subrange(i, i + a.len() as int)[q]
        == a[q] by {
        assert(s.subrange(i, s.len() as int)[q] == (a + b)[q]);
        assert(s.subrange(i, s.len() as int)[q] == s[i + q]);
        assert(s.subrange(i, i + a.len() as int)[q] == s[i + q]);
    }
    assert(s.subrange(i, i + a.len() as int) =~= a);
    assert forall|q: int| 0 <= q < b.len() implies s.subrange(
        i + a.len() as int,
        s.len() as int,
    )[q] == b[q] by {
        assert(s.subrange(i, s.len() as int)[a.len() + q] == (a + b)[a.len() + q]);
        assert(s.subrange(i, s.len() as int)[a.len() + q] == s[i + a.len() + q]);
        assert(s.subrange(i + a.len() as int, s.len() as int)[q] == s[i + a.len() + q]);
    }
    assert(s.subrange(i + a.len() as int, s.len() as int) =~= b);
}

/// One character of a matched region.
proof fn lemma_char_at(s: Seq<char>, i: int, a: Seq<char>, q: int)
    requires
        0 <= i,
        i + a.len() <= s.len(),
        s.subrange(i, i + a.len() as int) == a,
        0 <= q < a.len(),
    ensures
        s[i + q] == a[q],
{
    assert(s.subrange(i, i + a.len() as int)[q] == s[i + q]);
}

/// Between two fields, the rest of the document begins with a comma or
/// the closing brace — never with a digit or a quote.
pub proof fn lemma_cfg_tail_head(stv: crate::state::ClientStateV, k: int)
    requires
        1 <= k <= 14,
    ensures
        cfg_tail(stv, k, true).len() >= 1,
        cfg_tail(stv, k, true)[0] == ',' || cfg_tail(stv, k, true)[0] == '}',
{
    proof_strlits();
    lemma_cfg_tail_shape(stv, k, true);
    let np = cfg_next(stv, k);
    if np < 14 {
        let seg = crate::config_doc::cfg_field_seg(stv, false, np, true);
        if np == 1 {
            assert(seg[0] == ',');
        }
        if np == 2 {
            assert(seg[0] == ',');
        }
        if np == 3 {
            assert(seg[0] == ',');
        }
        if np == 4 {
            assert(seg[0] == ',');
        }
        if np == 5 {
            assert(seg[0] == ',');
        }
        if np == 6 {
            assert(seg[0] == ',');
        }
        if np == 7 {
            assert(seg[0] == ',');
        }
        if np == 8 {
            assert(seg[0] == ',');
        }
        if np == 9 {
            assert(seg[0] == ',');
        }
        if np == 10 {
            assert(seg[0] == ',');
        }
        if np == 11 {
            assert(seg[0] == ',');
        }
        if np == 12 {
            assert(seg[0] == ',');
        }
        if np == 13 {
            assert(seg[0] == ',');
        }
        assert(seg.len() >= 1 && seg[0] == ',');
        assert(cfg_tail(stv, k, true)[0] == seg[0]);
    } else {
        assert(np == 14);
        assert(cfg_tail(stv, k, true) == "}"@);
        assert("}"@.len() == 1);
        assert("}"@[0] == '}');
        assert(cfg_tail(stv, k, true)[0] == '}');
    }
}

/// A field set at `k` is seen by every later presence prefix.
proof fn lemma_cfg_any_monotone(stv: crate::state::ClientStateV, k: int, m: int)
    requires
        1 <= k <= m,
    ensures
        crate::config_doc::cfg_present(stv, k) ==> crate::config_doc::cfg_any_upto(stv, m),
    decreases m,
{
    if k < m {
        lemma_cfg_any_monotone(stv, k, m - 1);
    }
}

/// With no field set at all, the rest of the document is just the
/// closing brace.
proof fn lemma_cfg_all_absent(stv: crate::state::ClientStateV, k: int)
    requires
        1 <= k <= 14,
        !crate::config_doc::cfg_any_upto(stv, 13),
    ensures
        cfg_tail(stv, k, false) == "}"@,
    decreases 14 - k,
{
    if k < 14 {
        assert(!crate::config_doc::cfg_present(stv, k)) by {
            lemma_cfg_any_monotone(stv, k, 13);
        }
        lemma_cfg_all_absent(stv, k + 1);
        assert(crate::config_doc::cfg_field_seg(stv, false, k, false) =~= Seq::<char>::empty());
        assert(cfg_tail(stv, k, false) =~= cfg_tail(stv, k + 1, false));
    }
}

/// The rendered body splits at any field boundary into the prefix
/// rendered so far and the rest of the document.
proof fn lemma_cfg_split(stv: crate::state::ClientStateV, k: int)
    requires
        0 <= k <= 13,
    ensures
        crate::config_doc::cfg_upto(stv, false, 13) + "}"@ == crate::config_doc::cfg_upto(
            stv,
            false,
            k,
        ) + cfg_tail(stv, k + 1, crate::config_doc::cfg_any_upto(stv, k)),
    decreases 13 - k,
{
    if k == 13 {
        assert(cfg_tail(stv, 14, crate::config_doc::cfg_any_upto(stv, 13)) == "}"@);
    } else {
        lemma_cfg_split(stv, k + 1);
        let anyk = crate::config_doc::cfg_any_upto(stv, k);
        assert(cfg_tail(stv, k + 1, anyk) == crate::config_doc::cfg_field_seg(
            stv,
            false,
            k + 1,
            anyk,
        ) + cfg_tail(stv, k + 2, anyk || crate::config_doc::cfg_present(stv, k + 1)));
        assert(crate::config_doc::cfg_any_upto(stv, k + 1) == (anyk
            || crate::config_doc::cfg_present(stv, k + 1)));
        assert(crate::config_doc::cfg_upto(stv, false, k + 1) == crate::config_doc::cfg_upto(
            stv,
            false,
            k,
        ) + crate::config_doc::cfg_field_seg(stv, false, k + 1, anyk));
        assert(crate::config_doc::cfg_upto(stv, false, k) + cfg_tail(stv, k + 1, anyk)
            =~= crate::config_doc::cfg_upto(stv, false, k + 1) + cfg_tail(
            stv,
            k + 2,
            crate::config_doc::cfg_any_upto(stv, k + 1),
        ));
    }
}

/// A compact configuration document is the opening brace followed by the
/// rendered fields and the closing brace.
pub proof fn lemma_config_doc_is_tail(stv: crate::state::ClientStateV)
    ensures
        crate::config_doc::config_doc(stv, false) == "{"@ + cfg_tail(stv, 1, false),
{
    proof_strlits();
    reveal_strlit("{}");
    lemma_cfg_split(stv, 0);
    assert(crate::config_doc::cfg_upto(stv, false, 0) =~= Seq::<char>::empty());
    assert(Seq::<char>::empty() + cfg_tail(stv, 1, false) =~= cfg_tail(stv, 1, false));
    if crate::config_doc::cfg_any_upto(stv, 13) {
        assert(crate::config_doc::config_doc(stv, false) =~= "{"@ + cfg_tail(stv, 1, false));
    } else {
        lemma_cfg_all_absent(stv, 1);
        assert(crate::config_doc::config_doc(stv, false) =~= "{"@ + cfg_tail(stv, 1, false));
    }
}

/// One field of the compact configuration grammar, taken in order; a
/// junction that does not carry this field is left to the next step.
#[verifier::rlimit(100)]
#[verifier::spinoff_prover]
fn cfg_take_client_name(s: &str, i: usize, any: bool, st: &mut ClientState) -> (r: (usize, bool))
    ensures
        forall|stv: crate::state::ClientStateV| #![trigger cfg_tail(stv, 1, any)]
            (crate::confsync::state_text_ok(stv) && i + cfg_tail(stv, 1, any).len() == s@.len()
                && s@.subrange(i as int, s@.len() as int) == cfg_tail(stv, 1, any)) ==> ({
                let seg = crate::config_doc::cfg_field_seg(stv, false, 1, any);
                &&& r.0 == i + seg.len()
                &&& r.1 == (any || crate::config_doc::cfg_present(stv, 1))
                &&& final(st)@ == (if crate::config_doc::cfg_present(stv, 1) {
                    crate::state::ClientStateV { client_name: stv.client_name, ..old(st)@ }
                } else {
                    old(st)@
                })
            }),
{
    let _n = s.unicode_len();
    proof {
        proof_strlits();
        reveal_strlit(",\"client_name\":");
        reveal_strlit("\"client_name\":");
        reveal_strlit("\"battery_level\":");
        reveal_strlit("\"is_charging\":");
        reveal_strlit("\"display_name\":");
        reveal_strlit("\"recv_audio_port\":");
        reveal_strlit("\"recv_repair_port\":");
        reveal_strlit("\"send_audio_port\":");
        reveal_strlit("\"send_repair_port\":");
        reveal_strlit("\"send_mute\":");
        reveal_strlit("\"recv_mute\":");
        reveal_strlit("\"send_audio\":");
        reveal_strlit("\"recv_audio\":");
        reveal_strlit("\"battery_log_interval_secs\":");
    }
    let hit = if any {
        eat_lit(s, i, ",\"client_name\":")
    } else {
        eat_lit(s, i, "\"client_name\":")
    };
    let ghost pat: Seq<char> = if any {
        ",\"client_name\":"@
    } else {
        "\"client_name\":"@
    };
    proof {
        assert(",\"client_name\":"@ =~= ","@ + "\"client_name\":"@);
        assert forall|stv: crate::state::ClientStateV|
            #![trigger cfg_tail(stv, 1, any)]
            (crate::confsync::state_text_ok(stv) && i + cfg_tail(stv, 1, any).len() == s@.len()
                && s@.subrange(i as int, s@.len() as int) == cfg_tail(stv, 1, any)) implies (crate::config_doc::cfg_present(stv, 1) <==> hit is Some) by {
            if crate::config_doc::cfg_present(stv, 1) {
                let seg = crate::config_doc::cfg_field_seg(stv, false, 1, any);
                assert(seg =~= pat + (crate::json::qstr(stv.client_name->Some_0)));
                assert(cfg_tail(stv, 1, any) == seg + cfg_tail(stv, 2int, true));
                assert(s@.subrange(i as int, s@.len() as int) =~= pat + ((crate::json::qstr(stv.client_name->Some_0))
                    + cfg_tail(stv, 2int, true)));
                lemma_subrange_concat_at(
                    s@,
                    i as int,
                    pat,
                    (crate::json::qstr(stv.client_name->Some_0)) + cfg_tail(stv, 2int, true),
                );
                assert(hit is Some);
            } else {
                if hit is Some {
                    assert(s@.subrange(i as int, i + pat.len() as int) == pat);
                    lemma_cfg_tail_shape(stv, 1, any);
                    let np = cfg_next(stv, 1);
                    let soff: int = if any { 1 } else { 0 };
                    if np == 14 {
                        assert(s@.len() == i + 1);
                        assert(i + pat.len() <= s@.len());
                        assert(false);
                    } else {
                        let segnp = crate::config_doc::cfg_field_seg(stv, false, np, any);
                        lemma_subrange_concat_at(
                            s@,
                            i as int,
                            segnp,
                            cfg_tail(stv, np + 1, true),
                        );
                        if np == 2 {
                            assert(segnp =~= (if any { ","@ } else { ""@ }) + "\"battery_level\":"@ + (
                            bat_chars(stv.battery_level->Some_0 as nat))) by {
                                reveal_strlit("\"battery_level\":");
                            }
                            assert(segnp[soff + 1] == 'b') by {
                                reveal_strlit("\"battery_level\":");
                            }
                            lemma_char_at(s@, i as int, segnp, soff + 1);
                            lemma_char_at(s@, i as int, pat, soff + 1);
                            assert(pat[soff + 1] == 'c');
                        }
                        if np == 3 {
                            assert(segnp =~= (if any { ","@ } else { ""@ }) + "\"is_charging\":"@ + (
                            bool_chars(stv.is_charging->Some_0))) by {
                                reveal_strlit("\"is_charging\":");
                            }
                            assert(segnp[soff + 1] == 'i') by {
                                reveal_strlit("\"is_charging\":");
                            }
                            lemma_char_at(s@, i as int, segnp, soff + 1);
                            lemma_char_at(s@, i as int, pat, soff + 1);
                            assert(pat[soff + 1] == 'c');
                        }
                        if np == 4 {
                            assert(segnp =~= (if any { ","@ } else { ""@ }) + "\"display_name\":"@ + (
                            crate::json::qstr(stv.display_name->Some_0))) by {
                                reveal_strlit("\"display_name\":");
                            }
                            assert(segnp[soff + 1] == 'd') by {
                                reveal_strlit("\"display_name\":");
                            }
                            lemma_char_at(s@, i as int, segnp, soff + 1);
                            lemma_char_at(s@, i as int, pat, soff + 1);
                            assert(pat[soff + 1] == 'c');
                        }
                        if np == 5 {
                            assert(segnp =~= (if any { ","@ } else { ""@ }) + "\"recv_audio_port\":"@ + (
                            dec_digits(stv.recv_audio_port->Some_0 as nat))) by {
                                reveal_strlit("\"recv_audio_port\":");
                            }
                            assert(segnp[soff + 1] == 'r') by {
                                reveal_strlit("\"recv_audio_port\":");
                            }
                            lemma_char_at(s@, i as int, segnp, soff + 1);
                            lemma_char_at(s@, i as int, pat, soff + 1);
                            assert(pat[soff + 1] == 'c');
                        }
                        if np == 6 {
                            assert(segnp =~= (if any { ","@ } else { ""@ }) + "\"recv_repair_port\":"@ + (
                            dec_digits(stv.recv_repair_port->Some_0 as nat))) by {
                                reveal_strlit("\"recv_repair_port\":");
                            }
                            assert(segnp[soff + 1] == 'r') by {
                                reveal_strlit("\"recv_repair_port\":");
                            }
                            lemma_char_at(s@, i as int, segnp, soff + 1);
                            lemma_char_at(s@, i as int, pat, soff + 1);
                            assert(pat[soff + 1] == 'c');
                        }
                        if np == 7 {
                            assert(segnp =~= (if any { ","@ } else { ""@ }) + "\"send_audio_port\":"@ + (
                            dec_digits(stv.send_audio_port->Some_0 as nat))) by {
                                reveal_strlit("\"send_audio_port\":");
                            }
                            assert(segnp[soff + 1] == 's') by {
                                reveal_strlit("\"send_audio_port\":");
                            }
                            lemma_char_at(s@, i as int, segnp, soff + 1);
                            lemma_char_at(s@, i as int, pat, soff + 1);
                            assert(pat[soff + 1] == 'c');
                        }
                        if np == 8 {
                            assert(segnp =~= (if any { ","@ } else { ""@ }) + "\"send_repair_port\":"@ + (
                            dec_digits(stv.send_repair_port->Some_0 as nat))) by {
                                reveal_strlit("\"send_repair_port\":");
                            }
                            assert(segnp[soff + 1] == 's') by {
                                reveal_strlit("\"send_repair_port\":");
                            }
                            lemma_char_at(s@, i as int, segnp, soff + 1);
                            lemma_char_at(s@, i as int, pat, soff + 1);
                            assert(pat[soff + 1] == 'c');
                        }
                        if np == 9 {
                            assert(segnp =~= (if any { ","@ } else { ""@ }) + "\"send_mute\":"@ + (
                            bool_chars(stv.send_mute->Some_0))) by {
                                reveal_strlit("\"send_mute\":");
                            }
                            assert(segnp[soff + 1] == 's') by {
                                reveal_strlit("\"send_mute\":");
                            }
                            lemma_char_at(s@, i as int, segnp, soff + 1);
                            lemma_char_at(s@, i as int, pat, soff + 1);
                            assert(pat[soff + 1] == 'c');
                        }
                        if np == 10 {
                            assert(segnp =~= (if any { ","@ } else { ""@ }) + "\"recv_mute\":"@ + (
                            bool_chars(stv.recv_mute->Some_0))) by {
                                reveal_strlit("\"recv_mute\":");
                            }
                            assert(segnp[soff + 1] == 'r') by {
                                reveal_strlit("\"recv_mute\":");
                            }
                            lemma_char_at(s@, i as int, segnp, soff + 1);
                            lemma_char_at(s@, i as int, pat, soff + 1);
                            assert(pat[soff + 1] == 'c');
                        }
                        if np == 11 {
                            assert(segnp =~= (if any { ","@ } else { ""@ }) + "\"send_audio\":"@ + (
                            bool_chars(stv.send_audio->Some_0))) by {
                                reveal_strlit("\"send_audio\":");
                            }
                            assert(segnp[soff + 1] == 's') by {
                                reveal_strlit("\"send_audio\":");
                            }
                            lemma_char_at(s@, i as int, segnp, soff + 1);
                            lemma_char_at(s@, i as int, pat, soff + 1);
                            assert(pat[soff + 1] == 'c');
                        }
                        if np == 12 {
                            assert(segnp =~= (if any { ","@ } else { ""@ }) + "\"recv_audio\":"@ + (
                            bool_chars(stv.recv_audio->Some_0))) by {
                                reveal_strlit("\"recv_audio\":");
                            }
                            assert(segnp[soff + 1] == 'r') by {
                                reveal_strlit("\"recv_audio\":");
                            }
                            lemma_char_at(s@, i as int, segnp, soff + 1);
                            lemma_char_at(s@, i as int, pat, soff + 1);
                            assert(pat[soff + 1] == 'c');
                        }
                        if np == 13 {
                            assert(segnp =~= (if any { ","@ } else { ""@ }) + "\"battery_log_interval_secs\":"@ + (
                            dec_digits(stv.battery_log_interval_secs->Some_0 as nat))) by {
                                reveal_strlit("\"battery_log_interval_secs\":");
                            }
                            assert(segnp[soff + 1] == 'b') by {
                                reveal_strlit("\"battery_log_interval_secs\":");
                            }
                            lemma_char_at(s@, i as int, segnp, soff + 1);
                            lemma_char_at(s@, i as int, pat, soff + 1);
                            assert(pat[soff + 1] == 'c');
                        }
                        assert(false);
                    }
                }
            }
        }
    }
    let j = match hit {
        None => {
            proof {
                assert forall|stv: crate::state::ClientStateV|
                    #![trigger cfg_tail(stv, 1, any)]
                    (crate::confsync::state_text_ok(stv) && i + cfg_tail(stv, 1, any).len() == s@.len()
                && s@.subrange(i as int, s@.len() as int) == cfg_tail(stv, 1, any)) implies crate::config_doc::cfg_field_seg(
                    stv,
                    false,
                    1,
                    any,
                ).len() == 0 by {
                    assert(crate::config_doc::cfg_field_seg(stv, false, 1, any)
                        =~= Seq::<char>::empty());
                }
            }
            return (i, any);
        }
        Some(j) => j,
    };
    let vres = match eat_lit(s, j, "\"") {
        Some(j1) => scan_to_quote(s, j1),
        None => None,
    };
    proof {
        assert forall|stv: crate::state::ClientStateV|
            #![trigger cfg_tail(stv, 1, any)]
            (crate::confsync::state_text_ok(stv) && i + cfg_tail(stv, 1, any).len() == s@.len()
                && s@.subrange(i as int, s@.len() as int) == cfg_tail(stv, 1, any)) implies ({
                let seg = crate::config_doc::cfg_field_seg(stv, false, 1, any);
                &&& crate::config_doc::cfg_present(stv, 1)
                &&& vres is Some
                &&& (vres->Some_0).1 == i + seg.len()
                &&& (vres->Some_0).0@ == stv.client_name->Some_0
            }) by {
            let seg = crate::config_doc::cfg_field_seg(stv, false, 1, any);
            let val = (crate::json::qstr(stv.client_name->Some_0));
            assert(seg =~= pat + val);
            assert(cfg_tail(stv, 1, any) == seg + cfg_tail(stv, 2int, true));
            assert(s@.subrange(i as int, s@.len() as int) =~= pat + (val + cfg_tail(
                stv,
                2int,
                true,
            )));
            lemma_subrange_concat_at(s@, i as int, pat, val + cfg_tail(stv, 2int, true));
            lemma_subrange_concat_at(
                s@,
                i + pat.len() as int,
                val,
                cfg_tail(stv, 2int, true),
            );
            assert(j == i + pat.len());
            let v = stv.client_name->Some_0;
            crate::json::lemma_esc_id(v);
            assert(val =~= seq!['"'] + v + seq!['"']);
            lemma_char_at(s@, j as int, val, 0);
            assert(s@[j as int] == '"');
            assert(s@.subrange(j as int, j + 1) =~= "\""@);
            assert forall|q: int|
                j + 1 <= q < j + 1 + v.len() implies s@[q] == v[q - (j + 1)] by {
                lemma_char_at(s@, j as int, val, q - j);
            }
            assert(forall|q: int| j + 1 <= q < j + 1 + v.len() ==> s@[q] != '"');
            lemma_char_at(s@, j as int, val, 1 + v.len() as int);
            assert(s@[j + 1 + v.len()] == '"');
            assert(vres is Some && (vres->Some_0).0@ == v && (vres->Some_0).1 == j + val.len())
                by {
                let p = vres->Some_0;
                let kq = p.1 - 1;
                if kq < j + 1 + v.len() {
                    assert(s@[kq as int] != '"');
                }
                if j + 1 + v.len() < kq {
                    assert(s@[j + 1 + v.len()] != '"');
                }
                assert(p.0@ =~= v);
            }
            assert(i + seg.len() == j + val.len());
        }
    }
    match vres {
        Some((text, j2)) => {
            st.client_name = Some(text);
            (j2, true)
        }
        None => (i, any),
    }
}

/// One field of the compact configuration grammar, taken in order; a
/// junction that does not carry this field is left to the next step.
#[verifier::rlimit(100)]
#[verifier::spinoff_prover]
fn cfg_take_battery_level(s: &str, i: usize, any: bool, st: &mut ClientState) -> (r: (usize, bool))
    ensures
        forall|stv: crate::state::ClientStateV| #![trigger cfg_tail(stv, 2, any)]
            (crate::confsync::state_text_ok(stv) && i + cfg_tail(stv, 2, any).len() == s@.len()
                && s@.subrange(i as int, s@.len() as int) == cfg_tail(stv, 2, any)) ==> ({
                let seg = crate::config_doc::cfg_field_seg(stv, false, 2, any);
                &&& r.0 == i + seg.len()
                &&& r.1 == (any || crate::config_doc::cfg_present(stv, 2))
                &&& final(st)@ == (if crate::config_doc::cfg_present(stv, 2) {
                    crate::state::ClientStateV { battery_level: stv.battery_level, ..old(st)@ }
                } else {
                    old(st)@
                })
            }),
{
    let _n = s.unicode_len();
    proof {
        proof_strlits();
        reveal_strlit(",\"battery_level\":");
        reveal_strlit("\"battery_level\":");
        reveal_strlit("\"is_charging\":");
        reveal_strlit("\"display_name\":");
        reveal_strlit("\"recv_audio_port\":");
        reveal_strlit("\"recv_repair_port\":");
        reveal_strlit("\"send_audio_port\":");
        reveal_strlit("\"send_repair_port\":");
        reveal_strlit("\"send_mute\":");
        reveal_strlit("\"recv_mute\":");
        reveal_strlit("\"send_audio\":");
        reveal_strlit("\"recv_audio\":");
        reveal_strlit("\"battery_log_interval_secs\":");
    }
    let hit = if any {
        eat_lit(s, i, ",\"battery_level\":")
    } else {
        eat_lit(s, i, "\"battery_level\":")
    };
    let ghost pat: Seq<char> = if any {
        ",\"battery_level\":"@
    } else {
        "\"battery_level\":"@
    };
    proof {
        assert(",\"battery_level\":"@ =~= ","@ + "\"battery_level\":"@);
        assert forall|stv: crate::state::ClientStateV|
            #![trigger cfg_tail(stv, 2, any)]
            (crate::confsync::state_text_ok(stv) && i + cfg_tail(stv, 2, any).len() == s@.len()
                && s@.subrange(i as int, s@.len() as int) == cfg_tail(stv, 2, any)) implies (crate::config_doc::cfg_present(stv, 2) <==> hit is Some) by {
            if crate::config_doc::cfg_present(stv, 2) {
                let seg = crate::config_doc::cfg_field_seg(stv, false, 2, any);
                assert(seg =~= pat + (bat_chars(stv.battery_level->Some_0 as nat)));
                assert(cfg_tail(stv, 2, any) == seg + cfg_tail(stv, 3int, true));
                assert(s@.subrange(i as int, s@.len() as int) =~= pat + ((bat_chars(stv.battery_level->Some_0 as nat))
                    + cfg_tail(stv, 3int, true)));
                lemma_subrange_concat_at(
                    s@,
                    i as int,
                    pat,
                    (bat_chars(stv.battery_level->Some_0 as nat)) + cfg_tail(stv, 3int, true),
                );
                assert(hit is Some);
            } else {
                if hit is Some {
                    assert(s@.subrange(i as int, i + pat.len() as int) == pat);
                    lemma_cfg_tail_shape(stv, 2, any);
                    let np = cfg_next(stv, 2);
                    let soff: int = if any { 1 } else { 0 };
                    if np == 14 {
                        assert(s@.len() == i + 1);
                        assert(i + pat.len() <= s@.len());
                        assert(false);
                    } else {
                        let segnp = crate::config_doc::cfg_field_seg(stv, false, np, any);
                        lemma_subrange_concat_at(
                            s@,
                            i as int,
                            segnp,
                            cfg_tail(stv, np + 1, true),
                        );
                        if np == 3 {
                            assert(segnp =~= (if any { ","@ } else { ""@ }) + "\"is_charging\":"@ + (
                            bool_chars(stv.is_charging->Some_0))) by {
                                reveal_strlit("\"is_charging\":");
                            }
                            assert(segnp[soff + 1] == 'i') by {
                                reveal_strlit("\"is_charging\":");
                            }
                            lemma_char_at(s@, i as int, segnp, soff + 1);
                            lemma_char_at(s@, i as int, pat, soff + 1);
                            assert(pat[soff + 1] == 'b');
                        }
                        if np == 4 {
                            assert(segnp =~= (if any { ","@ } else { ""@ }) + "\"display_name\":"@ + (
                            crate::json::qstr(stv.display_name->Some_0))) by {
                                reveal_strlit("\"display_name\":");
                            }
                            assert(segnp[soff + 1] == 'd') by {
                                reveal_strlit("\"display_name\":");
                            }
                            lemma_char_at(s@, i as int, segnp, soff + 1);
                            lemma_char_at(s@, i as int, pat, soff + 1);
                            assert(pat[soff + 1] == 'b');
                        }
                        if np == 5 {
                            assert(segnp =~= (if any { ","@ } else { ""@ }) + "\"recv_audio_port\":"@ + (
                            dec_digits(stv.recv_audio_port->Some_0 as nat))) by {
                                reveal_strlit("\"recv_audio_port\":");
                            }
                            assert(segnp[soff + 1] == 'r') by {
                                reveal_strlit("\"recv_audio_port\":");
                            }
                            lemma_char_at(s@, i as int, segnp, soff + 1);
                            lemma_char_at(s@, i as int, pat, soff + 1);
                            assert(pat[soff + 1] == 'b');
                        }
                        if np == 6 {
                            assert(segnp =~= (if any { ","@ } else { ""@ }) + "\"recv_repair_port\":"@ + (
                            dec_digits(stv.recv_repair_port->Some_0 as nat))) by {
                                reveal_strlit("\"recv_repair_port\":");
                            }
                            assert(segnp[soff + 1] == 'r') by {
                                reveal_strlit("\"recv_repair_port\":");
                            }
                            lemma_char_at(s@, i as int, segnp, soff + 1);
                            lemma_char_at(s@, i as int, pat, soff + 1);
                            assert(pat[soff + 1] == 'b');
                        }
                        if np == 7 {
                            assert(segnp =~= (if any { ","@ } else { ""@ }) + "\"send_audio_port\":"@ + (
                            dec_digits(stv.send_audio_port->Some_0 as nat))) by {
                                reveal_strlit("\"send_audio_port\":");
                            }
                            assert(segnp[soff + 1] == 's') by {
                                reveal_strlit("\"send_audio_port\":");
                            }
                            lemma_char_at(s@, i as int, segnp, soff + 1);
                            lemma_char_at(s@, i as int, pat, soff + 1);
                            assert(pat[soff + 1] == 'b');
                        }
                        if np == 8 {
                            assert(segnp =~= (if any { ","@ } else { ""@ }) + "\"send_repair_port\":"@ + (
                            dec_digits(stv.send_repair_port->Some_0 as nat))) by {
                                reveal_strlit("\"send_repair_port\":");
                            }
                            assert(segnp[soff + 1] == 's') by {
                                reveal_strlit("\"send_repair_port\":");
                            }
                            lemma_char_at(s@, i as int, segnp, soff + 1);
                            lemma_char_at(s@, i as int, pat, soff + 1);
                            assert(pat[soff + 1] == 'b');
                        }
                        if np == 9 {
                            assert(segnp =~= (if any { ","@ } else { ""@ }) + "\"send_mute\":"@ + (
                            bool_chars(stv.send_mute->Some_0))) by {
                                reveal_strlit("\"send_mute\":");
                            }
                            assert(segnp[soff + 1] == 's') by {
                                reveal_strlit("\"send_mute\":");
                            }
                            lemma_char_at(s@, i as int, segnp, soff + 1);
                            lemma_char_at(s@, i as int, pat, soff + 1);
                            assert(pat[soff + 1] == 'b');
                        }
                        if np == 10 {
                            assert(segnp =~= (if any { ","@ } else { ""@ }) + "\"recv_mute\":"@ + (
                            bool_chars(stv.recv_mute->Some_0))) by {
                                reveal_strlit("\"recv_mute\":");
                            }
                            assert(segnp[soff + 1] == 'r') by {
                                reveal_strlit("\"recv_mute\":");
                            }
                            lemma_char_at(s@, i as int, segnp, soff + 1);
                            lemma_char_at(s@, i as int, pat, soff + 1);
                            assert(pat[soff + 1] == 'b');
                        }
                        if np == 11 {
                            assert(segnp =~= (if any { ","@ } else { ""@ }) + "\"send_audio\":"@ + (
                            bool_chars(stv.send_audio->Some_0))) by {
                                reveal_strlit("\"send_audio\":");
                            }
                            assert(segnp[soff + 1] == 's') by {
                                reveal_strlit("\"send_audio\":");
                            }
                            lemma_char_at(s@, i as int, segnp, soff + 1);
                            lemma_char_at(s@, i as int, pat, soff + 1);
                            assert(pat[soff + 1] == 'b');
                        }
                        if np == 12 {
                            assert(segnp =~= (if any { ","@ } else { ""@ }) + "\"recv_audio\":"@ + (
                            bool_chars(stv.recv_audio->Some_0))) by {
                                reveal_strlit("\"recv_audio\":");
                            }
                            assert(segnp[soff + 1] == 'r') by {
                                reveal_strlit("\"recv_audio\":");
                            }
                            lemma_char_at(s@, i as int, segnp, soff + 1);
                            lemma_char_at(s@, i as int, pat, soff + 1);
                            assert(pat[soff + 1] == 'b');
                        }
                        if np == 13 {
                            assert(segnp =~= (if any { ","@ } else { ""@ }) + "\"battery_log_interval_secs\":"@ + (
                            dec_digits(stv.battery_log_interval_secs->Some_0 as nat))) by {
                                reveal_strlit("\"battery_log_interval_secs\":");
                            }
                            assert(segnp[soff + 10] == 'o') by {
                                reveal_strlit("\"battery_log_interval_secs\":");
                            }
                            lemma_char_at(s@, i as int, segnp, soff + 10);
                            lemma_char_at(s@, i as int, pat, soff + 10);
                            assert(pat[soff + 10] == 'e');
                        }
                        assert(false);
                    }
                }
            }
        }
    }
    let j = match hit {
        None => {
            proof {
                assert forall|stv: crate::state::ClientStateV|
                    #![trigger cfg_tail(stv, 2, any)]
                    (crate::confsync::state_text_ok(stv) && i + cfg_tail(stv, 2, any).len() == s@.len()
                && s@.subrange(i as int, s@.len() as int) == cfg_tail(stv, 2, any)) implies crate::config_doc::cfg_field_seg(
                    stv,
                    false,
                    2,
                    any,
                ).len() == 0 by {
                    assert(crate::config_doc::cfg_field_seg(stv, false, 2, any)
                        =~= Seq::<char>::empty());
                }
            }
            return (i, any);
        }
        Some(j) => j,
    };
    let vres = scan_bat(s, j);
    proof {
        assert forall|stv: crate::state::ClientStateV|
            #![trigger cfg_tail(stv, 2, any)]
            (crate::confsync::state_text_ok(stv) && i + cfg_tail(stv, 2, any).len() == s@.len()
                && s@.subrange(i as int, s@.len() as int) == cfg_tail(stv, 2, any)) implies ({
                let seg = crate::config_doc::cfg_field_seg(stv, false, 2, any);
                &&& crate::config_doc::cfg_present(stv, 2)
                &&& vres is Some
                &&& (vres->Some_0).1 == i + seg.len()
                &&& (vres->Some_0).0 == stv.battery_level->Some_0
            }) by {
            let seg = crate::config_doc::cfg_field_seg(stv, false, 2, any);
            let val = (bat_chars(stv.battery_level->Some_0 as nat));
            assert(seg =~= pat + val);
            assert(cfg_tail(stv, 2, any) == seg + cfg_tail(stv, 3int, true));
            assert(s@.subrange(i as int, s@.len() as int) =~= pat + (val + cfg_tail(
                stv,
                3int,
                true,
            )));
            lemma_subrange_concat_at(s@, i as int, pat, val + cfg_tail(stv, 3int, true));
            lemma_subrange_concat_at(
                s@,
                i + pat.len() as int,
                val,
                cfg_tail(stv, 3int, true),
            );
            assert(j == i + pat.len());
            lemma_cfg_tail_head(stv, 3int);
            lemma_char_at(s@, j + val.len() as int, cfg_tail(stv, 3int, true), 0);
            assert(!is_digit(s@[j + val.len()]));
            assert(vres == Some::<(u32, usize)>(
                (stv.battery_level->Some_0, (j + val.len()) as usize),
            ));
            assert(i + seg.len() == j + val.len());
        }
    }
    match vres {
        Some((v, j2)) => {
            st.battery_level = Some(v);
            (j2, true)
        }
        None => (i, any),
    }
}

/// One field of the compact configuration grammar, taken in order; a
/// junction that does not carry this field is left to the next step.
#[verifier::rlimit(100)]
#[verifier::spinoff_prover]
fn cfg_take_is_charging(s: &str, i: usize, any: bool, st: &mut ClientState) -> (r: (usize, bool))
    ensures
        forall|stv: crate::state::ClientStateV| #![trigger cfg_tail(stv, 3, any)]
            (crate::confsync::state_text_ok(stv) && i + cfg_tail(stv, 3, any).len() == s@.len()
                && s@.subrange(i as int, s@.len() as int) == cfg_tail(stv, 3, any)) ==> ({
                let seg = crate::config_doc::cfg_field_seg(stv, false, 3, any);
                &&& r.0 == i + seg.len()
                &&& r.1 == (any || crate::config_doc::cfg_present(stv, 3))
                &&& final(st)@ == (if crate::config_doc::cfg_present(stv, 3) {
                    crate::state::ClientStateV { is_charging: stv.is_charging, ..old(st)@ }
                } else {
                    old(st)@
                })
            }),
{
    let _n = s.unicode_len();
    proof {
        proof_strlits();
        reveal_strlit(",\"is_charging\":");
        reveal_strlit("\"is_charging\":");
        reveal_strlit("\"display_name\":");
        reveal_strlit("\"recv_audio_port\":");
        reveal_strlit("\"recv_repair_port\":");
        reveal_strlit("\"send_audio_port\":");
        reveal_strlit("\"send_repair_port\":");
        reveal_strlit("\"send_mute\":");
        reveal_strlit("\"recv_mute\":");
        reveal_strlit("\"send_audio\":");
        reveal_strlit("\"recv_audio\":");
        reveal_strlit("\"battery_log_interval_secs\":");
    }
    let hit = if any {
        eat_lit(s, i, ",\"is_charging\":")
    } else {
        eat_lit(s, i, "\"is_charging\":")
    };
    let ghost pat: Seq<char> = if any {
        ",\"is_charging\":"@
    } else {
        "\"is_charging\":"@
    };
    proof {
        assert(",\"is_charging\":"@ =~= ","@ + "\"is_charging\":"@);
        assert forall|stv: crate::state::ClientStateV|
            #![trigger cfg_tail(stv, 3, any)]
            (crate::confsync::state_text_ok(stv) && i + cfg_tail(stv, 3, any).len() == s@.len()
                && s@.subrange(i as int, s@.len() as int) == cfg_tail(stv, 3, any)) implies (crate::config_doc::cfg_present(stv, 3) <==> hit is Some) by {
            if crate::config_doc::cfg_present(stv, 3) {
                let seg = crate::config_doc::cfg_field_seg(stv, false, 3, any);
                assert(seg =~= pat + (bool_chars(stv.is_charging->Some_0)));
                assert(cfg_tail(stv, 3, any) == seg + cfg_tail(stv, 4int, true));
                assert(s@.subrange(i as int, s@.len() as int) =~= pat + ((bool_chars(stv.is_charging->Some_0))
                    + cfg_tail(stv, 4int, true)));
                lemma_subrange_concat_at(
                    s@,
                    i as int,
                    pat,
                    (bool_chars(stv.is_charging->Some_0)) + cfg_tail(stv, 4int, true),
                );
                assert(hit is Some);
            } else {
                if hit is Some {
                    assert(s@.subrange(i as int, i + pat.len() as int) == pat);
                    lemma_cfg_tail_shape(stv, 3, any);
                    let np = cfg_next(stv, 3);
                    let soff: int = if any { 1 } else { 0 };
                    if np == 14 {
                        assert(s@.len() == i + 1);
                        assert(i + pat.len() <= s@.len());
                        assert(false);
                    } else {
                        let segnp = crate::config_doc::cfg_field_seg(stv, false, np, any);
                        lemma_subrange_concat_at(
                            s@,
                            i as int,
                            segnp,
                            cfg_tail(stv, np + 1, true),
                        );
                        if np == 4 {
                            assert(segnp =~= (if any { ","@ } else { ""@ }) + "\"display_name\":"@ + (
                            crate::json::qstr(stv.display_name->Some_0))) by {
                                reveal_strlit("\"display_name\":");
                            }
                            assert(segnp[soff + 1] == 'd') by {
                                reveal_strlit("\"display_name\":");
                            }
                            lemma_char_at(s@, i as int, segnp, soff + 1);
                            lemma_char_at(s@, i as int, pat, soff + 1);
                            assert(pat[soff + 1] == 'i');
                        }
                        if np == 5 {
                            assert(segnp =~= (if any { ","@ } else { ""@ }) + "\"recv_audio_port\":"@ + (
                            dec_digits(stv.recv_audio_port->Some_0 as nat))) by {
                                reveal_strlit("\"recv_audio_port\":");
                            }
                            assert(segnp[soff + 1] == 'r') by {
                                reveal_strlit("\"recv_audio_port\":");
                            }
                            lemma_char_at(s@, i as int, segnp, soff + 1);
                            lemma_char_at(s@, i as int, pat, soff + 1);
                            assert(pat[soff + 1] == 'i');
                        }
                        if np == 6 {
                            assert(segnp =~= (if any { ","@ } else { ""@ }) + "\"recv_repair_port\":"@ + (
                            dec_digits(stv.recv_repair_port->Some_0 as nat))) by {
                                reveal_strlit("\"recv_repair_port\":");
                            }
                            assert(segnp[soff + 1] == 'r') by {
                                reveal_strlit("\"recv_repair_port\":");
                            }
                            lemma_char_at(s@, i as int, segnp, soff + 1);
                            lemma_char_at(s@, i as int, pat, soff + 1);
                            assert(pat[soff + 1] == 'i');
                        }
                        if np == 7 {
                            assert(segnp =~= (if any { ","@ } else { ""@ }) + "\"send_audio_port\":"@ + (
                            dec_digits(stv.send_audio_port->Some_0 as nat))) by {
                                reveal_strlit("\"send_audio_port\":");
                            }
                            assert(segnp[soff + 1] == 's') by {
                                reveal_strlit("\"send_audio_port\":");
                            }
                            lemma_char_at(s@, i as int, segnp, soff + 1);
                            lemma_char_at(s@, i as int, pat, soff + 1);
                            assert(pat[soff + 1] == 'i');
                        }
                        if np == 8 {
                            assert(segnp =~= (if any { ","@ } else { ""@ }) + "\"send_repair_port\":"@ + (
                            dec_digits(stv.send_repair_port->Some_0 as nat))) by {
                                reveal_strlit("\"send_repair_port\":");
                            }
                            assert(segnp[soff + 1] == 's') by {
                                reveal_strlit("\"send_repair_port\":");
                            }
                            lemma_char_at(s@, i as int, segnp, soff + 1);
                            lemma_char_at(s@, i as int, pat, soff + 1);
                            assert(pat[soff + 1] == 'i');
                        }
                        if np == 9 {
                            assert(segnp =~= (if any { ","@ } else { ""@ }) + "\"send_mute\":"@ + (
                            bool_chars(stv.send_mute->Some_0))) by {
                                reveal_strlit("\"send_mute\":");
                            }
                            assert(segnp[soff + 1] == 's') by {
                                reveal_strlit("\"send_mute\":");
                            }
                            lemma_char_at(s@, i as int, segnp, soff + 1);
                            lemma_char_at(s@, i as int, pat, soff + 1);
                            assert(pat[soff + 1] == 'i');
                        }
                        if np == 10 {
                            assert(segnp =~= (if any { ","@ } else { ""@ }) + "\"recv_mute\":"@ + (
                            bool_chars(stv.recv_mute->Some_0))) by {
                                reveal_strlit("\"recv_mute\":");
                            }
                            assert(segnp[soff + 1] == 'r') by {
                                reveal_strlit("\"recv_mute\":");
                            }
                            lemma_char_at(s@, i as int, segnp, soff + 1);
                            lemma_char_at(s@, i as int, pat, soff + 1);
                            assert(pat[soff + 1] == 'i');
                        }
                        if np == 11 {
                            assert(segnp =~= (if any { ","@ } else { ""@ }) + "\"send_audio\":"@ + (
                            bool_chars(stv.send_audio->Some_0))) by {
                                reveal_strlit("\"send_audio\":");
                            }
                            assert(segnp[soff + 1] == 's') by {
                                reveal_strlit("\"send_audio\":");
                            }
                            lemma_char_at(s@, i as int, segnp, soff + 1);
                            lemma_char_at(s@, i as int, pat, soff + 1);
                            assert(pat[soff + 1] == 'i');
                        }
                        if np == 12 {
                            assert(segnp =~= (if any { ","@ } else { ""@ }) + "\"recv_audio\":"@ + (
                            bool_chars(stv.recv_audio->Some_0))) by {
                                reveal_strlit("\"recv_audio\":");
                            }
                            assert(segnp[soff + 1] == 'r') by {
                                reveal_strlit("\"recv_audio\":");
                            }
                            lemma_char_at(s@, i as int, segnp, soff + 1);
                            lemma_char_at(s@, i as int, pat, soff + 1);
                            assert(pat[soff + 1] == 'i');
                        }
                        if np == 13 {
                            assert(segnp =~= (if any { ","@ } else { ""@ }) + "\"battery_log_interval_secs\":"@ + (
                            dec_digits(stv.battery_log_interval_secs->Some_0 as nat))) by {
                                reveal_strlit("\"battery_log_interval_secs\":");
                            }
                            assert(segnp[soff + 1] == 'b') by {
                                reveal_strlit("\"battery_log_interval_secs\":");
                            }
                            lemma_char_at(s@, i as int, segnp, soff + 1);
                            lemma_char_at(s@, i as int, pat, soff + 1);
                            assert(pat[soff + 1] == 'i');
                        }
                        assert(false);
                    }
                }
            }
        }
    }
    let j = match hit {
        None => {
            proof {
                assert forall|stv: crate::state::ClientStateV|
                    #![trigger cfg_tail(stv, 3, any)]
                    (crate::confsync::state_text_ok(stv) && i + cfg_tail(stv, 3, any).len() == s@.len()
                && s@.subrange(i as int, s@.len() as int) == cfg_tail(stv, 3, any)) implies crate::config_doc::cfg_field_seg(
                    stv,
                    false,
                    3,
                    any,
                ).len() == 0 by {
                    assert(crate::config_doc::cfg_field_seg(stv, false, 3, any)
                        =~= Seq::<char>::empty());
                }
            }
            return (i, any);
        }
        Some(j) => j,
    };
    let vres = scan_bool(s, j);
    proof {
        assert forall|stv: crate::state::ClientStateV|
            #![trigger cfg_tail(stv, 3, any)]
            (crate::confsync::state_text_ok(stv) && i + cfg_tail(stv, 3, any).len() == s@.len()
                && s@.subrange(i as int, s@.len() as int) == cfg_tail(stv, 3, any)) implies ({
                let seg = crate::config_doc::cfg_field_seg(stv, false, 3, any);
                &&& crate::config_doc::cfg_present(stv, 3)
                &&& vres is Some
                &&& (vres->Some_0).1 == i + seg.len()
                &&& (vres->Some_0).0 == stv.is_charging->Some_0
            }) by {
            let seg = crate::config_doc::cfg_field_seg(stv, false, 3, any);
            let val = (bool_chars(stv.is_charging->Some_0));
            assert(seg =~= pat + val);
            assert(cfg_tail(stv, 3, any) == seg + cfg_tail(stv, 4int, true));
            assert(s@.subrange(i as int, s@.len() as int) =~= pat + (val + cfg_tail(
                stv,
                4int,
                true,
            )));
            lemma_subrange_concat_at(s@, i as int, pat, val + cfg_tail(stv, 4int, true));
            lemma_subrange_concat_at(
                s@,
                i + pat.len() as int,
                val,
                cfg_tail(stv, 4int, true),
            );
            assert(j == i + pat.len());
            reveal_strlit("true");
            reveal_strlit("false");
            assert(vres == Some::<(bool, usize)>(
                (stv.is_charging->Some_0, (j + val.len()) as usize),
            ));
            assert(i + seg.len() == j + val.len());
        }
    }
    match vres {
        Some((v, j2)) => {
            st.is_charging = Some(v);
            (j2, true)
        }
        None => (i, any),
    }
}

/// One field of the compact configuration grammar, taken in order; a
/// junction that does not carry this field is left to the next step.
#[verifier::rlimit(100)]
#[verifier::spinoff_prover]
fn cfg_take_display_name(s: &str, i: usize, any: bool, st: &mut ClientState) -> (r: (usize, bool))
    ensures
        forall|stv: crate::state::ClientStateV| #![trigger cfg_tail(stv, 4, any)]
            (crate::confsync::state_text_ok(stv) && i + cfg_tail(stv, 4, any).len() == s@.len()
                && s@.subrange(i as int, s@.len() as int) == cfg_tail(stv, 4, any)) ==> ({
                let seg = crate::config_doc::cfg_field_seg(stv, false, 4, any);
                &&& r.0 == i + seg.len()
                &&& r.1 == (any || crate::config_doc::cfg_present(stv, 4))
                &&& final(st)@ == (if crate::config_doc::cfg_present(stv, 4) {
                    crate::state::ClientStateV { display_name: stv.display_name, ..old(st)@ }
                } else {
                    old(st)@
                })
            }),
{
    let _n = s.unicode_len();
    proof {
        proof_strlits();
        reveal_strlit(",\"display_name\":");
        reveal_strlit("\"display_name\":");
        reveal_strlit("\"recv_audio_port\":");
        reveal_strlit("\"recv_repair_port\":");
        reveal_strlit("\"send_audio_port\":");
        reveal_strlit("\"send_repair_port\":");
        reveal_strlit("\"send_mute\":");
        reveal_strlit("\"recv_mute\":");
        reveal_strlit("\"send_audio\":");
        reveal_strlit("\"recv_audio\":");
        reveal_strlit("\"battery_log_interval_secs\":");
    }
    let hit = if any {
        eat_lit(s, i, ",\"display_name\":")
    } else {
        eat_lit(s, i, "\"display_name\":")
    };
    let ghost pat: Seq<char> = if any {
        ",\"display_name\":"@
    } else {
        "\"display_name\":"@
    };
    proof {
        assert(",\"display_name\":"@ =~= ","@ + "\"display_name\":"@);
        assert forall|stv: crate::state::ClientStateV|
            #![trigger cfg_tail(stv, 4, any)]
            (crate::confsync::state_text_ok(stv) && i + cfg_tail(stv, 4, any).len() == s@.len()
                && s@.subrange(i as int, s@.len() as int) == cfg_tail(stv, 4, any)) implies (crate::config_doc::cfg_present(stv, 4) <==> hit is Some) by {
            if crate::config_doc::cfg_present(stv, 4) {
                let seg = crate::config_doc::cfg_field_seg(stv, false, 4, any);
                assert(seg =~= pat + (crate::json::qstr(stv.display_name->Some_0)));
                assert(cfg_tail(stv, 4, any) == seg + cfg_tail(stv, 5int, true));
                assert(s@.subrange(i as int, s@.len() as int) =~= pat + ((crate::json::qstr(stv.display_name->Some_0))
                    + cfg_tail(stv, 5int, true)));
                lemma_subrange_concat_at(
                    s@,
                    i as int,
                    pat,
                    (crate::json::qstr(stv.display_name->Some_0)) + cfg_tail(stv, 5int, true),
                );
                assert(hit is Some);
            } else {
                if hit is Some {
                    assert(s@.subrange(i as int, i + pat.len() as int) == pat);
                    lemma_cfg_tail_shape(stv, 4, any);
                    let np = cfg_next(stv, 4);
                    let soff: int = if any { 1 } else { 0 };
                    if np == 14 {
                        assert(s@.len() == i + 1);
                        assert(i + pat.len() <= s@.len());
                        assert(false);
                    } else {
                        let segnp = crate::config_doc::cfg_field_seg(stv, false, np, any);
                        lemma_subrange_concat_at(
                            s@,
                            i as int,
                            segnp,
                            cfg_tail(stv, np + 1, true),
                        );
                        if np == 5 {
                            assert(segnp =~= (if any { ","@ } else { ""@ }) + "\"recv_audio_port\":"@ + (
                            dec_digits(stv.recv_audio_port->Some_0 as nat))) by {
                                reveal_strlit("\"recv_audio_port\":");
                            }
                            assert(segnp[soff + 1] == 'r') by {
                                reveal_strlit("\"recv_audio_port\":");
                            }
                            lemma_char_at(s@, i as int, segnp, soff + 1);
                            lemma_char_at(s@, i as int, pat, soff + 1);
                            assert(pat[soff + 1] == 'd');
                        }
                        if np == 6 {
                            assert(segnp =~= (if any { ","@ } else { ""@ }) + "\"recv_repair_port\":"@ + (
                            dec_digits(stv.recv_repair_port->Some_0 as nat))) by {
                                reveal_strlit("\"recv_repair_port\":");
                            }
                            assert(segnp[soff + 1] == 'r') by {
                                reveal_strlit("\"recv_repair_port\":");
                            }
                            lemma_char_at(s@, i as int, segnp, soff + 1);
                            lemma_char_at(s@, i as int, pat, soff + 1);
                            assert(pat[soff + 1] == 'd');
                        }
                        if np == 7 {
                            assert(segnp =~= (if any { ","@ } else { ""@ }) + "\"send_audio_port\":"@ + (
                            dec_digits(stv.send_audio_port->Some_0 as nat))) by {
                                reveal_strlit("\"send_audio_port\":");
                            }
                            assert(segnp[soff + 1] == 's') by {
                                reveal_strlit("\"send_audio_port\":");
                            }
                            lemma_char_at(s@, i as int, segnp, soff + 1);
                            lemma_char_at(s@, i as int, pat, soff + 1);
                            assert(pat[soff + 1] == 'd');
                        }
                        if np == 8 {
                            assert(segnp =~= (if any { ","@ } else { ""@ }) + "\"send_repair_port\":"@ + (
                            dec_digits(stv.send_repair_port->Some_0 as nat))) by {
                                reveal_strlit("\"send_repair_port\":");
                            }
                            assert(segnp[soff + 1] == 's') by {
                                reveal_strlit("\"send_repair_port\":");
                            }
                            lemma_char_at(s@, i as int, segnp, soff + 1);
                            lemma_char_at(s@, i as int, pat, soff + 1);
                            assert(pat[soff + 1] == 'd');
                        }
                        if np == 9 {
                            assert(segnp =~= (if any { ","@ } else { ""@ }) + "\"send_mute\":"@ + (
                            bool_chars(stv.send_mute->Some_0))) by {
                                reveal_strlit("\"send_mute\":");
                            }
                            assert(segnp[soff + 1] == 's') by {
                                reveal_strlit("\"send_mute\":");
                            }
                            lemma_char_at(s@, i as int, segnp, soff + 1);
                            lemma_char_at(s@, i as int, pat, soff + 1);
                            assert(pat[soff + 1] == 'd');
                        }
                        if np == 10 {
                            assert(segnp =~= (if any { ","@ } else { ""@ }) + "\"recv_mute\":"@ + (
                            bool_chars(stv.recv_mute->Some_0))) by {
                                reveal_strlit("\"recv_mute\":");
                            }
                            assert(segnp[soff + 1] == 'r') by {
                                reveal_strlit("\"recv_mute\":");
                            }
                            lemma_char_at(s@, i as int, segnp, soff + 1);
                            lemma_char_at(s@, i as int, pat, soff + 1);
                            assert(pat[soff + 1] == 'd');
                        }
                        if np == 11 {
                            assert(segnp =~= (if any { ","@ } else { ""@ }) + "\"send_audio\":"@ + (
                            bool_chars(stv.send_audio->Some_0))) by {
                                reveal_strlit("\"send_audio\":");
                            }
                            assert(segnp[soff + 1] == 's') by {
                                reveal_strlit("\"send_audio\":");
                            }
                            lemma_char_at(s@, i as int, segnp, soff + 1);
                            lemma_char_at(s@, i as int, pat, soff + 1);
                            assert(pat[soff + 1] == 'd');
                        }
                        if np == 12 {
                            assert(segnp =~= (if any { ","@ } else { ""@ }) + "\"recv_audio\":"@ + (
                            bool_chars(stv.recv_audio->Some_0))) by {
                                reveal_strlit("\"recv_audio\":");
                            }
                            assert(segnp[soff + 1] == 'r') by {
                                reveal_strlit("\"recv_audio\":");
                            }
                            lemma_char_at(s@, i as int, segnp, soff + 1);
                            lemma_char_at(s@, i as int, pat, soff + 1);
                            assert(pat[soff + 1] == 'd');
                        }
                        if np == 13 {
                            assert(segnp =~= (if any { ","@ } else { ""@ }) + "\"battery_log_interval_secs\":"@ + (
                            dec_digits(stv.battery_log_interval_secs->Some_0 as nat))) by {
                                reveal_strlit("\"battery_log_interval_secs\":");
                            }
                            assert(segnp[soff + 1] == 'b') by {
                                reveal_strlit("\"battery_log_interval_secs\":");
                            }
                            lemma_char_at(s@, i as int, segnp, soff + 1);
                            lemma_char_at(s@, i as int, pat, soff + 1);
                            assert(pat[soff + 1] == 'd');
                        }
                        assert(false);
                    }
                }
            }
        }
    }
    let j = match hit {
        None => {
            proof {
                assert forall|stv: crate::state::ClientStateV|
                    #![trigger cfg_tail(stv, 4, any)]
                    (crate::confsync::state_text_ok(stv) && i + cfg_tail(stv, 4, any).len() == s@.len()
                && s@.subrange(i as int, s@.len() as int) == cfg_tail(stv, 4, any)) implies crate::config_doc::cfg_field_seg(
                    stv,
                    false,
                    4,
                    any,
                ).len() == 0 by {
                    assert(crate::config_doc::cfg_field_seg(stv, false, 4, any)
                        =~= Seq::<char>::empty());
                }
            }
            return (i, any);
        }
        Some(j) => j,
    };
    let vres = match eat_lit(s, j, "\"") {
        Some(j1) => scan_to_quote(s, j1),
        None => None,
    };
    proof {
        assert forall|stv: crate::state::ClientStateV|
            #![trigger cfg_tail(stv, 4, any)]
            (crate::confsync::state_text_ok(stv) && i + cfg_tail(stv, 4, any).len() == s@.len()
                && s@.subrange(i as int, s@.len() as int) == cfg_tail(stv, 4, any)) implies ({
                let seg = crate::config_doc::cfg_field_seg(stv, false, 4, any);
                &&& crate::config_doc::cfg_present(stv, 4)
                &&& vres is Some
                &&& (vres->Some_0).1 == i + seg.len()
                &&& (vres->Some_0).0@ == stv.display_name->Some_0
            }) by {
            let seg = crate::config_doc::cfg_field_seg(stv, false, 4, any);
            let val = (crate::json::qstr(stv.display_name->Some_0));
            assert(seg =~= pat + val);
            assert(cfg_tail(stv, 4, any) == seg + cfg_tail(stv, 5int, true));
            assert(s@.subrange(i as int, s@.len() as int) =~= pat + (val + cfg_tail(
                stv,
                5int,
                true,
            )));
            lemma_subrange_concat_at(s@, i as int, pat, val + cfg_tail(stv, 5int, true));
            lemma_subrange_concat_at(
                s@,
                i + pat.len() as int,
                val,
                cfg_tail(stv, 5int, true),
            );
            assert(j == i + pat.len());
            let v = stv.display_name->Some_0;
            crate::json::lemma_esc_id(v);
            assert(val =~= seq!['"'] + v + seq!['"']);
            lemma_char_at(s@, j as int, val, 0);
            assert(s@[j as int] == '"');
            assert(s@.subrange(j as int, j + 1) =~= "\""@);
            assert forall|q: int|
                j + 1 <= q < j + 1 + v.len() implies s@[q] == v[q - (j + 1)] by {
                lemma_char_at(s@, j as int, val, q - j);
            }
            assert(forall|q: int| j + 1 <= q < j + 1 + v.len() ==> s@[q] != '"');
            lemma_char_at(s@, j as int, val, 1 + v.len() as int);
            assert(s@[j + 1 + v.len()] == '"');
            assert(vres is Some && (vres->Some_0).0@ == v && (vres->Some_0).1 == j + val.len())
                by {
                let p = vres->Some_0;
                let kq = p.1 - 1;
                if kq < j + 1 + v.len() {
                    assert(s@[kq as int] != '"');
                }
                if j + 1 + v.len() < kq {
                    assert(s@[j + 1 + v.len()] != '"');
                }
                assert(p.0@ =~= v);
            }
            assert(i + seg.len() == j + val.len());
        }
    }
    match vres {
        Some((text, j2)) => {
            st.display_name = Some(text);
            (j2, true)
        }
        None => (i, any),
    }
}

/// One field of the compact configuration grammar, taken in order; a
/// junction that does not carry this field is left to the next step.
#[verifier::rlimit(100)]
#[verifier::spinoff_prover]
fn cfg_take_recv_audio_port(s: &str, i: usize, any: bool, st: &mut ClientState) -> (r: (usize, bool))
    ensures
        forall|stv: crate::state::ClientStateV| #![trigger cfg_tail(stv, 5, any)]
            (crate::confsync::state_text_ok(stv) && i + cfg_tail(stv, 5, any).len() == s@.len()
                && s@.subrange(i as int, s@.len() as int) == cfg_tail(stv, 5, any)) ==> ({
                let seg = crate::config_doc::cfg_field_seg(stv, false, 5, any);
                &&& r.0 == i + seg.len()
                &&& r.1 == (any || crate::config_doc::cfg_present(stv, 5))
                &&& final(st)@ == (if crate::config_doc::cfg_present(stv, 5) {
                    crate::state::ClientStateV { recv_audio_port: stv.recv_audio_port, ..old(st)@ }
                } else {
                    old(st)@
                })
            }),
{
    let _n = s.unicode_len();
    proof {
        proof_strlits();
        reveal_strlit(",\"recv_audio_port\":");
        reveal_strlit("\"recv_audio_port\":");
        reveal_strlit("\"recv_repair_port\":");
        reveal_strlit("\"send_audio_port\":");
        reveal_strlit("\"send_repair_port\":");
        reveal_strlit("\"send_mute\":");
        reveal_strlit("\"recv_mute\":");
        reveal_strlit("\"send_audio\":");
        reveal_strlit("\"recv_audio\":");
        reveal_strlit("\"battery_log_interval_secs\":");
    }
    let hit = if any {
        eat_lit(s, i, ",\"recv_audio_port\":")
    } else {
        eat_lit(s, i, "\"recv_audio_port\":")
    };
    let ghost pat: Seq<char> = if any {
        ",\"recv_audio_port\":"@
    } else {
        "\"recv_audio_port\":"@
    };
    proof {
        assert(",\"recv_audio_port\":"@ =~= ","@ + "\"recv_audio_port\":"@);
        assert forall|stv: crate::state::ClientStateV|
            #![trigger cfg_tail(stv, 5, any)]
            (crate::confsync::state_text_ok(stv) && i + cfg_tail(stv, 5, any).len() == s@.len()
                && s@.subrange(i as int, s@.len() as int) == cfg_tail(stv, 5, any)) implies (crate::config_doc::cfg_present(stv, 5) <==> hit is Some) by {
            if crate::config_doc::cfg_present(stv, 5) {
                let seg = crate::config_doc::cfg_field_seg(stv, false, 5, any);
                assert(seg =~= pat + (dec_digits(stv.recv_audio_port->Some_0 as nat)));
                assert(cfg_tail(stv, 5, any) == seg + cfg_tail(stv, 6int, true));
                assert(s@.subrange(i as int, s@.len() as int) =~= pat + ((dec_digits(stv.recv_audio_port->Some_0 as nat))
                    + cfg_tail(stv, 6int, true)));
                lemma_subrange_concat_at(
                    s@,
                    i as int,
                    pat,
                    (dec_digits(stv.recv_audio_port->Some_0 as nat)) + cfg_tail(stv, 6int, true),
                );
                assert(hit is Some);
            } else {
                if hit is Some {
                    assert(s@.subrange(i as int, i + pat.len() as int) == pat);
                    lemma_cfg_tail_shape(stv, 5, any);
                    let np = cfg_next(stv, 5);
                    let soff: int = if any { 1 } else { 0 };
                    if np == 14 {
                        assert(s@.len() == i + 1);
                        assert(i + pat.len() <= s@.len());
                        assert(false);
                    } else {
                        let segnp = crate::config_doc::cfg_field_seg(stv, false, np, any);
                        lemma_subrange_concat_at(
                            s@,
                            i as int,
                            segnp,
                            cfg_tail(stv, np + 1, true),
                        );
                        if np == 6 {
                            assert(segnp =~= (if any { ","@ } else { ""@ }) + "\"recv_repair_port\":"@ + (
                            dec_digits(stv.recv_repair_port->Some_0 as nat))) by {
                                reveal_strlit("\"recv_repair_port\":");
                            }
                            assert(segnp[soff + 6] == 'r') by {
                                reveal_strlit("\"recv_repair_port\":");
                            }
                            lemma_char_at(s@, i as int, segnp, soff + 6);
                            lemma_char_at(s@, i as int, pat, soff + 6);
                            assert(pat[soff + 6] == 'a');
                        }
                        if np == 7 {
                            assert(segnp =~= (if any { ","@ } else { ""@ }) + "\"send_audio_port\":"@ + (
                            dec_digits(stv.send_audio_port->Some_0 as nat))) by {
                                reveal_strlit("\"send_audio_port\":");
                            }
                            assert(segnp[soff + 1] == 's') by {
                                reveal_strlit("\"send_audio_port\":");
                            }
                            lemma_char_at(s@, i as int, segnp, soff + 1);
                            lemma_char_at(s@, i as int, pat, soff + 1);
                            assert(pat[soff + 1] == 'r');
                        }
                        if np == 8 {
                            assert(segnp =~= (if any { ","@ } else { ""@ }) + "\"send_repair_port\":"@ + (
                            dec_digits(stv.send_repair_port->Some_0 as nat))) by {
                                reveal_strlit("\"send_repair_port\":");
                            }
                            assert(segnp[soff + 1] == 's') by {
                                reveal_strlit("\"send_repair_port\":");
                            }
                            lemma_char_at(s@, i as int, segnp, soff + 1);
                            lemma_char_at(s@, i as int, pat, soff + 1);
                            assert(pat[soff + 1] == 'r');
                        }
                        if np == 9 {
                            assert(segnp =~= (if any { ","@ } else { ""@ }) + "\"send_mute\":"@ + (
                            bool_chars(stv.send_mute->Some_0))) by {
                                reveal_strlit("\"send_mute\":");
                            }
                            assert(segnp[soff + 1] == 's') by {
                                reveal_strlit("\"send_mute\":");
                            }
                            lemma_char_at(s@, i as int, segnp, soff + 1);
                            lemma_char_at(s@, i as int, pat, soff + 1);
                            assert(pat[soff + 1] == 'r');
                        }
                        if np == 10 {
                            assert(segnp =~= (if any { ","@ } else { ""@ }) + "\"recv_mute\":"@ + (
                            bool_chars(stv.recv_mute->Some_0))) by {
                                reveal_strlit("\"recv_mute\":");
                            }
                            assert(segnp[soff + 6] == 'm') by {
                                reveal_strlit("\"recv_mute\":");
                            }
                            lemma_char_at(s@, i as int, segnp, soff + 6);
                            lemma_char_at(s@, i as int, pat, soff + 6);
                            assert(pat[soff + 6] == 'a');
                        }
                        if np == 11 {
                            assert(segnp =~= (if any { ","@ } else { ""@ }) + "\"send_audio\":"@ + (
                            bool_chars(stv.send_audio->Some_0))) by {
                                reveal_strlit("\"send_audio\":");
                            }
                            assert(segnp[soff + 1] == 's') by {
                                reveal_strlit("\"send_audio\":");
                            }
                            lemma_char_at(s@, i as int, segnp, soff + 1);
                            lemma_char_at(s@, i as int, pat, soff + 1);
                            assert(pat[soff + 1] == 'r');
                        }
                        if np == 12 {
                            assert(segnp =~= (if any { ","@ } else { ""@ }) + "\"recv_audio\":"@ + (
                            bool_chars(stv.recv_audio->Some_0))) by {
                                reveal_strlit("\"recv_audio\":");
                            }
                            assert(segnp[soff + 11] == '"') by {
                                reveal_strlit("\"recv_audio\":");
                            }
                            lemma_char_at(s@, i as int, segnp, soff + 11);
                            lemma_char_at(s@, i as int, pat, soff + 11);
                            assert(pat[soff + 11] == '_');
                        }
                        if np == 13 {
                            assert(segnp =~= (if any { ","@ } else { ""@ }) + "\"battery_log_interval_secs\":"@ + (
                            dec_digits(stv.battery_log_interval_secs->Some_0 as nat))) by {
                                reveal_strlit("\"battery_log_interval_secs\":");
                            }
                            assert(segnp[soff + 1] == 'b') by {
                                reveal_strlit("\"battery_log_interval_secs\":");
                            }
                            lemma_char_at(s@, i as int, segnp, soff + 1);
                            lemma_char_at(s@, i as int, pat, soff + 1);
                            assert(pat[soff + 1] == 'r');
                        }
                        assert(false);
                    }
                }
            }
        }
    }
    let j = match hit {
        None => {
            proof {
                assert forall|stv: crate::state::ClientStateV|
                    #![trigger cfg_tail(stv, 5, any)]
                    (crate::confsync::state_text_ok(stv) && i + cfg_tail(stv, 5, any).len() == s@.len()
                && s@.subrange(i as int, s@.len() as int) == cfg_tail(stv, 5, any)) implies crate::config_doc::cfg_field_seg(
                    stv,
                    false,
                    5,
                    any,
                ).len() == 0 by {
                    assert(crate::config_doc::cfg_field_seg(stv, false, 5, any)
                        =~= Seq::<char>::empty());
                }
            }
            return (i, any);
        }
        Some(j) => j,
    };
    let vres = scan_u16(s, j);
    proof {
        assert forall|stv: crate::state::ClientStateV|
            #![trigger cfg_tail(stv, 5, any)]
            (crate::confsync::state_text_ok(stv) && i + cfg_tail(stv, 5, any).len() == s@.len()
                && s@.subrange(i as int, s@.len() as int) == cfg_tail(stv, 5, any)) implies ({
                let seg = crate::config_doc::cfg_field_seg(stv, false, 5, any);
                &&& crate::config_doc::cfg_present(stv, 5)
                &&& vres is Some
                &&& (vres->Some_0).1 == i + seg.len()
                &&& (vres->Some_0).0 == stv.recv_audio_port->Some_0
            }) by {
            let seg = crate::config_doc::cfg_field_seg(stv, false, 5, any);
            let val = (dec_digits(stv.recv_audio_port->Some_0 as nat));
            assert(seg =~= pat + val);
            assert(cfg_tail(stv, 5, any) == seg + cfg_tail(stv, 6int, true));
            assert(s@.subrange(i as int, s@.len() as int) =~= pat + (val + cfg_tail(
                stv,
                6int,
                true,
            )));
            lemma_subrange_concat_at(s@, i as int, pat, val + cfg_tail(stv, 6int, true));
            lemma_subrange_concat_at(
                s@,
                i + pat.len() as int,
                val,
                cfg_tail(stv, 6int, true),
            );
            assert(j == i + pat.len());
            lemma_cfg_tail_head(stv, 6int);
            lemma_char_at(s@, j + val.len() as int, cfg_tail(stv, 6int, true), 0);
            assert(!is_digit(s@[j + val.len()]));
            lemma_dec_digits_value(stv.recv_audio_port->Some_0 as nat);
            assert(vres == Some::<(u16, usize)>(
                (stv.recv_audio_port->Some_0, (j + val.len()) as usize),
            ));
            assert(i + seg.len() == j + val.len());
        }
    }
    match vres {
        Some((v, j2)) => {
            st.recv_audio_port = Some(v);
            (j2, true)
        }
        None => (i, any),
    }
}

/// One field of the compact configuration grammar, taken in order; a
/// junction that does not carry this field is left to the next step.
#[verifier::rlimit(100)]
#[verifier::spinoff_prover]
fn cfg_take_recv_repair_port(s: &str, i: usize, any: bool, st: &mut ClientState) -> (r: (usize, bool))
    ensures
        forall|stv: crate::state::ClientStateV| #![trigger cfg_tail(stv, 6, any)]
            (crate::confsync::state_text_ok(stv) && i + cfg_tail(stv, 6, any).len() == s@.len()
                && s@.subrange(i as int, s@.len() as int) == cfg_tail(stv, 6, any)) ==> ({
                let seg = crate::config_doc::cfg_field_seg(stv, false, 6, any);
                &&& r.0 == i + seg.len()
                &&& r.1 == (any || crate::config_doc::cfg_present(stv, 6))
                &&& final(st)@ == (if crate::config_doc::cfg_present(stv, 6) {
                    crate::state::ClientStateV { recv_repair_port: stv.recv_repair_port, ..old(st)@ }
                } else {
                    old(st)@
                })
            }),
{
    let _n = s.unicode_len();
    proof {
        proof_strlits();
        reveal_strlit(",\"recv_repair_port\":");
        reveal_strlit("\"recv_repair_port\":");
        reveal_strlit("\"send_audio_port\":");
        reveal_strlit("\"send_repair_port\":");
        reveal_strlit("\"send_mute\":");
        reveal_strlit("\"recv_mute\":");
        reveal_strlit("\"send_audio\":");
        reveal_strlit("\"recv_audio\":");
        reveal_strlit("\"battery_log_interval_secs\":");
    }
    let hit = if any {
        eat_lit(s, i, ",\"recv_repair_port\":")
    } else {
        eat_lit(s, i, "\"recv_repair_port\":")
    };
    let ghost pat: Seq<char> = if any {
        ",\"recv_repair_port\":"@
    } else {
        "\"recv_repair_port\":"@
    };
    proof {
        assert(",\"recv_repair_port\":"@ =~= ","@ + "\"recv_repair_port\":"@);
        assert forall|stv: crate::state::ClientStateV|
            #![trigger cfg_tail(stv, 6, any)]
            (crate::confsync::state_text_ok(stv) && i + cfg_tail(stv, 6, any).len() == s@.len()
                && s@.subrange(i as int, s@.len() as int) == cfg_tail(stv, 6, any)) implies (crate::config_doc::cfg_present(stv, 6) <==> hit is Some) by {
            if crate::config_doc::cfg_present(stv, 6) {
                let seg = crate::config_doc::cfg_field_seg(stv, false, 6, any);
                assert(seg =~= pat + (dec_digits(stv.recv_repair_port->Some_0 as nat)));
                assert(cfg_tail(stv, 6, any) == seg + cfg_tail(stv, 7int, true));
                assert(s@.subrange(i as int, s@.len() as int) =~= pat + ((dec_digits(stv.recv_repair_port->Some_0 as nat))
                    + cfg_tail(stv, 7int, true)));
                lemma_subrange_concat_at(
                    s@,
                    i as int,
                    pat,
                    (dec_digits(stv.recv_repair_port->Some_0 as nat)) + cfg_tail(stv, 7int, true),
                );
                assert(hit is Some);
            } else {
                if hit is Some {
                    assert(s@.subrange(i as int, i + pat.len() as int) == pat);
                    lemma_cfg_tail_shape(stv, 6, any);
                    let np = cfg_next(stv, 6);
                    let soff: int = if any { 1 } else { 0 };
                    if np == 14 {
                        assert(s@.len() == i + 1);
                        assert(i + pat.len() <= s@.len());
                        assert(false);
                    } else {
                        let segnp = crate::config_doc::cfg_field_seg(stv, false, np, any);
                        lemma_subrange_concat_at(
                            s@,
                            i as int,
                            segnp,
                            cfg_tail(stv, np + 1, true),
                        );
                        if np == 7 {
                            assert(segnp =~= (if any { ","@ } else { ""@ }) + "\"send_audio_port\":"@ + (
                            dec_digits(stv.send_audio_port->Some_0 as nat))) by {
                                reveal_strlit("\"send_audio_port\":");
                            }
                            assert(segnp[soff + 1] == 's') by {
                                reveal_strlit("\"send_audio_port\":");
                            }
                            lemma_char_at(s@, i as int, segnp, soff + 1);
                            lemma_char_at(s@, i as int, pat, soff + 1);
                            assert(pat[soff + 1] == 'r');
                        }
                        if np == 8 {
                            assert(segnp =~= (if any { ","@ } else { ""@ }) + "\"send_repair_port\":"@ + (
                            dec_digits(stv.send_repair_port->Some_0 as nat))) by {
                                reveal_strlit("\"send_repair_port\":");
                            }
                            assert(segnp[soff + 1] == 's') by {
                                reveal_strlit("\"send_repair_port\":");
                            }
                            lemma_char_at(s@, i as int, segnp, soff + 1);
                            lemma_char_at(s@, i as int, pat, soff + 1);
                            assert(pat[soff + 1] == 'r');
                        }
                        if np == 9 {
                            assert(segnp =~= (if any { ","@ } else { ""@ }) + "\"send_mute\":"@ + (
                            bool_chars(stv.send_mute->Some_0))) by {
                                reveal_strlit("\"send_mute\":");
                            }
                            assert(segnp[soff + 1] == 's') by {
                                reveal_strlit("\"send_mute\":");
                            }
                            lemma_char_at(s@, i as int, segnp, soff + 1);
                            lemma_char_at(s@, i as int, pat, soff + 1);
                            assert(pat[soff + 1] == 'r');
                        }
                        if np == 10 {
                            assert(segnp =~= (if any { ","@ } else { ""@ }) + "\"recv_mute\":"@ + (
                            bool_chars(stv.recv_mute->Some_0))) by {
                                reveal_strlit("\"recv_mute\":");
                            }
                            assert(segnp[soff + 6] == 'm') by {
                                reveal_strlit("\"recv_mute\":");
                            }
                            lemma_char_at(s@, i as int, segnp, soff + 6);
                            lemma_char_at(s@, i as int, pat, soff + 6);
                            assert(pat[soff + 6] == 'r');
                        }
                        if np == 11 {
                            assert(segnp =~= (if any { ","@ } else { ""@ }) + "\"send_audio\":"@ + (
                            bool_chars(stv.send_audio->Some_0))) by {
                                reveal_strlit("\"send_audio\":");
                            }
                            assert(segnp[soff + 1] == 's') by {
                                reveal_strlit("\"send_audio\":");
                            }
                            lemma_char_at(s@, i as int, segnp, soff + 1);
                            lemma_char_at(s@, i as int, pat, soff + 1);
                            assert(pat[soff + 1] == 'r');
                        }
                        if np == 12 {
                            assert(segnp =~= (if any { ","@ } else { ""@ }) + "\"recv_audio\":"@ + (
                            bool_chars(stv.recv_audio->Some_0))) by {
                                reveal_strlit("\"recv_audio\":");
                            }
                            assert(segnp[soff + 6] == 'a') by {
                                reveal_strlit("\"recv_audio\":");
                            }
                            lemma_char_at(s@, i as int, segnp, soff + 6);
                            lemma_char_at(s@, i as int, pat, soff + 6);
                            assert(pat[soff + 6] == 'r');
                        }
                        if np == 13 {
                            assert(segnp =~= (if any { ","@ } else { ""@ }) + "\"battery_log_interval_secs\":"@ + (
                            dec_digits(stv.battery_log_interval_secs->Some_0 as nat))) by {
                                reveal_strlit("\"battery_log_interval_secs\":");
                            }
                            assert(segnp[soff + 1] == 'b') by {
                                reveal_strlit("\"battery_log_interval_secs\":");
                            }
                            lemma_char_at(s@, i as int, segnp, soff + 1);
                            lemma_char_at(s@, i as int, pat, soff + 1);
                            assert(pat[soff + 1] == 'r');
                        }
                        assert(false);
                    }
                }
            }
        }
    }
    let j = match hit {
        None => {
            proof {
                assert forall|stv: crate::state::ClientStateV|
                    #![trigger cfg_tail(stv, 6, any)]
                    (crate::confsync::state_text_ok(stv) && i + cfg_tail(stv, 6, any).len() == s@.len()
                && s@.subrange(i as int, s@.len() as int) == cfg_tail(stv, 6, any)) implies crate::config_doc::cfg_field_seg(
                    stv,
                    false,
                    6,
                    any,
                ).len() == 0 by {
                    assert(crate::config_doc::cfg_field_seg(stv, false, 6, any)
                        =~= Seq::<char>::empty());
                }
            }
            return (i, any);
        }
        Some(j) => j,
    };
    let vres = scan_u16(s, j);
    proof {
        assert forall|stv: crate::state::ClientStateV|
            #![trigger cfg_tail(stv, 6, any)]
            (crate::confsync::state_text_ok(stv) && i + cfg_tail(stv, 6, any).len() == s@.len()
                && s@.subrange(i as int, s@.len() as int) == cfg_tail(stv, 6, any)) implies ({
                let seg = crate::config_doc::cfg_field_seg(stv, false, 6, any);
                &&& crate::config_doc::cfg_present(stv, 6)
                &&& vres is Some
                &&& (vres->Some_0).1 == i + seg.len()
                &&& (vres->Some_0).0 == stv.recv_repair_port->Some_0
            }) by {
            let seg = crate::config_doc::cfg_field_seg(stv, false, 6, any);
            let val = (dec_digits(stv.recv_repair_port->Some_0 as nat));
            assert(seg =~= pat + val);
            assert(cfg_tail(stv, 6, any) == seg + cfg_tail(stv, 7int, true));
            assert(s@.subrange(i as int, s@.len() as int) =~= pat + (val + cfg_tail(
                stv,
                7int,
                true,
            )));
            lemma_subrange_concat_at(s@, i as int, pat, val + cfg_tail(stv, 7int, true));
            lemma_subrange_concat_at(
                s@,
                i + pat.len() as int,
                val,
                cfg_tail(stv, 7int, true),
            );
            assert(j == i + pat.len());
            lemma_cfg_tail_head(stv, 7int);
            lemma_char_at(s@, j + val.len() as int, cfg_tail(stv, 7int, true), 0);
            assert(!is_digit(s@[j + val.len()]));
            lemma_dec_digits_value(stv.recv_repair_port->Some_0 as nat);
            assert(vres == Some::<(u16, usize)>(
                (stv.recv_repair_port->Some_0, (j + val.len()) as usize),
            ));
            assert(i + seg.len() == j + val.len());
        }
    }
    match vres {
        Some((v, j2)) => {
            st.recv_repair_port = Some(v);
            (j2, true)
        }
        None => (i, any),
    }
}

/// One field of the compact configuration grammar, taken in order; a
/// junction that does not carry this field is left to the next step.
#[verifier::rlimit(100)]
#[verifier::spinoff_prover]
fn cfg_take_send_audio_port(s: &str, i: usize, any: bool, st: &mut ClientState) -> (r: (usize, bool))
    ensures
        forall|stv: crate::state::ClientStateV| #![trigger cfg_tail(stv, 7, any)]
            (crate::confsync::state_text_ok(stv) && i + cfg_tail(stv, 7, any).len() == s@.len()
                && s@.subrange(i as int, s@.len() as int) == cfg_tail(stv, 7, any)) ==> ({
                let seg = crate::config_doc::cfg_field_seg(stv, false, 7, any);
                &&& r.0 == i + seg.len()
                &&& r.1 == (any || crate::config_doc::cfg_present(stv, 7))
                &&& final(st)@ == (if crate::config_doc::cfg_present(stv, 7) {
                    crate::state::ClientStateV { send_audio_port: stv.send_audio_port, ..old(st)@ }
                } else {
                    old(st)@
                })
            }),
{
    let _n = s.unicode_len();
    proof {
        proof_strlits();
        reveal_strlit(",\"send_audio_port\":");
        reveal_strlit("\"send_audio_port\":");
        reveal_strlit("\"send_repair_port\":");
        reveal_strlit("\"send_mute\":");
        reveal_strlit("\"recv_mute\":");
        reveal_strlit("\"send_audio\":");
        reveal_strlit("\"recv_audio\":");
        reveal_strlit("\"battery_log_interval_secs\":");
    }
    let hit = if any {
        eat_lit(s, i, ",\"send_audio_port\":")
    } else {
        eat_lit(s, i, "\"send_audio_port\":")
    };
    let ghost pat: Seq<char> = if any {
        ",\"send_audio_port\":"@
    } else {
        "\"send_audio_port\":"@
    };
    proof {
        assert(",\"send_audio_port\":"@ =~= ","@ + "\"send_audio_port\":"@);
        assert forall|stv: crate::state::ClientStateV|
            #![trigger cfg_tail(stv, 7, any)]
            (crate::confsync::state_text_ok(stv) && i + cfg_tail(stv, 7, any).len() == s@.len()
                && s@.subrange(i as int, s@.len() as int) == cfg_tail(stv, 7, any)) implies (crate::config_doc::cfg_present(stv, 7) <==> hit is Some) by {
            if crate::config_doc::cfg_present(stv, 7) {
                let seg = crate::config_doc::cfg_field_seg(stv, false, 7, any);
                assert(seg =~= pat + (dec_digits(stv.send_audio_port->Some_0 as nat)));
                assert(cfg_tail(stv, 7, any) == seg + cfg_tail(stv, 8int, true));
                assert(s@.subrange(i as int, s@.len() as int) =~= pat + ((dec_digits(stv.send_audio_port->Some_0 as nat))
                    + cfg_tail(stv, 8int, true)));
                lemma_subrange_concat_at(
                    s@,
                    i as int,
                    pat,
                    (dec_digits(stv.send_audio_port->Some_0 as nat)) + cfg_tail(stv, 8int, true),
                );
                assert(hit is Some);
            } else {
                if hit is Some {
                    assert(s@.subrange(i as int, i + pat.len() as int) == pat);
                    lemma_cfg_tail_shape(stv, 7, any);
                    let np = cfg_next(stv, 7);
                    let soff: int = if any { 1 } else { 0 };
                    if np == 14 {
                        assert(s@.len() == i + 1);
                        assert(i + pat.len() <= s@.len());
                        assert(false);
                    } else {
                        let segnp = crate::config_doc::cfg_field_seg(stv, false, np, any);
                        lemma_subrange_concat_at(
                            s@,
                            i as int,
                            segnp,
                            cfg_tail(stv, np + 1, true),
                        );
                        if np == 8 {
                            assert(segnp =~= (if any { ","@ } else { ""@ }) + "\"send_repair_port\":"@ + (
                            dec_digits(stv.send_repair_port->Some_0 as nat))) by {
                                reveal_strlit("\"send_repair_port\":");
                            }
                            assert(segnp[soff + 6] == 'r') by {
                                reveal_strlit("\"send_repair_port\":");
                            }
                            lemma_char_at(s@, i as int, segnp, soff + 6);
                            lemma_char_at(s@, i as int, pat, soff + 6);
                            assert(pat[soff + 6] == 'a');
                        }
                        if np == 9 {
                            assert(segnp =~= (if any { ","@ } else { ""@ }) + "\"send_mute\":"@ + (
                            bool_chars(stv.send_mute->Some_0))) by {
                                reveal_strlit("\"send_mute\":");
                            }
                            assert(segnp[soff + 6] == 'm') by {
                                reveal_strlit("\"send_mute\":");
                            }
                            lemma_char_at(s@, i as int, segnp, soff + 6);
                            lemma_char_at(s@, i as int, pat, soff + 6);
                            assert(pat[soff + 6] == 'a');
                        }
                        if np == 10 {
                            assert(segnp =~= (if any { ","@ } else { ""@ }) + "\"recv_mute\":"@ + (
                            bool_chars(stv.recv_mute->Some_0))) by {
                                reveal_strlit("\"recv_mute\":");
                            }
                            assert(segnp[soff + 1] == 'r') by {
                                reveal_strlit("\"recv_mute\":");
                            }
                            lemma_char_at(s@, i as int, segnp, soff + 1);
                            lemma_char_at(s@, i as int, pat, soff + 1);
                            assert(pat[soff + 1] == 's');
                        }
                        if np == 11 {
                            assert(segnp =~= (if any { ","@ } else { ""@ }) + "\"send_audio\":"@ + (
                            bool_chars(stv.send_audio->Some_0))) by {
                                reveal_strlit("\"send_audio\":");
                            }
                            assert(segnp[soff + 11] == '"') by {
                                reveal_strlit("\"send_audio\":");
                            }
                            lemma_char_at(s@, i as int, segnp, soff + 11);
                            lemma_char_at(s@, i as int, pat, soff + 11);
                            assert(pat[soff + 11] == '_');
                        }
                        if np == 12 {
                            assert(segnp =~= (if any { ","@ } else { ""@ }) + "\"recv_audio\":"@ + (
                            bool_chars(stv.recv_audio->Some_0))) by {
                                reveal_strlit("\"recv_audio\":");
                            }
                            assert(segnp[soff + 1] == 'r') by {
                                reveal_strlit("\"recv_audio\":");
                            }
                            lemma_char_at(s@, i as int, segnp, soff + 1);
                            lemma_char_at(s@, i as int, pat, soff + 1);
                            assert(pat[soff + 1] == 's');
                        }
                        if np == 13 {
                            assert(segnp =~= (if any { ","@ } else { ""@ }) + "\"battery_log_interval_secs\":"@ + (
                            dec_digits(stv.battery_log_interval_secs->Some_0 as nat))) by {
                                reveal_strlit("\"battery_log_interval_secs\":");
                            }
                            assert(segnp[soff + 1] == 'b') by {
                                reveal_strlit("\"battery_log_interval_secs\":");
                            }
                            lemma_char_at(s@, i as int, segnp, soff + 1);
                            lemma_char_at(s@, i as int, pat, soff + 1);
                            assert(pat[soff + 1] == 's');
                        }
                        assert(false);
                    }
                }
            }
        }
    }
    let j = match hit {
        None => {
            proof {
                assert forall|stv: crate::state::ClientStateV|
                    #![trigger cfg_tail(stv, 7, any)]
                    (crate::confsync::state_text_ok(stv) && i + cfg_tail(stv, 7, any).len() == s@.len()
                && s@.subrange(i as int, s@.len() as int) == cfg_tail(stv, 7, any)) implies crate::config_doc::cfg_field_seg(
                    stv,
                    false,
                    7,
                    any,
                ).len() == 0 by {
                    assert(crate::config_doc::cfg_field_seg(stv, false, 7, any)
                        =~= Seq::<char>::empty());
                }
            }
            return (i, any);
        }
        Some(j) => j,
    };
    let vres = scan_u16(s, j);
    proof {
        assert forall|stv: crate::state::ClientStateV|
            #![trigger cfg_tail(stv, 7, any)]
            (crate::confsync::state_text_ok(stv) && i + cfg_tail(stv, 7, any).len() == s@.len()
                && s@.subrange(i as int, s@.len() as int) == cfg_tail(stv, 7, any)) implies ({
                let seg = crate::config_doc::cfg_field_seg(stv, false, 7, any);
                &&& crate::config_doc::cfg_present(stv, 7)
                &&& vres is Some
                &&& (vres->Some_0).1 == i + seg.len()
                &&& (vres->Some_0).0 == stv.send_audio_port->Some_0
            }) by {
            let seg = crate::config_doc::cfg_field_seg(stv, false, 7, any);
            let val = (dec_digits(stv.send_audio_port->Some_0 as nat));
            assert(seg =~= pat + val);
            assert(cfg_tail(stv, 7, any) == seg + cfg_tail(stv, 8int, true));
            assert(s@.subrange(i as int, s@.len() as int) =~= pat + (val + cfg_tail(
                stv,
                8int,
                true,
            )));
            lemma_subrange_concat_at(s@, i as int, pat, val + cfg_tail(stv, 8int, true));
            lemma_subrange_concat_at(
                s@,
                i + pat.len() as int,
                val,
                cfg_tail(stv, 8int, true),
            );
            assert(j == i + pat.len());
            lemma_cfg_tail_head(stv, 8int);
            lemma_char_at(s@, j + val.len() as int, cfg_tail(stv, 8int, true), 0);
            assert(!is_digit(s@[j + val.len()]));
            lemma_dec_digits_value(stv.send_audio_port->Some_0 as nat);
            assert(vres == Some::<(u16, usize)>(
                (stv.send_audio_port->Some_0, (j + val.len()) as usize),
            ));
            assert(i + seg.len() == j + val.len());
        }
    }
    match vres {
        Some((v, j2)) => {
            st.send_audio_port = Some(v);
            (j2, true)
        }
        None => (i, any),
    }
}

/// One field of the compact configuration grammar, taken in order; a
/// junction that does not carry this field is left to the next step.
#[verifier::rlimit(100)]
#[verifier::spinoff_prover]
fn cfg_take_send_repair_port(s: &str, i: usize, any: bool, st: &mut ClientState) -> (r: (usize, bool))
    ensures
        forall|stv: crate::state::ClientStateV| #![trigger cfg_tail(stv, 8, any)]
            (crate::confsync::state_text_ok(stv) && i + cfg_tail(stv, 8, any).len() == s@.len()
                && s@.subrange(i as int, s@.len() as int) == cfg_tail(stv, 8, any)) ==> ({
                let seg = crate::config_doc::cfg_field_seg(stv, false, 8, any);
                &&& r.0 == i + seg.len()
                &&& r.1 == (any || crate::config_doc::cfg_present(stv, 8))
                &&& final(st)@ == (if crate::config_doc::cfg_present(stv, 8) {
                    crate::state::ClientStateV { send_repair_port: stv.send_repair_port, ..old(st)@ }
                } else {
                    old(st)@
                })
            }),
{
    let _n = s.unicode_len();
    proof {
        proof_strlits();
        reveal_strlit(",\"send_repair_port\":");
        reveal_strlit("\"send_repair_port\":");
        reveal_strlit("\"send_mute\":");
        reveal_strlit("\"recv_mute\":");
        reveal_strlit("\"send_audio\":");
        reveal_strlit("\"recv_audio\":");
        reveal_strlit("\"battery_log_interval_secs\":");
    }
    let hit = if any {
        eat_lit(s, i, ",\"send_repair_port\":")
    } else {
        eat_lit(s, i, "\"send_repair_port\":")
    };
    let ghost pat: Seq<char> = if any {
        ",\"send_repair_port\":"@
    } else {
        "\"send_repair_port\":"@
    };
    proof {
        assert(",\"send_repair_port\":"@ =~= ","@ + "\"send_repair_port\":"@);
        assert forall|stv: crate::state::ClientStateV|
            #![trigger cfg_tail(stv, 8, any)]
            (crate::confsync::state_text_ok(stv) && i + cfg_tail(stv, 8, any).len() == s@.len()
                && s@.subrange(i as int, s@.len() as int) == cfg_tail(stv, 8, any)) implies (crate::config_doc::cfg_present(stv, 8) <==> hit is Some) by {
            if crate::config_doc::cfg_present(stv, 8) {
                let seg = crate::config_doc::cfg_field_seg(stv, false, 8, any);
                assert(seg =~= pat + (dec_digits(stv.send_repair_port->Some_0 as nat)));
                assert(cfg_tail(stv, 8, any) == seg + cfg_tail(stv, 9int, true));
                assert(s@.subrange(i as int, s@.len() as int) =~= pat + ((dec_digits(stv.send_repair_port->Some_0 as nat))
                    + cfg_tail(stv, 9int, true)));
                lemma_subrange_concat_at(
                    s@,
                    i as int,
                    pat,
                    (dec_digits(stv.send_repair_port->Some_0 as nat)) + cfg_tail(stv, 9int, true),
                );
                assert(hit is Some);
            } else {
                if hit is Some {
                    assert(s@.subrange(i as int, i + pat.len() as int) == pat);
                    lemma_cfg_tail_shape(stv, 8, any);
                    let np = cfg_next(stv, 8);
                    let soff: int = if any { 1 } else { 0 };
                    if np == 14 {
                        assert(s@.len() == i + 1);
                        assert(i + pat.len() <= s@.len());
                        assert(false);
                    } else {
                        let segnp = crate::config_doc::cfg_field_seg(stv, false, np, any);
                        lemma_subrange_concat_at(
                            s@,
                            i as int,
                            segnp,
                            cfg_tail(stv, np + 1, true),
                        );
                        if np == 9 {
                            assert(segnp =~= (if any { ","@ } else { ""@ }) + "\"send_mute\":"@ + (
                            bool_chars(stv.send_mute->Some_0))) by {
                                reveal_strlit("\"send_mute\":");
                            }
                            assert(segnp[soff + 6] == 'm') by {
                                reveal_strlit("\"send_mute\":");
                            }
                            lemma_char_at(s@, i as int, segnp, soff + 6);
                            lemma_char_at(s@, i as int, pat, soff + 6);
                            assert(pat[soff + 6] == 'r');
                        }
                        if np == 10 {
                            assert(segnp =~= (if any { ","@ } else { ""@ }) + "\"recv_mute\":"@ + (
                            bool_chars(stv.recv_mute->Some_0))) by {
                                reveal_strlit("\"recv_mute\":");
                            }
                            assert(segnp[soff + 1] == 'r') by {
                                reveal_strlit("\"recv_mute\":");
                            }
                            lemma_char_at(s@, i as int, segnp, soff + 1);
                            lemma_char_at(s@, i as int, pat, soff + 1);
                            assert(pat[soff + 1] == 's');
                        }
                        if np == 11 {
                            assert(segnp =~= (if any { ","@ } else { ""@ }) + "\"send_audio\":"@ + (
                            bool_chars(stv.send_audio->Some_0))) by {
                                reveal_strlit("\"send_audio\":");
                            }
                            assert(segnp[soff + 6] == 'a') by {
                                reveal_strlit("\"send_audio\":");
                            }
                            lemma_char_at(s@, i as int, segnp, soff + 6);
                            lemma_char_at(s@, i as int, pat, soff + 6);
                            assert(pat[soff + 6] == 'r');
                        }
                        if np == 12 {
                            assert(segnp =~= (if any { ","@ } else { ""@ }) + "\"recv_audio\":"@ + (
                            bool_chars(stv.recv_audio->Some_0))) by {
                                reveal_strlit("\"recv_audio\":");
                            }
                            assert(segnp[soff + 1] == 'r') by {
                                reveal_strlit("\"recv_audio\":");
                            }
                            lemma_char_at(s@, i as int, segnp, soff + 1);
                            lemma_char_at(s@, i as int, pat, soff + 1);
                            assert(pat[soff + 1] == 's');
                        }
                        if np == 13 {
                            assert(segnp =~= (if any { ","@ } else { ""@ }) + "\"battery_log_interval_secs\":"@ + (
                            dec_digits(stv.battery_log_interval_secs->Some_0 as nat))) by {
                                reveal_strlit("\"battery_log_interval_secs\":");
                            }
                            assert(segnp[soff + 1] == 'b') by {
                                reveal_strlit("\"battery_log_interval_secs\":");
                            }
                            lemma_char_at(s@, i as int, segnp, soff + 1);
                            lemma_char_at(s@, i as int, pat, soff + 1);
                            assert(pat[soff + 1] == 's');
                        }
                        assert(false);
                    }
                }
            }
        }
    }
    let j = match hit {
        None => {
            proof {
                assert forall|stv: crate::state::ClientStateV|
                    #![trigger cfg_tail(stv, 8, any)]
                    (crate::confsync::state_text_ok(stv) && i + cfg_tail(stv, 8, any).len() == s@.len()
                && s@.subrange(i as int, s@.len() as int) == cfg_tail(stv, 8, any)) implies crate::config_doc::cfg_field_seg(
                    stv,
                    false,
                    8,
                    any,
                ).len() == 0 by {
                    assert(crate::config_doc::cfg_field_seg(stv, false, 8, any)
                        =~= Seq::<char>::empty());
                }
            }
            return (i, any);
        }
        Some(j) => j,
    };
    let vres = scan_u16(s, j);
    proof {
        assert forall|stv: crate::state::ClientStateV|
            #![trigger cfg_tail(stv, 8, any)]
            (crate::confsync::state_text_ok(stv) && i + cfg_tail(stv, 8, any).len() == s@.len()
                && s@.subrange(i as int, s@.len() as int) == cfg_tail(stv, 8, any)) implies ({
                let seg = crate::config_doc::cfg_field_seg(stv, false, 8, any);
                &&& crate::config_doc::cfg_present(stv, 8)
                &&& vres is Some
                &&& (vres->Some_0).1 == i + seg.len()
                &&& (vres->Some_0).0 == stv.send_repair_port->Some_0
            }) by {
            let seg = crate::config_doc::cfg_field_seg(stv, false, 8, any);
            let val = (dec_digits(stv.send_repair_port->Some_0 as nat));
            assert(seg =~= pat + val);
            assert(cfg_tail(stv, 8, any) == seg + cfg_tail(stv, 9int, true));
            assert(s@.subrange(i as int, s@.len() as int) =~= pat + (val + cfg_tail(
                stv,
                9int,
                true,
            )));
            lemma_subrange_concat_at(s@, i as int, pat, val + cfg_tail(stv, 9int, true));
            lemma_subrange_concat_at(
                s@,
                i + pat.len() as int,
                val,
                cfg_tail(stv, 9int, true),
            );
            assert(j == i + pat.len());
            lemma_cfg_tail_head(stv, 9int);
            lemma_char_at(s@, j + val.len() as int, cfg_tail(stv, 9int, true), 0);
            assert(!is_digit(s@[j + val.len()]));
            lemma_dec_digits_value(stv.send_repair_port->Some_0 as nat);
            assert(vres == Some::<(u16, usize)>(
                (stv.send_repair_port->Some_0, (j + val.len()) as usize),
            ));
            assert(i + seg.len() == j + val.len());
        }
    }
    match vres {
        Some((v, j2)) => {
            st.send_repair_port = Some(v);
            (j2, true)
        }
        None => (i, any),
    }
}

/// One field of the compact configuration grammar, taken in order; a
/// junction that does not carry this field is left to the next step.
#[verifier::rlimit(100)]
#[verifier::spinoff_prover]
fn cfg_take_send_mute(s: &str, i: usize, any: bool, st: &mut ClientState) -> (r: (usize, bool))
    ensures
        forall|stv: crate::state::ClientStateV| #![trigger cfg_tail(stv, 9, any)]
            (crate::confsync::state_text_ok(stv) && i + cfg_tail(stv, 9, any).len() == s@.len()
                && s@.subrange(i as int, s@.len() as int) == cfg_tail(stv, 9, any)) ==> ({
                let seg = crate::config_doc::cfg_field_seg(stv, false, 9, any);
                &&& r.0 == i + seg.len()
                &&& r.1 == (any || crate::config_doc::cfg_present(stv, 9))
                &&& final(st)@ == (if crate::config_doc::cfg_present(stv, 9) {
                    crate::state::ClientStateV { send_mute: stv.send_mute, ..old(st)@ }
                } else {
                    old(st)@
                })
            }),
{
    let _n = s.unicode_len();
    proof {
        proof_strlits();
        reveal_strlit(",\"send_mute\":");
        reveal_strlit("\"send_mute\":");
        reveal_strlit("\"recv_mute\":");
        reveal_strlit("\"send_audio\":");
        reveal_strlit("\"recv_audio\":");
        reveal_strlit("\"battery_log_interval_secs\":");
    }
    let hit = if any {
        eat_lit(s, i, ",\"send_mute\":")
    } else {
        eat_lit(s, i, "\"send_mute\":")
    };
    let ghost pat: Seq<char> = if any {
        ",\"send_mute\":"@
    } else {
        "\"send_mute\":"@
    };
    proof {
        assert(",\"send_mute\":"@ =~= ","@ + "\"send_mute\":"@);
        assert forall|stv: crate::state::ClientStateV|
            #![trigger cfg_tail(stv, 9, any)]
            (crate::confsync::state_text_ok(stv) && i + cfg_tail(stv, 9, any).len() == s@.len()
                && s@.subrange(i as int, s@.len() as int) == cfg_tail(stv, 9, any)) implies (crate::config_doc::cfg_present(stv, 9) <==> hit is Some) by {
            if crate::config_doc::cfg_present(stv, 9) {
                let seg = crate::config_doc::cfg_field_seg(stv, false, 9, any);
                assert(seg =~= pat + (bool_chars(stv.send_mute->Some_0)));
                assert(cfg_tail(stv, 9, any) == seg + cfg_tail(stv, 10int, true));
                assert(s@.subrange(i as int, s@.len() as int) =~= pat + ((bool_chars(stv.send_mute->Some_0))
                    + cfg_tail(stv, 10int, true)));
                lemma_subrange_concat_at(
                    s@,
                    i as int,
                    pat,
                    (bool_chars(stv.send_mute->Some_0)) + cfg_tail(stv, 10int, true),
                );
                assert(hit is Some);
            } else {
                if hit is Some {
                    assert(s@.subrange(i as int, i + pat.len() as int) == pat);
                    lemma_cfg_tail_shape(stv, 9, any);
                    let np = cfg_next(stv, 9);
                    let soff: int = if any { 1 } else { 0 };
                    if np == 14 {
                        assert(s@.len() == i + 1);
                        assert(i + pat.len() <= s@.len());
                        assert(false);
                    } else {
                        let segnp = crate::config_doc::cfg_field_seg(stv, false, np, any);
                        lemma_subrange_concat_at(
                            s@,
                            i as int,
                            segnp,
                            cfg_tail(stv, np + 1, true),
                        );
                        if np == 10 {
                            assert(segnp =~= (if any { ","@ } else { ""@ }) + "\"recv_mute\":"@ + (
                            bool_chars(stv.recv_mute->Some_0))) by {
                                reveal_strlit("\"recv_mute\":");
                            }
                            assert(segnp[soff + 1] == 'r') by {
                                reveal_strlit("\"recv_mute\":");
                            }
                            lemma_char_at(s@, i as int, segnp, soff + 1);
                            lemma_char_at(s@, i as int, pat, soff + 1);
                            assert(pat[soff + 1] == 's');
                        }
                        if np == 11 {
                            assert(segnp =~= (if any { ","@ } else { ""@ }) + "\"send_audio\":"@ + (
                            bool_chars(stv.send_audio->Some_0))) by {
                                reveal_strlit("\"send_audio\":");
                            }
                            assert(segnp[soff + 6] == 'a') by {
                                reveal_strlit("\"send_audio\":");
                            }
                            lemma_char_at(s@, i as int, segnp, soff + 6);
                            lemma_char_at(s@, i as int, pat, soff + 6);
                            assert(pat[soff + 6] == 'm');
                        }
                        if np == 12 {
                            assert(segnp =~= (if any { ","@ } else { ""@ }) + "\"recv_audio\":"@ + (
                            bool_chars(stv.recv_audio->Some_0))) by {
                                reveal_strlit("\"recv_audio\":");
                            }
                            assert(segnp[soff + 1] == 'r') by {
                                reveal_strlit("\"recv_audio\":");
                            }
                            lemma_char_at(s@, i as int, segnp, soff + 1);
                            lemma_char_at(s@, i as int, pat, soff + 1);
                            assert(pat[soff + 1] == 's');
                        }
                        if np == 13 {
                            assert(segnp =~= (if any { ","@ } else { ""@ }) + "\"battery_log_interval_secs\":"@ + (
                            dec_digits(stv.battery_log_interval_secs->Some_0 as nat))) by {
                                reveal_strlit("\"battery_log_interval_secs\":");
                            }
                            assert(segnp[soff + 1] == 'b') by {
                                reveal_strlit("\"battery_log_interval_secs\":");
                            }
                            lemma_char_at(s@, i as int, segnp, soff + 1);
                            lemma_char_at(s@, i as int, pat, soff + 1);
                            assert(pat[soff + 1] == 's');
                        }
                        assert(false);
                    }
                }
            }
        }
    }
    let j = match hit {
        None => {
            proof {
                assert forall|stv: crate::state::ClientStateV|
                    #![trigger cfg_tail(stv, 9, any)]
                    (crate::confsync::state_text_ok(stv) && i + cfg_tail(stv, 9, any).len() == s@.len()
                && s@.subrange(i as int, s@.len() as int) == cfg_tail(stv, 9, any)) implies crate::config_doc::cfg_field_seg(
                    stv,
                    false,
                    9,
                    any,
                ).len() == 0 by {
                    assert(crate::config_doc::cfg_field_seg(stv, false, 9, any)
                        =~= Seq::<char>::empty());
                }
            }
            return (i, any);
        }
        Some(j) => j,
    };
    let vres = scan_bool(s, j);
    proof {
        assert forall|stv: crate::state::ClientStateV|
            #![trigger cfg_tail(stv, 9, any)]
            (crate::confsync::state_text_ok(stv) && i + cfg_tail(stv, 9, any).len() == s@.len()
                && s@.subrange(i as int, s@.len() as int) == cfg_tail(stv, 9, any)) implies ({
                let seg = crate::config_doc::cfg_field_seg(stv, false, 9, any);
                &&& crate::config_doc::cfg_present(stv, 9)
                &&& vres is Some
                &&& (vres->Some_0).1 == i + seg.len()
                &&& (vres->Some_0).0 == stv.send_mute->Some_0
            }) by {
            let seg = crate::config_doc::cfg_field_seg(stv, false, 9, any);
            let val = (bool_chars(stv.send_mute->Some_0));
            assert(seg =~= pat + val);
            assert(cfg_tail(stv, 9, any) == seg + cfg_tail(stv, 10int, true));
            assert(s@.subrange(i as int, s@.len() as int) =~= pat + (val + cfg_tail(
                stv,
                10int,
                true,
            )));
            lemma_subrange_concat_at(s@, i as int, pat, val + cfg_tail(stv, 10int, true));
            lemma_subrange_concat_at(
                s@,
                i + pat.len() as int,
                val,
                cfg_tail(stv, 10int, true),
            );
            assert(j == i + pat.len());
            reveal_strlit("true");
            reveal_strlit("false");
            assert(vres == Some::<(bool, usize)>(
                (stv.send_mute->Some_0, (j + val.len()) as usize),
            ));
            assert(i + seg.len() == j + val.len());
        }
    }
    match vres {
        Some((v, j2)) => {
            st.send_mute = Some(v);
            (j2, true)
        }
        None => (i, any),
    }
}

/// One field of the compact configuration grammar, taken in order; a
/// junction that does not carry this field is left to the next step.
#[verifier::rlimit(100)]
#[verifier::spinoff_prover]
fn cfg_take_recv_mute(s: &str, i: usize, any: bool, st: &mut ClientState) -> (r: (usize, bool))
    ensures
        forall|stv: crate::state::ClientStateV| #![trigger cfg_tail(stv, 10, any)]
            (crate::confsync::state_text_ok(stv) && i + cfg_tail(stv, 10, any).len() == s@.len()
                && s@.subrange(i as int, s@.len() as int) == cfg_tail(stv, 10, any)) ==> ({
                let seg = crate::config_doc::cfg_field_seg(stv, false, 10, any);
                &&& r.0 == i + seg.len()
                &&& r.1 == (any || crate::config_doc::cfg_present(stv, 10))
                &&& final(st)@ == (if crate::config_doc::cfg_present(stv, 10) {
                    crate::state::ClientStateV { recv_mute: stv.recv_mute, ..old(st)@ }
                } else {
                    old(st)@
                })
            }),
{
    let _n = s.unicode_len();
    proof {
        proof_strlits();
        reveal_strlit(",\"recv_mute\":");
        reveal_strlit("\"recv_mute\":");
        reveal_strlit("\"send_audio\":");
        reveal_strlit("\"recv_audio\":");
        reveal_strlit("\"battery_log_interval_secs\":");
    }
    let hit = if any {
        eat_lit(s, i, ",\"recv_mute\":")
    } else {
        eat_lit(s, i, "\"recv_mute\":")
    };
    let ghost pat: Seq<char> = if any {
        ",\"recv_mute\":"@
    } else {
        "\"recv_mute\":"@
    };
    proof {
        assert(",\"recv_mute\":"@ =~= ","@ + "\"recv_mute\":"@);
        assert forall|stv: crate::state::ClientStateV|
            #![trigger cfg_tail(stv, 10, any)]
            (crate::confsync::state_text_ok(stv) && i + cfg_tail(stv, 10, any).len() == s@.len()
                && s@.subrange(i as int, s@.len() as int) == cfg_tail(stv, 10, any)) implies (crate::config_doc::cfg_present(stv, 10) <==> hit is Some) by {
            if crate::config_doc::cfg_present(stv, 10) {
                let seg = crate::config_doc::cfg_field_seg(stv, false, 10, any);
                assert(seg =~= pat + (bool_chars(stv.recv_mute->Some_0)));
                assert(cfg_tail(stv, 10, any) == seg + cfg_tail(stv, 11int, true));
                assert(s@.subrange(i as int, s@.len() as int) =~= pat + ((bool_chars(stv.recv_mute->Some_0))
                    + cfg_tail(stv, 11int, true)));
                lemma_subrange_concat_at(
                    s@,
                    i as int,
                    pat,
                    (bool_chars(stv.recv_mute->Some_0)) + cfg_tail(stv, 11int, true),
                );
                assert(hit is Some);
            } else {
                if hit is Some {
                    assert(s@.subrange(i as int, i + pat.len() as int) == pat);
                    lemma_cfg_tail_shape(stv, 10, any);
                    let np = cfg_next(stv, 10);
                    let soff: int = if any { 1 } else { 0 };
                    if np == 14 {
                        assert(s@.len() == i + 1);
                        assert(i + pat.len() <= s@.len());
                        assert(false);
                    } else {
                        let segnp = crate::config_doc::cfg_field_seg(stv, false, np, any);
                        lemma_subrange_concat_at(
                            s@,
                            i as int,
                            segnp,
                            cfg_tail(stv, np + 1, true),
                        );
                        if np == 11 {
                            assert(segnp =~= (if any { ","@ } else { ""@ }) + "\"send_audio\":"@ + (
                            bool_chars(stv.send_audio->Some_0))) by {
                                reveal_strlit("\"send_audio\":");
                            }
                            assert(segnp[soff + 1] == 's') by {
                                reveal_strlit("\"send_audio\":");
                            }
                            lemma_char_at(s@, i as int, segnp, soff + 1);
                            lemma_char_at(s@, i as int, pat, soff + 1);
                            assert(pat[soff + 1] == 'r');
                        }
                        if np == 12 {
                            assert(segnp =~= (if any { ","@ } else { ""@ }) + "\"recv_audio\":"@ + (
                            bool_chars(stv.recv_audio->Some_0))) by {
                                reveal_strlit("\"recv_audio\":");
                            }
                            assert(segnp[soff + 6] == 'a') by {
                                reveal_strlit("\"recv_audio\":");
                            }
                            lemma_char_at(s@, i as int, segnp, soff + 6);
                            lemma_char_at(s@, i as int, pat, soff + 6);
                            assert(pat[soff + 6] == 'm');
                        }
                        if np == 13 {
                            assert(segnp =~= (if any { ","@ } else { ""@ }) + "\"battery_log_interval_secs\":"@ + (
                            dec_digits(stv.battery_log_interval_secs->Some_0 as nat))) by {
                                reveal_strlit("\"battery_log_interval_secs\":");
                            }
                            assert(segnp[soff + 1] == 'b') by {
                                reveal_strlit("\"battery_log_interval_secs\":");
                            }
                            lemma_char_at(s@, i as int, segnp, soff + 1);
                            lemma_char_at(s@, i as int, pat, soff + 1);
                            assert(pat[soff + 1] == 'r');
                        }
                        assert(false);
                    }
                }
            }
        }
    }
    let j = match hit {
        None => {
            proof {
                assert forall|stv: crate::state::ClientStateV|
                    #![trigger cfg_tail(stv, 10, any)]
                    (crate::confsync::state_text_ok(stv) && i + cfg_tail(stv, 10, any).len() == s@.len()
                && s@.subrange(i as int, s@.len() as int) == cfg_tail(stv, 10, any)) implies crate::config_doc::cfg_field_seg(
                    stv,
                    false,
                    10,
                    any,
                ).len() == 0 by {
                    assert(crate::config_doc::cfg_field_seg(stv, false, 10, any)
                        =~= Seq::<char>::empty());
                }
            }
            return (i, any);
        }
        Some(j) => j,
    };
    let vres = scan_bool(s, j);
    proof {
        assert forall|stv: crate::state::ClientStateV|
            #![trigger cfg_tail(stv, 10, any)]
            (crate::confsync::state_text_ok(stv) && i + cfg_tail(stv, 10, any).len() == s@.len()
                && s@.subrange(i as int, s@.len() as int) == cfg_tail(stv, 10, any)) implies ({
                let seg = crate::config_doc::cfg_field_seg(stv, false, 10, any);
                &&& crate::config_doc::cfg_present(stv, 10)
                &&& vres is Some
                &&& (vres->Some_0).1 == i + seg.len()
                &&& (vres->Some_0).0 == stv.recv_mute->Some_0
            }) by {
            let seg = crate::config_doc::cfg_field_seg(stv, false, 10, any);
            let val = (bool_chars(stv.recv_mute->Some_0));
            assert(seg =~= pat + val);
            assert(cfg_tail(stv, 10, any) == seg + cfg_tail(stv, 11int, true));
            assert(s@.subrange(i as int, s@.len() as int) =~= pat + (val + cfg_tail(
                stv,
                11int,
                true,
            )));
            lemma_subrange_concat_at(s@, i as int, pat, val + cfg_tail(stv, 11int, true));
            lemma_subrange_concat_at(
                s@,
                i + pat.len() as int,
                val,
                cfg_tail(stv, 11int, true),
            );
            assert(j == i + pat.len());
            reveal_strlit("true");
            reveal_strlit("false");
            assert(vres == Some::<(bool, usize)>(
                (stv.recv_mute->Some_0, (j + val.len()) as usize),
            ));
            assert(i + seg.len() == j + val.len());
        }
    }
    match vres {
        Some((v, j2)) => {
            st.recv_mute = Some(v);
            (j2, true)
        }
        None => (i, any),
    }
}

/// One field of the compact configuration grammar, taken in order; a
/// junction that does not carry this field is left to the next step.
#[verifier::rlimit(100)]
#[verifier::spinoff_prover]
fn cfg_take_send_audio(s: &str, i: usize, any: bool, st: &mut ClientState) -> (r: (usize, bool))
    ensures
        forall|stv: crate::state::ClientStateV| #![trigger cfg_tail(stv, 11, any)]
            (crate::confsync::state_text_ok(stv) && i + cfg_tail(stv, 11, any).len() == s@.len()
                && s@.subrange(i as int, s@.len() as int) == cfg_tail(stv, 11, any)) ==> ({
                let seg = crate::config_doc::cfg_field_seg(stv, false, 11, any);
                &&& r.0 == i + seg.len()
                &&& r.1 == (any || crate::config_doc::cfg_present(stv, 11))
                &&& final(st)@ == (if crate::config_doc::cfg_present(stv, 11) {
                    crate::state::ClientStateV { send_audio: stv.send_audio, ..old(st)@ }
                } else {
                    old(st)@
                })
            }),
{
    let _n = s.unicode_len();
    proof {
        proof_strlits();
        reveal_strlit(",\"send_audio\":");
        reveal_strlit("\"send_audio\":");
        reveal_strlit("\"recv_audio\":");
        reveal_strlit("\"battery_log_interval_secs\":");
    }
    let hit = if any {
        eat_lit(s, i, ",\"send_audio\":")
    } else {
        eat_lit(s, i, "\"send_audio\":")
    };
    let ghost pat: Seq<char> = if any {
        ",\"send_audio\":"@
    } else {
        "\"send_audio\":"@
    };
    proof {
        assert(",\"send_audio\":"@ =~= ","@ + "\"send_audio\":"@);
        assert forall|stv: crate::state::ClientStateV|
            #![trigger cfg_tail(stv, 11, any)]
            (crate::confsync::state_text_ok(stv) && i + cfg_tail(stv, 11, any).len() == s@.len()
                && s@.subrange(i as int, s@.len() as int) == cfg_tail(stv, 11, any)) implies (crate::config_doc::cfg_present(stv, 11) <==> hit is Some) by {
            if crate::config_doc::cfg_present(stv, 11) {
                let seg = crate::config_doc::cfg_field_seg(stv, false, 11, any);
                assert(seg =~= pat + (bool_chars(stv.send_audio->Some_0)));
                assert(cfg_tail(stv, 11, any) == seg + cfg_tail(stv, 12int, true));
                assert(s@.subrange(i as int, s@.len() as int) =~= pat + ((bool_chars(stv.send_audio->Some_0))
                    + cfg_tail(stv, 12int, true)));
                lemma_subrange_concat_at(
                    s@,
                    i as int,
                    pat,
                    (bool_chars(stv.send_audio->Some_0)) + cfg_tail(stv, 12int, true),
                );
                assert(hit is Some);
            } else {
                if hit is Some {
                    assert(s@.subrange(i as int, i + pat.len() as int) == pat);
                    lemma_cfg_tail_shape(stv, 11, any);
                    let np = cfg_next(stv, 11);
                    let soff: int = if any { 1 } else { 0 };
                    if np == 14 {
                        assert(s@.len() == i + 1);
                        assert(i + pat.len() <= s@.len());
                        assert(false);
                    } else {
                        let segnp = crate::config_doc::cfg_field_seg(stv, false, np, any);
                        lemma_subrange_concat_at(
                            s@,
                            i as int,
                            segnp,
                            cfg_tail(stv, np + 1, true),
                        );
                        if np == 12 {
                            assert(segnp =~= (if any { ","@ } else { ""@ }) + "\"recv_audio\":"@ + (
                            bool_chars(stv.recv_audio->Some_0))) by {
                                reveal_strlit("\"recv_audio\":");
                            }
                            assert(segnp[soff + 1] == 'r') by {
                                reveal_strlit("\"recv_audio\":");
                            }
                            lemma_char_at(s@, i as int, segnp, soff + 1);
                            lemma_char_at(s@, i as int, pat, soff + 1);
                            assert(pat[soff + 1] == 's');
                        }
                        if np == 13 {
                            assert(segnp =~= (if any { ","@ } else { ""@ }) + "\"battery_log_interval_secs\":"@ + (
                            dec_digits(stv.battery_log_interval_secs->Some_0 as nat))) by {
                                reveal_strlit("\"battery_log_interval_secs\":");
                            }
                            assert(segnp[soff + 1] == 'b') by {
                                reveal_strlit("\"battery_log_interval_secs\":");
                            }
                            lemma_char_at(s@, i as int, segnp, soff + 1);
                            lemma_char_at(s@, i as int, pat, soff + 1);
                            assert(pat[soff + 1] == 's');
                        }
                        assert(false);
                    }
                }
            }
        }
    }
    let j = match hit {
        None => {
            proof {
                assert forall|stv: crate::state::ClientStateV|
                    #![trigger cfg_tail(stv, 11, any)]
                    (crate::confsync::state_text_ok(stv) && i + cfg_tail(stv, 11, any).len() == s@.len()
                && s@.subrange(i as int, s@.len() as int) == cfg_tail(stv, 11, any)) implies crate::config_doc::cfg_field_seg(
                    stv,
                    false,
                    11,
                    any,
                ).len() == 0 by {
                    assert(crate::config_doc::cfg_field_seg(stv, false, 11, any)
                        =~= Seq::<char>::empty());
                }
            }
            return (i, any);
        }
        Some(j) => j,
    };
    let vres = scan_bool(s, j);
    proof {
        assert forall|stv: crate::state::ClientStateV|
            #![trigger cfg_tail(stv, 11, any)]
            (crate::confsync::state_text_ok(stv) && i + cfg_tail(stv, 11, any).len() == s@.len()
                && s@.subrange(i as int, s@.len() as int) == cfg_tail(stv, 11, any)) implies ({
                let seg = crate::config_doc::cfg_field_seg(stv, false, 11, any);
                &&& crate::config_doc::cfg_present(stv, 11)
                &&& vres is Some
                &&& (vres->Some_0).1 == i + seg.len()
                &&& (vres->Some_0).0 == stv.send_audio->Some_0
            }) by {
            let seg = crate::config_doc::cfg_field_seg(stv, false, 11, any);
            let val = (bool_chars(stv.send_audio->Some_0));
            assert(seg =~= pat + val);
            assert(cfg_tail(stv, 11, any) == seg + cfg_tail(stv, 12int, true));
            assert(s@.subrange(i as int, s@.len() as int) =~= pat + (val + cfg_tail(
                stv,
                12int,
                true,
            )));
            lemma_subrange_concat_at(s@, i as int, pat, val + cfg_tail(stv, 12int, true));
            lemma_subrange_concat_at(
                s@,
                i + pat.len() as int,
                val,
                cfg_tail(stv, 12int, true),
            );
            assert(j == i + pat.len());
            reveal_strlit("true");
            reveal_strlit("false");
            assert(vres == Some::<(bool, usize)>(
                (stv.send_audio->Some_0, (j + val.len()) as usize),
            ));
            assert(i + seg.len() == j + val.len());
        }
    }
    match vres {
        Some((v, j2)) => {
            st.send_audio = Some(v);
            (j2, true)
        }
        None => (i, any),
    }
}

/// One field of the compact configuration grammar, taken in order; a
/// junction that does not carry this field is left to the next step.
#[verifier::rlimit(100)]
#[verifier::spinoff_prover]
fn cfg_take_recv_audio(s: &str, i: usize, any: bool, st: &mut ClientState) -> (r: (usize, bool))
    ensures
        forall|stv: crate::state::ClientStateV| #![trigger cfg_tail(stv, 12, any)]
            (crate::confsync::state_text_ok(stv) && i + cfg_tail(stv, 12, any).len() == s@.len()
                && s@.subrange(i as int, s@.len() as int) == cfg_tail(stv, 12, any)) ==> ({
                let seg = crate::config_doc::cfg_field_seg(stv, false, 12, any);
                &&& r.0 == i + seg.len()
                &&& r.1 == (any || crate::config_doc::cfg_present(stv, 12))
                &&& final(st)@ == (if crate::config_doc::cfg_present(stv, 12) {
                    crate::state::ClientStateV { recv_audio: stv.recv_audio, ..old(st)@ }
                } else {
                    old(st)@
                })
            }),
{
    let _n = s.unicode_len();
    proof {
        proof_strlits();
        reveal_strlit(",\"recv_audio\":");
        reveal_strlit("\"recv_audio\":");
        reveal_strlit("\"battery_log_interval_secs\":");
    }
    let hit = if any {
        eat_lit(s, i, ",\"recv_audio\":")
    } else {
        eat_lit(s, i, "\"recv_audio\":")
    };
    let ghost pat: Seq<char> = if any {
        ",\"recv_audio\":"@
    } else {
        "\"recv_audio\":"@
    };
    proof {
        assert(",\"recv_audio\":"@ =~= ","@ + "\"recv_audio\":"@);
        assert forall|stv: crate::state::ClientStateV|
            #![trigger cfg_tail(stv, 12, any)]
            (crate::confsync::state_text_ok(stv) && i + cfg_tail(stv, 12, any).len() == s@.len()
                && s@.subrange(i as int, s@.len() as int) == cfg_tail(stv, 12, any)) implies (crate::config_doc::cfg_present(stv, 12) <==> hit is Some) by {
            if crate::config_doc::cfg_present(stv, 12) {
                let seg = crate::config_doc::cfg_field_seg(stv, false, 12, any);
                assert(seg =~= pat + (bool_chars(stv.recv_audio->Some_0)));
                assert(cfg_tail(stv, 12, any) == seg + cfg_tail(stv, 13int, true));
                assert(s@.subrange(i as int, s@.len() as int) =~= pat + ((bool_chars(stv.recv_audio->Some_0))
                    + cfg_tail(stv, 13int, true)));
                lemma_subrange_concat_at(
                    s@,
                    i as int,
                    pat,
                    (bool_chars(stv.recv_audio->Some_0)) + cfg_tail(stv, 13int, true),
                );
                assert(hit is Some);
            } else {
                if hit is Some {
                    assert(s@.subrange(i as int, i + pat.len() as int) == pat);
                    lemma_cfg_tail_shape(stv, 12, any);
                    let np = cfg_next(stv, 12);
                    let soff: int = if any { 1 } else { 0 };
                    if np == 14 {
                        assert(s@.len() == i + 1);
                        assert(i + pat.len() <= s@.len());
                        assert(false);
                    } else {
                        let segnp = crate::config_doc::cfg_field_seg(stv, false, np, any);
                        lemma_subrange_concat_at(
                            s@,
                            i as int,
                            segnp,
                            cfg_tail(stv, np + 1, true),
                        );
                        if np == 13 {
                            assert(segnp =~= (if any { ","@ } else { ""@ }) + "\"battery_log_interval_secs\":"@ + (
                            dec_digits(stv.battery_log_interval_secs->Some_0 as nat))) by {
                                reveal_strlit("\"battery_log_interval_secs\":");
                            }
                            assert(segnp[soff + 1] == 'b') by {
                                reveal_strlit("\"battery_log_interval_secs\":");
                            }
                            lemma_char_at(s@, i as int, segnp, soff + 1);
                            lemma_char_at(s@, i as int, pat, soff + 1);
                            assert(pat[soff + 1] == 'r');
                        }
                        assert(false);
                    }
                }
            }
        }
    }
    let j = match hit {
        None => {
            proof {
                assert forall|stv: crate::state::ClientStateV|
                    #![trigger cfg_tail(stv, 12, any)]
                    (crate::confsync::state_text_ok(stv) && i + cfg_tail(stv, 12, any).len() == s@.len()
                && s@.subrange(i as int, s@.len() as int) == cfg_tail(stv, 12, any)) implies crate::config_doc::cfg_field_seg(
                    stv,
                    false,
                    12,
                    any,
                ).len() == 0 by {
                    assert(crate::config_doc::cfg_field_seg(stv, false, 12, any)
                        =~= Seq::<char>::empty());
                }
            }
            return (i, any);
        }
        Some(j) => j,
    };
    let vres = scan_bool(s, j);
    proof {
        assert forall|stv: crate::state::ClientStateV|
            #![trigger cfg_tail(stv, 12, any)]
            (crate::confsync::state_text_ok(stv) && i + cfg_tail(stv, 12, any).len() == s@.len()
                && s@.subrange(i as int, s@.len() as int) == cfg_tail(stv, 12, any)) implies ({
                let seg = crate::config_doc::cfg_field_seg(stv, false, 12, any);
                &&& crate::config_doc::cfg_present(stv, 12)
                &&& vres is Some
                &&& (vres->Some_0).1 == i + seg.len()
                &&& (vres->Some_0).0 == stv.recv_audio->Some_0
            }) by {
            let seg = crate::config_doc::cfg_field_seg(stv, false, 12, any);
            let val = (bool_chars(stv.recv_audio->Some_0));
            assert(seg =~= pat + val);
            assert(cfg_tail(stv, 12, any) == seg + cfg_tail(stv, 13int, true));
            assert(s@.subrange(i as int, s@.len() as int) =~= pat + (val + cfg_tail(
                stv,
                13int,
                true,
            )));
            lemma_subrange_concat_at(s@, i as int, pat, val + cfg_tail(stv, 13int, true));
            lemma_subrange_concat_at(
                s@,
                i + pat.len() as int,
                val,
                cfg_tail(stv, 13int, true),
            );
            assert(j == i + pat.len());
            reveal_strlit("true");
            reveal_strlit("false");
            assert(vres == Some::<(bool, usize)>(
                (stv.recv_audio->Some_0, (j + val.len()) as usize),
            ));
            assert(i + seg.len() == j + val.len());
        }
    }
    match vres {
        Some((v, j2)) => {
            st.recv_audio = Some(v);
            (j2, true)
        }
        None => (i, any),
    }
}

/// One field of the compact configuration grammar, taken in order; a
/// junction that does not carry this field is left to the next step.
#[verifier::rlimit(100)]
#[verifier::spinoff_prover]
fn cfg_take_battery_log_interval_secs(s: &str, i: usize, any: bool, st: &mut ClientState) -> (r: (usize, bool))
    ensures
        forall|stv: crate::state::ClientStateV| #![trigger cfg_tail(stv, 13, any)]
            (crate::confsync::state_text_ok(stv) && i + cfg_tail(stv, 13, any).len() == s@.len()
                && s@.subrange(i as int, s@.len() as int) == cfg_tail(stv, 13, any)) ==> ({
                let seg = crate::config_doc::cfg_field_seg(stv, false, 13, any);
                &&& r.0 == i + seg.len()
                &&& r.1 == (any || crate::config_doc::cfg_present(stv, 13))
                &&& final(st)@ == (if crate::config_doc::cfg_present(stv, 13) {
                    crate::state::ClientStateV { battery_log_interval_secs: stv.battery_log_interval_secs, ..old(st)@ }
                } else {
                    old(st)@
                })
            }),
{
    let _n = s.unicode_len();
    proof {
        proof_strlits();
        reveal_strlit(",\"battery_log_interval_secs\":");
        reveal_strlit("\"battery_log_interval_secs\":");
    }
    let hit = if any {
        eat_lit(s, i, ",\"battery_log_interval_secs\":")
    } else {
        eat_lit(s, i, "\"battery_log_interval_secs\":")
    };
    let ghost pat: Seq<char> = if any {
        ",\"battery_log_interval_secs\":"@
    } else {
        "\"battery_log_interval_secs\":"@
    };
    proof {
        assert(",\"battery_log_interval_secs\":"@ =~= ","@ + "\"battery_log_interval_secs\":"@);
        assert forall|stv: crate::state::ClientStateV|
            #![trigger cfg_tail(stv, 13, any)]
            (crate::confsync::state_text_ok(stv) && i + cfg_tail(stv, 13, any).len() == s@.len()
                && s@.subrange(i as int, s@.len() as int) == cfg_tail(stv, 13, any)) implies (crate::config_doc::cfg_present(stv, 13) <==> hit is Some) by {
            if crate::config_doc::cfg_present(stv, 13) {
                let seg = crate::config_doc::cfg_field_seg(stv, false, 13, any);
                assert(seg =~= pat + (dec_digits(stv.battery_log_interval_secs->Some_0 as nat)));
                assert(cfg_tail(stv, 13, any) == seg + cfg_tail(stv, 14int, true));
                assert(s@.subrange(i as int, s@.len() as int) =~= pat + ((dec_digits(stv.battery_log_interval_secs->Some_0 as nat))
                    + cfg_tail(stv, 14int, true)));
                lemma_subrange_concat_at(
                    s@,
                    i as int,
                    pat,
                    (dec_digits(stv.battery_log_interval_secs->Some_0 as nat)) + cfg_tail(stv, 14int, true),
                );
                assert(hit is Some);
            } else {
                if hit is Some {
                    assert(s@.subrange(i as int, i + pat.len() as int) == pat);
                    lemma_cfg_tail_shape(stv, 13, any);
                    let np = cfg_next(stv, 13);
                    let soff: int = if any { 1 } else { 0 };
                    if np == 14 {
                        assert(s@.len() == i + 1);
                        assert(i + pat.len() <= s@.len());
                        assert(false);
                    } else {
                        let segnp = crate::config_doc::cfg_field_seg(stv, false, np, any);
                        lemma_subrange_concat_at(
                            s@,
                            i as int,
                            segnp,
                            cfg_tail(stv, np + 1, true),
                        );

                        assert(false);
                    }
                }
            }
        }
    }
    let j = match hit {
        None => {
            proof {
                assert forall|stv: crate::state::ClientStateV|
                    #![trigger cfg_tail(stv, 13, any)]
                    (crate::confsync::state_text_ok(stv) && i + cfg_tail(stv, 13, any).len() == s@.len()
                && s@.subrange(i as int, s@.len() as int) == cfg_tail(stv, 13, any)) implies crate::config_doc::cfg_field_seg(
                    stv,
                    false,
                    13,
                    any,
                ).len() == 0 by {
                    assert(crate::config_doc::cfg_field_seg(stv, false, 13, any)
                        =~= Seq::<char>::empty());
                }
            }
            return (i, any);
        }
        Some(j) => j,
    };
    let vres = scan_u32(s, j);
    proof {
        assert forall|stv: crate::state::ClientStateV|
            #![trigger cfg_tail(stv, 13, any)]
            (crate::confsync::state_text_ok(stv) && i + cfg_tail(stv, 13, any).len() == s@.len()
                && s@.subrange(i as int, s@.len() as int) == cfg_tail(stv, 13, any)) implies ({
                let seg = crate::config_doc::cfg_field_seg(stv, false, 13, any);
                &&& crate::config_doc::cfg_present(stv, 13)
                &&& vres is Some
                &&& (vres->Some_0).1 == i + seg.len()
                &&& (vres->Some_0).0 == stv.battery_log_interval_secs->Some_0
            }) by {
            let seg = crate::config_doc::cfg_field_seg(stv, false, 13, any);
            let val = (dec_digits(stv.battery_log_interval_secs->Some_0 as nat));
            assert(seg =~= pat + val);
            assert(cfg_tail(stv, 13, any) == seg + cfg_tail(stv, 14int, true));
            assert(s@.subrange(i as int, s@.len() as int) =~= pat + (val + cfg_tail(
                stv,
                14int,
                true,
            )));
            lemma_subrange_concat_at(s@, i as int, pat, val + cfg_tail(stv, 14int, true));
            lemma_subrange_concat_at(
                s@,
                i + pat.len() as int,
                val,
                cfg_tail(stv, 14int, true),
            );
            assert(j == i + pat.len());
            lemma_cfg_tail_head(stv, 14int);
            lemma_char_at(s@, j + val.len() as int, cfg_tail(stv, 14int, true), 0);
            assert(!is_digit(s@[j + val.len()]));
            lemma_dec_digits_value(stv.battery_log_interval_secs->Some_0 as nat);
            assert(vres == Some::<(u32, usize)>(
                (stv.battery_log_interval_secs->Some_0, (j + val.len()) as usize),
            ));
            assert(i + seg.len() == j + val.len());
        }
    }
    match vres {
        Some((v, j2)) => {
            st.battery_log_interval_secs = Some(v);
            (j2, true)
        }
        None => (i, any),
    }
}

/// The first half of the configuration fields, taken in order.
#[verifier::rlimit(100)]
#[verifier::spinoff_prover]
fn cfg_take_front(s: &str, i: usize, any: bool, st: &mut ClientState) -> (r: (usize, bool))
    ensures
        forall|stv: crate::state::ClientStateV| #![trigger cfg_tail(stv, 1, any)]
            (crate::confsync::state_text_ok(stv) && i + cfg_tail(stv, 1, any).len() == s@.len()
                && s@.subrange(i as int, s@.len() as int) == cfg_tail(stv, 1, any)) ==> ({
                &&& r.0 + cfg_tail(stv, 8int, r.1).len() == s@.len()
                &&& s@.subrange(r.0 as int, s@.len() as int) == cfg_tail(stv, 8int, r.1)
                &&& final(st)@ == (crate::state::ClientStateV {
                    client_name: if stv.client_name is Some {
                        stv.client_name
                    } else {
                        old(st)@.client_name
                    },
                    battery_level: if stv.battery_level is Some {
                        stv.battery_level
                    } else {
                        old(st)@.battery_level
                    },
                    is_charging: if stv.is_charging is Some {
                        stv.is_charging
                    } else {
                        old(st)@.is_charging
                    },
                    display_name: if stv.display_name is Some {
                        stv.display_name
                    } else {
                        old(st)@.display_name
                    },
                    recv_audio_port: if stv.recv_audio_port is Some {
                        stv.recv_audio_port
                    } else {
                        old(st)@.recv_audio_port
                    },
                    recv_repair_port: if stv.recv_repair_port is Some {
                        stv.recv_repair_port
                    } else {
                        old(st)@.recv_repair_port
                    },
                    send_audio_port: if stv.send_audio_port is Some {
                        stv.send_audio_port
                    } else {
                        old(st)@.send_audio_port
                    },
                    ..old(st)@
                })
            }),
{
    let (i1, a1) = cfg_take_client_name(s, i, any, st);
    let (i2, a2) = cfg_take_battery_level(s, i1, a1, st);
    let (i3, a3) = cfg_take_is_charging(s, i2, a2, st);
    let (i4, a4) = cfg_take_display_name(s, i3, a3, st);
    let (i5, a5) = cfg_take_recv_audio_port(s, i4, a4, st);
    let (i6, a6) = cfg_take_recv_repair_port(s, i5, a5, st);
    let (i7, a7) = cfg_take_send_audio_port(s, i6, a6, st);
    proof {
        assert forall|stv: crate::state::ClientStateV|
            #![trigger cfg_tail(stv, 1, any)]
            (crate::confsync::state_text_ok(stv) && i + cfg_tail(stv, 1, any).len() == s@.len()
                && s@.subrange(i as int, s@.len() as int) == cfg_tail(stv, 1, any)) implies ({
                &&& i7 + cfg_tail(stv, 8int, a7).len() == s@.len()
                &&& s@.subrange(i7 as int, s@.len() as int) == cfg_tail(stv, 8int, a7)
                &&& st@ == (crate::state::ClientStateV {
                    client_name: if stv.client_name is Some {
                        stv.client_name
                    } else {
                        old(st)@.client_name
                    },
                    battery_level: if stv.battery_level is Some {
                        stv.battery_level
                    } else {
                        old(st)@.battery_level
                    },
                    is_charging: if stv.is_charging is Some {
                        stv.is_charging
                    } else {
                        old(st)@.is_charging
                    },
                    display_name: if stv.display_name is Some {
                        stv.display_name
                    } else {
                        old(st)@.display_name
                    },
                    recv_audio_port: if stv.recv_audio_port is Some {
                        stv.recv_audio_port
                    } else {
                        old(st)@.recv_audio_port
                    },
                    recv_repair_port: if stv.recv_repair_port is Some {
                        stv.recv_repair_port
                    } else {
                        old(st)@.recv_repair_port
                    },
                    send_audio_port: if stv.send_audio_port is Some {
                        stv.send_audio_port
                    } else {
                        old(st)@.send_audio_port
                    },
                    ..old(st)@
                })
            }) by {
            assert(cfg_tail(stv, 1, any) == crate::config_doc::cfg_field_seg(
                stv,
                false,
                1,
                any,
            ) + cfg_tail(stv, 2int, a1));
            lemma_subrange_concat_at(
                s@,
                i as int,
                crate::config_doc::cfg_field_seg(stv, false, 1, any),
                cfg_tail(stv, 2int, a1),
            );
            assert(cfg_tail(stv, 2, a1) == crate::config_doc::cfg_field_seg(
                stv,
                false,
                2,
                a1,
            ) + cfg_tail(stv, 3int, a2));
            lemma_subrange_concat_at(
                s@,
                i1 as int,
                crate::config_doc::cfg_field_seg(stv, false, 2, a1),
                cfg_tail(stv, 3int, a2),
            );
            assert(cfg_tail(stv, 3, a2) == crate::config_doc::cfg_field_seg(
                stv,
                false,
                3,
                a2,
            ) + cfg_tail(stv, 4int, a3));
            lemma_subrange_concat_at(
                s@,
                i2 as int,
                crate::config_doc::cfg_field_seg(stv, false, 3, a2),
                cfg_tail(stv, 4int, a3),
            );
            assert(cfg_tail(stv, 4, a3) == crate::config_doc::cfg_field_seg(
                stv,
                false,
                4,
                a3,
            ) + cfg_tail(stv, 5int, a4));
            lemma_subrange_concat_at(
                s@,
                i3 as int,
                crate::config_doc::cfg_field_seg(stv, false, 4, a3),
                cfg_tail(stv, 5int, a4),
            );
            assert(cfg_tail(stv, 5, a4) == crate::config_doc::cfg_field_seg(
                stv,
                false,
                5,
                a4,
            ) + cfg_tail(stv, 6int, a5));
            lemma_subrange_concat_at(
                s@,
                i4 as int,
                crate::config_doc::cfg_field_seg(stv, false, 5, a4),
                cfg_tail(stv, 6int, a5),
            );
            assert(cfg_tail(stv, 6, a5) == crate::config_doc::cfg_field_seg(
                stv,
                false,
                6,
                a5,
            ) + cfg_tail(stv, 7int, a6));
            lemma_subrange_concat_at(
                s@,
                i5 as int,
                crate::config_doc::cfg_field_seg(stv, false, 6, a5),
                cfg_tail(stv, 7int, a6),
            );
            assert(cfg_tail(stv, 7, a6) == crate::config_doc::cfg_field_seg(
                stv,
                false,
                7,
                a6,
            ) + cfg_tail(stv, 8int, a7));
            lemma_subrange_concat_at(
                s@,
                i6 as int,
                crate::config_doc::cfg_field_seg(stv, false, 7, a6),
                cfg_tail(stv, 8int, a7),
            );
            assert(st@ =~= (crate::state::ClientStateV {
                    client_name: if stv.client_name is Some {
                        stv.client_name
                    } else {
                        old(st)@.client_name
                    },
                    battery_level: if stv.battery_level is Some {
                        stv.battery_level
                    } else {
                        old(st)@.battery_level
                    },
                    is_charging: if stv.is_charging is Some {
                        stv.is_charging
                    } else {
                        old(st)@.is_charging
                    },
                    display_name: if stv.display_name is Some {
                        stv.display_name
                    } else {
                        old(st)@.display_name
                    },
                    recv_audio_port: if stv.recv_audio_port is Some {
                        stv.recv_audio_port
                    } else {
                        old(st)@.recv_audio_port
                    },
                    recv_repair_port: if stv.recv_repair_port is Some {
                        stv.recv_repair_port
                    } else {
                        old(st)@.recv_repair_port
                    },
                    send_audio_port: if stv.send_audio_port is Some {
                        stv.send_audio_port
                    } else {
                        old(st)@.send_audio_port
                    },
                ..old(st)@
            }));
        }
    }
    (i7, a7)
}

/// The second half of the configuration fields, taken in order.
#[verifier::rlimit(100)]
#[verifier::spinoff_prover]
fn cfg_take_back(s: &str, i: usize, any: bool, st: &mut ClientState) -> (r: (usize, bool))
    ensures
        forall|stv: crate::state::ClientStateV| #![trigger cfg_tail(stv, 8, any)]
            (crate::confsync::state_text_ok(stv) && i + cfg_tail(stv, 8, any).len() == s@.len()
                && s@.subrange(i as int, s@.len() as int) == cfg_tail(stv, 8, any)) ==> ({
                &&& r.0 + cfg_tail(stv, 14int, r.1).len() == s@.len()
                &&& s@.subrange(r.0 as int, s@.len() as int) == cfg_tail(stv, 14int, r.1)
                &&& final(st)@ == (crate::state::ClientStateV {
                    send_repair_port: if stv.send_repair_port is Some {
                        stv.send_repair_port
                    } else {
                        old(st)@.send_repair_port
                    },
                    send_mute: if stv.send_mute is Some {
                        stv.send_mute
                    } else {
                        old(st)@.send_mute
                    },
                    recv_mute: if stv.recv_mute is Some {
                        stv.recv_mute
                    } else {
                        old(st)@.recv_mute
                    },
                    send_audio: if stv.send_audio is Some {
                        stv.send_audio
                    } else {
                        old(st)@.send_audio
                    },
                    recv_audio: if stv.recv_audio is Some {
                        stv.recv_audio
                    } else {
                        old(st)@.recv_audio
                    },
                    battery_log_interval_secs: if stv.battery_log_interval_secs is Some {
                        stv.battery_log_interval_secs
                    } else {
                        old(st)@.battery_log_interval_secs
                    },
                    ..old(st)@
                })
            }),
{
    let (i8, a8) = cfg_take_send_repair_port(s, i, any, st);
    let (i9, a9) = cfg_take_send_mute(s, i8, a8, st);
    let (i10, a10) = cfg_take_recv_mute(s, i9, a9, st);
    let (i11, a11) = cfg_take_send_audio(s, i10, a10, st);
    let (i12, a12) = cfg_take_recv_audio(s, i11, a11, st);
    let (i13, a13) = cfg_take_battery_log_interval_secs(s, i12, a12, st);
    proof {
        assert forall|stv: crate::state::ClientStateV|
            #![trigger cfg_tail(stv, 8, any)]
            (crate::confsync::state_text_ok(stv) && i + cfg_tail(stv, 8, any).len() == s@.len()
                && s@.subrange(i as int, s@.len() as int) == cfg_tail(stv, 8, any)) implies ({
                &&& i13 + cfg_tail(stv, 14int, a13).len() == s@.len()
                &&& s@.subrange(i13 as int, s@.len() as int) == cfg_tail(stv, 14int, a13)
                &&& st@ == (crate::state::ClientStateV {
                    send_repair_port: if stv.send_repair_port is Some {
                        stv.send_repair_port
                    } else {
                        old(st)@.send_repair_port
                    },
                    send_mute: if stv.send_mute is Some {
                        stv.send_mute
                    } else {
                        old(st)@.send_mute
                    },
                    recv_mute: if stv.recv_mute is Some {
                        stv.recv_mute
                    } else {
                        old(st)@.recv_mute
                    },
                    send_audio: if stv.send_audio is Some {
                        stv.send_audio
                    } else {
                        old(st)@.send_audio
                    },
                    recv_audio: if stv.recv_audio is Some {
                        stv.recv_audio
                    } else {
                        old(st)@.recv_audio
                    },
                    battery_log_interval_secs: if stv.battery_log_interval_secs is Some {
                        stv.battery_log_interval_secs
                    } else {
                        old(st)@.battery_log_interval_secs
                    },
                    ..old(st)@
                })
            }) by {
            assert(cfg_tail(stv, 8, any) == crate::config_doc::cfg_field_seg(
                stv,
                false,
                8,
                any,
            ) + cfg_tail(stv, 9int, a8));
            lemma_subrange_concat_at(
                s@,
                i as int,
                crate::config_doc::cfg_field_seg(stv, false, 8, any),
                cfg_tail(stv, 9int, a8),
            );
            assert(cfg_tail(stv, 9, a8) == crate::config_doc::cfg_field_seg(
                stv,
                false,
                9,
                a8,
            ) + cfg_tail(stv, 10int, a9));
            lemma_subrange_concat_at(
                s@,
                i8 as int,
                crate::config_doc::cfg_field_seg(stv, false, 9, a8),
                cfg_tail(stv, 10int, a9),
            );
            assert(cfg_tail(stv, 10, a9) == crate::config_doc::cfg_field_seg(
                stv,
                false,
                10,
                a9,
            ) + cfg_tail(stv, 11int, a10));
            lemma_subrange_concat_at(
                s@,
                i9 as int,
                crate::config_doc::cfg_field_seg(stv, false, 10, a9),
                cfg_tail(stv, 11int, a10),
            );
            assert(cfg_tail(stv, 11, a10) == crate::config_doc::cfg_field_seg(
                stv,
                false,
                11,
                a10,
            ) + cfg_tail(stv, 12int, a11));
            lemma_subrange_concat_at(
                s@,
                i10 as int,
                crate::config_doc::cfg_field_seg(stv, false, 11, a10),
                cfg_tail(stv, 12int, a11),
            );
            assert(cfg_tail(stv, 12, a11) == crate::config_doc::cfg_field_seg(
                stv,
                false,
                12,
                a11,
            ) + cfg_tail(stv, 13int, a12));
            lemma_subrange_concat_at(
                s@,
                i11 as int,
                crate::config_doc::cfg_field_seg(stv, false, 12, a11),
                cfg_tail(stv, 13int, a12),
            );
            assert(cfg_tail(stv, 13, a12) == crate::config_doc::cfg_field_seg(
                stv,
                false,
                13,
                a12,
            ) + cfg_tail(stv, 14int, a13));
            lemma_subrange_concat_at(
                s@,
                i12 as int,
                crate::config_doc::cfg_field_seg(stv, false, 13, a12),
                cfg_tail(stv, 14int, a13),
            );
            assert(st@ =~= (crate::state::ClientStateV {
                    send_repair_port: if stv.send_repair_port is Some {
                        stv.send_repair_port
                    } else {
                        old(st)@.send_repair_port
                    },
                    send_mute: if stv.send_mute is Some {
                        stv.send_mute
                    } else {
                        old(st)@.send_mute
                    },
                    recv_mute: if stv.recv_mute is Some {
                        stv.recv_mute
                    } else {
                        old(st)@.recv_mute
                    },
                    send_audio: if stv.send_audio is Some {
                        stv.send_audio
                    } else {
                        old(st)@.send_audio
                    },
                    recv_audio: if stv.recv_audio is Some {
                        stv.recv_audio
                    } else {
                        old(st)@.recv_audio
                    },
                    battery_log_interval_secs: if stv.battery_log_interval_secs is Some {
                        stv.battery_log_interval_secs
                    } else {
                        old(st)@.battery_log_interval_secs
                    },
                ..old(st)@
            }));
        }
    }
    (i13, a13)
}

/// Scans a candidate configuration record from compact text: the
/// opening brace, then each field of the record in declaration order.
/// The final canonical check happens in `decode_config`.
#[verifier::rlimit(100)]
#[verifier::spinoff_prover]
fn extract_config(s: &str) -> (r: Option<ClientState>)
    ensures
        forall|stv: crate::state::ClientStateV|
            #![trigger crate::config_doc::config_doc(stv, false)]
            (crate::confsync::state_text_ok(stv) && s@ == crate::config_doc::config_doc(
                stv,
                false,
            )) ==> (r matches Some(c) && c@ == stv),
{
    let _n = s.unicode_len();
    proof {
        proof_strlits();
    }
    let brace = eat_lit(s, 0, "{");
    let i0 = match brace {
        Some(j) => j,
        None => {
            proof {
                assert forall|stv: crate::state::ClientStateV|
                    #![trigger crate::config_doc::config_doc(stv, false)]
                    (crate::confsync::state_text_ok(stv) && s@ == crate::config_doc::config_doc(
                        stv,
                        false,
                    )) implies false by {
                    lemma_config_doc_is_tail(stv);
                    assert(s@.subrange(0, 1) =~= "{"@);
                }
            }
            return None;
        }
    };
    let mut st = ClientState::empty();
    let (i7, a7) = cfg_take_front(s, i0, false, &mut st);
    let (_i13, _a13) = cfg_take_back(s, i7, a7, &mut st);
    proof {
        assert forall|stv: crate::state::ClientStateV|
            #![trigger crate::config_doc::config_doc(stv, false)]
            (crate::confsync::state_text_ok(stv) && s@ == crate::config_doc::config_doc(
                stv,
                false,
            )) implies st@ == stv by {
            lemma_config_doc_is_tail(stv);
            assert(i0 == 1 && s@.subrange(1, s@.len() as int) =~= cfg_tail(stv, 1, false)
                && 1 + cfg_tail(stv, 1, false).len() == s@.len());
            assert(st@ =~= stv);
        }
    }
    Some(st)
}

/// Decodes a configuration file, both ways exact up to whitespace: an
/// accepted input is, once its whitespace outside strings is dropped,
/// precisely the compact rendering of the returned record, and every
/// document whose stripped form renders a record of grammar-clean
/// strings is accepted. Anything else is dropped by the caller.
pub fn decode_config(s: &str) -> (r: Option<ClientState>)
    ensures
        r matches Some(st) ==> strip_ws_spec(s@, false) == crate::config_doc::config_doc(
            st@,
            false,
        ),
        forall|stv: crate::state::ClientStateV|
            #![trigger crate::config_doc::config_doc(stv, false)]
            (crate::confsync::state_text_ok(stv) && strip_ws_spec(s@, false)
                == crate::config_doc::config_doc(stv, false)) ==> r is Some,
{
    let stripped = strip_ws(s);
    let candidate = match extract_config(stripped.as_str()) {
        Some(st) => st,
        None => {
            return None;
        }
    };
    let rendered = crate::config_doc::encode_config(&candidate, false);
    if rendered == stripped {
        Some(candidate)
    } else {
        None
    }
}


/// The strip machine's quote state after reading `a`.
pub open spec fn ws_state(a: Seq<char>, in_str: bool) -> bool
    decreases a.len(),
{
    if a.len() == 0 {
        in_str
    } else {
        let c = a[0];
        let nxt = if in_str {
            c != '"'
        } else if is_ws(c) {
            false
        } else {
            c == '"'
        };
        ws_state(a.drop_first(), nxt)
    }
}

/// Stripping distributes over concatenation, threading the quote state.
pub proof fn lemma_strip_append(a: Seq<char>, b: Seq<char>, in_str: bool)
    ensures
        strip_ws_spec(a + b, in_str) == strip_ws_spec(a, in_str) + strip_ws_spec(
            b,
            ws_state(a, in_str),
        ),
        ws_state(a + b, in_str) == ws_state(b, ws_state(a, in_str)),
    decreases a.len(),
{
    if a.len() == 0 {
        assert(a + b =~= b);
        assert(strip_ws_spec(a, in_str) =~= Seq::<char>::empty());
        assert(strip_ws_spec(a, in_str) + strip_ws_spec(b, ws_state(a, in_str))
            =~= strip_ws_spec(b, in_str));
    } else {
        let c = a[0];
        assert((a + b)[0] == c);
        assert((a + b).drop_first() =~= a.drop_first() + b);
        lemma_strip_append(
            a.drop_first(),
            b,
            if in_str {
                c != '"'
            } else if is_ws(c) {
                false
            } else {
                c == '"'
            },
        );
        assert(strip_ws_spec(a + b, in_str) =~= strip_ws_spec(a, in_str) + strip_ws_spec(
            b,
            ws_state(a, in_str),
        ));
    }
}

/// Text without whitespace or quotes strips to itself, outside a string.
proof fn lemma_strip_plain(a: Seq<char>)
    requires
        forall|q: int| 0 <= q < a.len() ==> !is_ws(#[trigger] a[q]) && a[q] != '"',
    ensures
        strip_ws_spec(a, false) == a,
        ws_state(a, false) == false,
    decreases a.len(),
{
    if a.len() > 0 {
        lemma_strip_plain(a.drop_first());
        assert(strip_ws_spec(a, false) =~= a);
    }
}

/// A run of whitespace outside a string strips away entirely.
proof fn lemma_strip_ws_run(a: Seq<char>)
    requires
        forall|q: int| 0 <= q < a.len() ==> is_ws(#[trigger] a[q]),
    ensures
        strip_ws_spec(a, false) == Seq::<char>::empty(),
        ws_state(a, false) == false,
    decreases a.len(),
{
    if a.len() > 0 {
        lemma_strip_ws_run(a.drop_first());
        assert(strip_ws_spec(a, false) =~= Seq::<char>::empty());
    }
}

/// Inside a string, everything up to the closing quote strips to itself.
proof fn lemma_strip_in_string(a: Seq<char>)
    requires
        forall|q: int| 0 <= q < a.len() ==> #[trigger] a[q] != '"',
    ensures
        strip_ws_spec(a, true) == a,
        ws_state(a, true) == true,
    decreases a.len(),
{
    if a.len() > 0 {
        lemma_strip_in_string(a.drop_first());
        assert(strip_ws_spec(a, true) =~= a);
    }
}

/// A quoted string without inner quotes strips to itself and closes its
/// quote.
proof fn lemma_strip_quoted_plainval(v: Seq<char>)
    requires
        forall|q: int| 0 <= q < v.len() ==> #[trigger] v[q] != '"',
    ensures
        strip_ws_spec(seq!['"'] + v + seq!['"'], false) == seq!['"'] + v + seq!['"'],
        ws_state(seq!['"'] + v + seq!['"'], false) == false,
{
    reveal_with_fuel(strip_ws_spec, 3);
    reveal_with_fuel(ws_state, 3);
    let q: Seq<char> = seq!['"'];
    assert(q.drop_first() =~= Seq::<char>::empty());
    assert(q + v + q =~= q + (v + q));
    lemma_strip_append(q, v + q, false);
    assert(strip_ws_spec(q, false) =~= q);
    assert(ws_state(q, false) == true);
    lemma_strip_append(v, q, true);
    lemma_strip_in_string(v);
    assert(strip_ws_spec(q, true) =~= q);
    assert(ws_state(q, true) == false);
    assert(strip_ws_spec(q + v + q, false) =~= q + v + q);
    assert(ws_state(q + v + q, false) == false);
}

/// A decimal rendering is plain text.
proof fn lemma_strip_digits(d: Seq<char>)
    requires
        forall|q: int| 0 <= q < d.len() ==> is_digit(#[trigger] d[q]),
    ensures
        strip_ws_spec(d, false) == d,
        ws_state(d, false) == false,
{
    assert forall|q: int| 0 <= q < d.len() implies !is_ws(#[trigger] d[q]) && d[q] != '"' by {
        assert(is_digit(d[q]));
    }
    lemma_strip_plain(d);
}

/// A battery rendering is plain text.
proof fn lemma_strip_bat(m: nat)
    ensures
        strip_ws_spec(bat_chars(m), false) == bat_chars(m),
        ws_state(bat_chars(m), false) == false,
{
    lemma_dec_digits_value(m / 1000);
    assert forall|q: int|
        0 <= q < bat_chars(m).len() implies !is_ws(#[trigger] bat_chars(m)[q]) && bat_chars(
        m,
    )[q] != '"' by {
        let w = dec_digits(m / 1000);
        if q < w.len() {
            assert(bat_chars(m)[q] == w[q]);
            assert(is_digit(w[q]));
        }
    }
    lemma_strip_plain(bat_chars(m));
}

/// A boolean rendering is plain text.
proof fn lemma_strip_bool(b: bool)
    ensures
        strip_ws_spec(bool_chars(b), false) == bool_chars(b),
        ws_state(bool_chars(b), false) == false,
{
    reveal_strlit("true");
    reveal_strlit("false");
    lemma_strip_plain(bool_chars(b));
}

/// One pretty field — separator, quoted key, colon and space, value —
/// strips to its compact form.
proof fn lemma_strip_keyval(sepp: Seq<char>, sepc: Seq<char>, nm: Seq<char>, val: Seq<char>)
    requires
        strip_ws_spec(sepp, false) == sepc,
        ws_state(sepp, false) == false,
        forall|q: int| 0 <= q < nm.len() ==> !is_ws(#[trigger] nm[q]) && nm[q] != '"',
        strip_ws_spec(val, false) == val,
        ws_state(val, false) == false,
    ensures
        strip_ws_spec(
            sepp + (((seq!['"'] + nm + seq!['"']) + seq![':'] + seq![' ']) + val),
            false,
        ) == sepc + (((seq!['"'] + nm + seq!['"']) + seq![':']) + val),
        ws_state(
            sepp + (((seq!['"'] + nm + seq!['"']) + seq![':'] + seq![' ']) + val),
            false,
        ) == false,
{
    let qnm = seq!['"'] + nm + seq!['"'];
    lemma_strip_quoted_plainval(nm);
    lemma_strip_plain(seq![':']);
    lemma_strip_ws_run(seq![' ']);
    let restp = (qnm + seq![':'] + seq![' ']) + val;
    lemma_strip_append(sepp, restp, false);
    assert(restp =~= qnm + ((seq![':'] + seq![' ']) + val));
    lemma_strip_append(qnm, (seq![':'] + seq![' ']) + val, false);
    assert((seq![':'] + seq![' ']) + val =~= seq![':'] + (seq![' '] + val));
    lemma_strip_append(seq![':'], seq![' '] + val, false);
    lemma_strip_append(seq![' '], val, false);
    assert(strip_ws_spec(sepp + restp, false) =~= sepc + (((seq!['"'] + nm + seq!['"'])
        + seq![':']) + val));
    assert(ws_state(sepp + restp, false) == false);
}

/// One pretty field strips to its compact form.
#[verifier::rlimit(100)]
#[verifier::spinoff_prover]
proof fn lemma_strip_seg(stv: crate::state::ClientStateV, k: int, anyp: bool)
    requires
        crate::confsync::state_text_ok(stv),
        1 <= k <= 13,
    ensures
        strip_ws_spec(crate::config_doc::cfg_field_seg(stv, true, k, anyp), false)
            == crate::config_doc::cfg_field_seg(stv, false, k, anyp),
        ws_state(crate::config_doc::cfg_field_seg(stv, true, k, anyp), false) == false,
{
    proof_strlits();
    reveal_strlit(",\n  ");
    reveal_strlit("\n  ");
    let segp = crate::config_doc::cfg_field_seg(stv, true, k, anyp);
    let segc = crate::config_doc::cfg_field_seg(stv, false, k, anyp);
    let sepp: Seq<char> = if anyp {
        ",\n  "@
    } else {
        "\n  "@
    };
    let sepc: Seq<char> = if anyp {
        ","@
    } else {
        ""@
    };
    assert(strip_ws_spec(sepp, false) == sepc && ws_state(sepp, false) == false) by {
        if anyp {
            assert(",\n  "@ =~= seq![','] + seq!['\n', ' ', ' ']);
            lemma_strip_append(seq![','], seq!['\n', ' ', ' '], false);
            lemma_strip_plain(seq![',']);
            lemma_strip_ws_run(seq!['\n', ' ', ' ']);
            assert(strip_ws_spec(sepp, false) =~= sepc);
            assert(ws_state(sepp, false) == false);
        } else {
            lemma_strip_ws_run("\n  "@);
            assert(strip_ws_spec(sepp, false) =~= sepc);
        }
    }

        if k == 1 {
            if crate::config_doc::cfg_present(stv, 1) {
                reveal_strlit("\"client_name\":");
                reveal_strlit("\"client_name\": ");
                let nm = seq!['c', 'l', 'i', 'e', 'n', 't', '_', 'n', 'a', 'm', 'e'];
                let v = stv.client_name->Some_0;
                let val = (crate::json::qstr(v));
                    crate::json::lemma_esc_id(v);
                    assert(val =~= seq!['"'] + v + seq!['"']);
                    assert(forall|q: int| 0 <= q < v.len() ==> #[trigger] v[q] != '"');
                    lemma_strip_quoted_plainval(v);
                assert("\"client_name\": "@ =~= (seq!['"'] + nm + seq!['"']) + seq![':'] + seq![' ']);
                assert("\"client_name\":"@ =~= (seq!['"'] + nm + seq!['"']) + seq![':']);
                lemma_strip_keyval(sepp, sepc, nm, val);
                assert(segp =~= sepp + (((seq!['"'] + nm + seq!['"']) + seq![':'] + seq![' '])
                    + val));
                assert(segc =~= sepc + (((seq!['"'] + nm + seq!['"']) + seq![':']) + val));
            } else {
                assert(segp =~= Seq::<char>::empty());
                assert(segc =~= Seq::<char>::empty());
                assert(strip_ws_spec(segp, false) =~= Seq::<char>::empty());
            }
        }
        if k == 2 {
            if crate::config_doc::cfg_present(stv, 2) {
                reveal_strlit("\"battery_level\":");
                reveal_strlit("\"battery_level\": ");
                let nm = seq!['b', 'a', 't', 't', 'e', 'r', 'y', '_', 'l', 'e', 'v', 'e', 'l'];
                let v = stv.battery_level->Some_0;
                let val = (bat_chars(v as nat));
                    lemma_strip_bat(v as nat);
                assert("\"battery_level\": "@ =~= (seq!['"'] + nm + seq!['"']) + seq![':'] + seq![' ']);
                assert("\"battery_level\":"@ =~= (seq!['"'] + nm + seq!['"']) + seq![':']);
                lemma_strip_keyval(sepp, sepc, nm, val);
                assert(segp =~= sepp + (((seq!['"'] + nm + seq!['"']) + seq![':'] + seq![' '])
                    + val));
                assert(segc =~= sepc + (((seq!['"'] + nm + seq!['"']) + seq![':']) + val));
            } else {
                assert(segp =~= Seq::<char>::empty());
                assert(segc =~= Seq::<char>::empty());
                assert(strip_ws_spec(segp, false) =~= Seq::<char>::empty());
            }
        }
        if k == 3 {
            if crate::config_doc::cfg_present(stv, 3) {
                reveal_strlit("\"is_charging\":");
                reveal_strlit("\"is_charging\": ");
                let nm = seq!['i', 's', '_', 'c', 'h', 'a', 'r', 'g', 'i', 'n', 'g'];
                let v = stv.is_charging->Some_0;
                let val = (bool_chars(v));
                    lemma_strip_bool(v);
                assert("\"is_charging\": "@ =~= (seq!['"'] + nm + seq!['"']) + seq![':'] + seq![' ']);
                assert("\"is_charging\":"@ =~= (seq!['"'] + nm + seq!['"']) + seq![':']);
                lemma_strip_keyval(sepp, sepc, nm, val);
                assert(segp =~= sepp + (((seq!['"'] + nm + seq!['"']) + seq![':'] + seq![' '])
                    + val));
                assert(segc =~= sepc + (((seq!['"'] + nm + seq!['"']) + seq![':']) + val));
            } else {
                assert(segp =~= Seq::<char>::empty());
                assert(segc =~= Seq::<char>::empty());
                assert(strip_ws_spec(segp, false) =~= Seq::<char>::empty());
            }
        }
        if k == 4 {
            if crate::config_doc::cfg_present(stv, 4) {
                reveal_strlit("\"display_name\":");
                reveal_strlit("\"display_name\": ");
                let nm = seq!['d', 'i', 's', 'p', 'l', 'a', 'y', '_', 'n', 'a', 'm', 'e'];
                let v = stv.display_name->Some_0;
                let val = (crate::json::qstr(v));
                    crate::json::lemma_esc_id(v);
                    assert(val =~= seq!['"'] + v + seq!['"']);
                    assert(forall|q: int| 0 <= q < v.len() ==> #[trigger] v[q] != '"');
                    lemma_strip_quoted_plainval(v);
                assert("\"display_name\": "@ =~= (seq!['"'] + nm + seq!['"']) + seq![':'] + seq![' ']);
                assert("\"display_name\":"@ =~= (seq!['"'] + nm + seq!['"']) + seq![':']);
                lemma_strip_keyval(sepp, sepc, nm, val);
                assert(segp =~= sepp + (((seq!['"'] + nm + seq!['"']) + seq![':'] + seq![' '])
                    + val));
                assert(segc =~= sepc + (((seq!['"'] + nm + seq!['"']) + seq![':']) + val));
            } else {
                assert(segp =~= Seq::<char>::empty());
                assert(segc =~= Seq::<char>::empty());
                assert(strip_ws_spec(segp, false) =~= Seq::<char>::empty());
            }
        }
        if k == 5 {
            if crate::config_doc::cfg_present(stv, 5) {
                reveal_strlit("\"recv_audio_port\":");
                reveal_strlit("\"recv_audio_port\": ");
                let nm = seq!['r', 'e', 'c', 'v', '_', 'a', 'u', 'd', 'i', 'o', '_', 'p', 'o', 'r', 't'];
                let v = stv.recv_audio_port->Some_0;
                let val = (dec_digits(v as nat));
                    lemma_dec_digits_value(v as nat);
                    lemma_strip_digits(val);
                assert("\"recv_audio_port\": "@ =~= (seq!['"'] + nm + seq!['"']) + seq![':'] + seq![' ']);
                assert("\"recv_audio_port\":"@ =~= (seq!['"'] + nm + seq!['"']) + seq![':']);
                lemma_strip_keyval(sepp, sepc, nm, val);
                assert(segp =~= sepp + (((seq!['"'] + nm + seq!['"']) + seq![':'] + seq![' '])
                    + val));
                assert(segc =~= sepc + (((seq!['"'] + nm + seq!['"']) + seq![':']) + val));
            } else {
                assert(segp =~= Seq::<char>::empty());
                assert(segc =~= Seq::<char>::empty());
                assert(strip_ws_spec(segp, false) =~= Seq::<char>::empty());
            }
        }
        if k == 6 {
            if crate::config_doc::cfg_present(stv, 6) {
                reveal_strlit("\"recv_repair_port\":");
                reveal_strlit("\"recv_repair_port\": ");
                let nm = seq!['r', 'e', 'c', 'v', '_', 'r', 'e', 'p', 'a', 'i', 'r', '_', 'p', 'o', 'r', 't'];
                let v = stv.recv_repair_port->Some_0;
                let val = (dec_digits(v as nat));
                    lemma_dec_digits_value(v as nat);
                    lemma_strip_digits(val);
                assert("\"recv_repair_port\": "@ =~= (seq!['"'] + nm + seq!['"']) + seq![':'] + seq![' ']);
                assert("\"recv_repair_port\":"@ =~= (seq!['"'] + nm + seq!['"']) + seq![':']);
                lemma_strip_keyval(sepp, sepc, nm, val);
                assert(segp =~= sepp + (((seq!['"'] + nm + seq!['"']) + seq![':'] + seq![' '])
                    + val));
                assert(segc =~= sepc + (((seq!['"'] + nm + seq!['"']) + seq![':']) + val));
            } else {
                assert(segp =~= Seq::<char>::empty());
                assert(segc =~= Seq::<char>::empty());
                assert(strip_ws_spec(segp, false) =~= Seq::<char>::empty());
            }
        }
        if k == 7 {
            if crate::config_doc::cfg_present(stv, 7) {
                reveal_strlit("\"send_audio_port\":");
                reveal_strlit("\"send_audio_port\": ");
                let nm = seq!['s', 'e', 'n', 'd', '_', 'a', 'u', 'd', 'i', 'o', '_', 'p', 'o', 'r', 't'];
                let v = stv.send_audio_port->Some_0;
                let val = (dec_digits(v as nat));
                    lemma_dec_digits_value(v as nat);
                    lemma_strip_digits(val);
                assert("\"send_audio_port\": "@ =~= (seq!['"'] + nm + seq!['"']) + seq![':'] + seq![' ']);
                assert("\"send_audio_port\":"@ =~= (seq!['"'] + nm + seq!['"']) + seq![':']);
                lemma_strip_keyval(sepp, sepc, nm, val);
                assert(segp =~= sepp + (((seq!['"'] + nm + seq!['"']) + seq![':'] + seq![' '])
                    + val));
                assert(segc =~= sepc + (((seq!['"'] + nm + seq!['"']) + seq![':']) + val));
            } else {
                assert(segp =~= Seq::<char>::empty());
                assert(segc =~= Seq::<char>::empty());
                assert(strip_ws_spec(segp, false) =~= Seq::<char>::empty());
            }
        }
        if k == 8 {
            if crate::config_doc::cfg_present(stv, 8) {
                reveal_strlit("\"send_repair_port\":");
                reveal_strlit("\"send_repair_port\": ");
                let nm = seq!['s', 'e', 'n', 'd', '_', 'r', 'e', 'p', 'a', 'i', 'r', '_', 'p', 'o', 'r', 't'];
                let v = stv.send_repair_port->Some_0;
                let val = (dec_digits(v as nat));
                    lemma_dec_digits_value(v as nat);
                    lemma_strip_digits(val);
                assert("\"send_repair_port\": "@ =~= (seq!['"'] + nm + seq!['"']) + seq![':'] + seq![' ']);
                assert("\"send_repair_port\":"@ =~= (seq!['"'] + nm + seq!['"']) + seq![':']);
                lemma_strip_keyval(sepp, sepc, nm, val);
                assert(segp =~= sepp + (((seq!['"'] + nm + seq!['"']) + seq![':'] + seq![' '])
                    + val));
                assert(segc =~= sepc + (((seq!['"'] + nm + seq!['"']) + seq![':']) + val));
            } else {
                assert(segp =~= Seq::<char>::empty());
                assert(segc =~= Seq::<char>::empty());
                assert(strip_ws_spec(segp, false) =~= Seq::<char>::empty());
            }
        }
        if k == 9 {
            if crate::config_doc::cfg_present(stv, 9) {
                reveal_strlit("\"send_mute\":");
                reveal_strlit("\"send_mute\": ");
                let nm = seq!['s', 'e', 'n', 'd', '_', 'm', 'u', 't', 'e'];
                let v = stv.send_mute->Some_0;
                let val = (bool_chars(v));
                    lemma_strip_bool(v);
                assert("\"send_mute\": "@ =~= (seq!['"'] + nm + seq!['"']) + seq![':'] + seq![' ']);
                assert("\"send_mute\":"@ =~= (seq!['"'] + nm + seq!['"']) + seq![':']);
                lemma_strip_keyval(sepp, sepc, nm, val);
                assert(segp =~= sepp + (((seq!['"'] + nm + seq!['"']) + seq![':'] + seq![' '])
                    + val));
                assert(segc =~= sepc + (((seq!['"'] + nm + seq!['"']) + seq![':']) + val));
            } else {
                assert(segp =~= Seq::<char>::empty());
                assert(segc =~= Seq::<char>::empty());
                assert(strip_ws_spec(segp, false) =~= Seq::<char>::empty());
            }
        }
        if k == 10 {
            if crate::config_doc::cfg_present(stv, 10) {
                reveal_strlit("\"recv_mute\":");
                reveal_strlit("\"recv_mute\": ");
                let nm = seq!['r', 'e', 'c', 'v', '_', 'm', 'u', 't', 'e'];
                let v = stv.recv_mute->Some_0;
                let val = (bool_chars(v));
                    lemma_strip_bool(v);
                assert("\"recv_mute\": "@ =~= (seq!['"'] + nm + seq!['"']) + seq![':'] + seq![' ']);
                assert("\"recv_mute\":"@ =~= (seq!['"'] + nm + seq!['"']) + seq![':']);
                lemma_strip_keyval(sepp, sepc, nm, val);
                assert(segp =~= sepp + (((seq!['"'] + nm + seq!['"']) + seq![':'] + seq![' '])
                    + val));
                assert(segc =~= sepc + (((seq!['"'] + nm + seq!['"']) + seq![':']) + val));
            } else {
                assert(segp =~= Seq::<char>::empty());
                assert(segc =~= Seq::<char>::empty());
                assert(strip_ws_spec(segp, false) =~= Seq::<char>::empty());
            }
        }
        if k == 11 {
            if crate::config_doc::cfg_present(stv, 11) {
                reveal_strlit("\"send_audio\":");
                reveal_strlit("\"send_audio\": ");
                let nm = seq!['s', 'e', 'n', 'd', '_', 'a', 'u', 'd', 'i', 'o'];
                let v = stv.send_audio->Some_0;
                let val = (bool_chars(v));
                    lemma_strip_bool(v);
                assert("\"send_audio\": "@ =~= (seq!['"'] + nm + seq!['"']) + seq![':'] + seq![' ']);
                assert("\"send_audio\":"@ =~= (seq!['"'] + nm + seq!['"']) + seq![':']);
                lemma_strip_keyval(sepp, sepc, nm, val);
                assert(segp =~= sepp + (((seq!['"'] + nm + seq!['"']) + seq![':'] + seq![' '])
                    + val));
                assert(segc =~= sepc + (((seq!['"'] + nm + seq!['"']) + seq![':']) + val));
            } else {
                assert(segp =~= Seq::<char>::empty());
                assert(segc =~= Seq::<char>::empty());
                assert(strip_ws_spec(segp, false) =~= Seq::<char>::empty());
            }
        }
        if k == 12 {
            if crate::config_doc::cfg_present(stv, 12) {
                reveal_strlit("\"recv_audio\":");
                reveal_strlit("\"recv_audio\": ");
                let nm = seq!['r', 'e', 'c', 'v', '_', 'a', 'u', 'd', 'i', 'o'];
                let v = stv.recv_audio->Some_0;
                let val = (bool_chars(v));
                    lemma_strip_bool(v);
                assert("\"recv_audio\": "@ =~= (seq!['"'] + nm + seq!['"']) + seq![':'] + seq![' ']);
                assert("\"recv_audio\":"@ =~= (seq!['"'] + nm + seq!['"']) + seq![':']);
                lemma_strip_keyval(sepp, sepc, nm, val);
                assert(segp =~= sepp + (((seq!['"'] + nm + seq!['"']) + seq![':'] + seq![' '])
                    + val));
                assert(segc =~= sepc + (((seq!['"'] + nm + seq!['"']) + seq![':']) + val));
            } else {
                assert(segp =~= Seq::<char>::empty());
                assert(segc =~= Seq::<char>::empty());
                assert(strip_ws_spec(segp, false) =~= Seq::<char>::empty());
            }
        }
        if k == 13 {
            if crate::config_doc::cfg_present(stv, 13) {
                reveal_strlit("\"battery_log_interval_secs\":");
                reveal_strlit("\"battery_log_interval_secs\": ");
                let nm = seq!['b', 'a', 't', 't', 'e', 'r', 'y', '_', 'l', 'o', 'g', '_', 'i', 'n', 't', 'e', 'r', 'v', 'a', 'l', '_', 's', 'e', 'c', 's'];
                let v = stv.battery_log_interval_secs->Some_0;
                let val = (dec_digits(v as nat));
                    lemma_dec_digits_value(v as nat);
                    lemma_strip_digits(val);
                assert("\"battery_log_interval_secs\": "@ =~= (seq!['"'] + nm + seq!['"']) + seq![':'] + seq![' ']);
                assert("\"battery_log_interval_secs\":"@ =~= (seq!['"'] + nm + seq!['"']) + seq![':']);
                lemma_strip_keyval(sepp, sepc, nm, val);
                assert(segp =~= sepp + (((seq!['"'] + nm + seq!['"']) + seq![':'] + seq![' '])
                    + val));
                assert(segc =~= sepc + (((seq!['"'] + nm + seq!['"']) + seq![':']) + val));
            } else {
                assert(segp =~= Seq::<char>::empty());
                assert(segc =~= Seq::<char>::empty());
                assert(strip_ws_spec(segp, false) =~= Seq::<char>::empty());
            }
        }
        }

/// The pretty body of a configuration document strips to the compact
/// body.
proof fn lemma_strip_upto(stv: crate::state::ClientStateV, k: int)
    requires
        crate::confsync::state_text_ok(stv),
        0 <= k <= 13,
    ensures
        strip_ws_spec(crate::config_doc::cfg_upto(stv, true, k), false)
            == crate::config_doc::cfg_upto(stv, false, k),
        ws_state(crate::config_doc::cfg_upto(stv, true, k), false) == false,
    decreases k,
{
    if k == 0 {
        assert(crate::config_doc::cfg_upto(stv, true, 0) =~= Seq::<char>::empty());
        assert(strip_ws_spec(crate::config_doc::cfg_upto(stv, true, 0), false)
            =~= Seq::<char>::empty());
        assert(ws_state(crate::config_doc::cfg_upto(stv, true, 0), false) == false);
    } else {
        lemma_strip_upto(stv, k - 1);
        let anyp = crate::config_doc::cfg_any_upto(stv, k - 1);
        let segp = crate::config_doc::cfg_field_seg(stv, true, k, anyp);
        lemma_strip_seg(stv, k, anyp);
        lemma_strip_append(crate::config_doc::cfg_upto(stv, true, k - 1), segp, false);
        assert(strip_ws_spec(crate::config_doc::cfg_upto(stv, true, k), false)
            =~= crate::config_doc::cfg_upto(stv, false, k));
        assert(ws_state(crate::config_doc::cfg_upto(stv, true, k), false) == false);
    }
}

/// The configuration files the engine writes parse back: the pretty
/// rendering of a record of grammar-clean strings strips to exactly its
/// compact rendering, so `decode_config` accepts every file the
/// persistence path produces.
pub proof fn lemma_pretty_strips_to_compact(stv: crate::state::ClientStateV)
    requires
        crate::confsync::state_text_ok(stv),
    ensures
        strip_ws_spec(crate::config_doc::config_doc(stv, true), false)
            == crate::config_doc::config_doc(stv, false),
{
    proof_strlits();
    reveal_strlit("{}");
    reveal_strlit("\n}");
    lemma_strip_upto(stv, 13);
    if crate::config_doc::cfg_any_upto(stv, 13) {
        let body = crate::config_doc::cfg_upto(stv, true, 13);
        lemma_strip_append("{"@, body + "\n}"@, false);
        lemma_strip_plain("{"@);
        lemma_strip_append(body, "\n}"@, false);
        assert("\n}"@ =~= seq!['\n'] + seq!['}']);
        lemma_strip_append(seq!['\n'], seq!['}'], false);
        lemma_strip_ws_run(seq!['\n']);
        lemma_strip_plain(seq!['}']);
        assert(crate::config_doc::config_doc(stv, true) =~= "{"@ + (body + "\n}"@));
        assert(strip_ws_spec(crate::config_doc::config_doc(stv, true), false)
            =~= crate::config_doc::config_doc(stv, false));
    } else {
        lemma_strip_plain("{}"@);
    }
}

} // verus!
