//! Parsing of canonical structured-data text.
//!
//! The reader below is a recursive-descent pass. Soundness comes from
//! the final step: a candidate value is accepted only if serializing
//! it again yields exactly the input characters, so any value this
//! module hands out provably re-serializes to the text it was parsed
//! from. On the canonical text of a childless value (null, a boolean,
//! an integer, a string) the reader is additionally proved complete:
//! it yields exactly that value.
use vstd::prelude::*;
use vstd::string::StrSliceExecFns;

use crate::json::{JsonData, JsonValue};
use crate::json_text::{chars_to_string, dec_digits, digit_char, esc_char, hex_char, int_text,
    jstr_body, jtext, lemma_jstr_body_snoc, to_json_chars};

verus! {

broadcast use vstd::std_specs::vec::group_vec_axioms, vstd::seq::group_seq_axioms;

/// Whether a character is a decimal digit.
pub open spec fn is_digit_char(c: char) -> bool {
    '0' <= c && c <= '9'
}

/// The number a sequence of decimal digit characters denotes.
pub open spec fn digits_val(cs: Seq<char>) -> int
    decreases cs.len(),
{
    if cs.len() == 0 {
        0
    } else {
        10 * digits_val(cs.drop_last()) + (cs.last() as int - 48)
    }
}

/// The character for a decimal digit denotes exactly that digit.
proof fn lemma_digit_char_val(d: int)
    requires
        0 <= d <= 9,
    ensures
        is_digit_char(digit_char(d)),
        digit_char(d) as int == 48 + d,
{
}

/// Shape of the decimal digits of a non-negative integer: at least one
/// digit, every character a digit, one digit exactly for values under
/// ten, and no leading zero for positive values.
proof fn lemma_dec_digits_shape(n: int)
    requires
        n >= 0,
    ensures
        dec_digits(n).len() >= 1,
        forall|k: int| 0 <= k < dec_digits(n).len() ==> is_digit_char(#[trigger] dec_digits(n)[k]),
        n < 10 <==> dec_digits(n).len() == 1,
        n >= 1 ==> dec_digits(n)[0] != '0',
    decreases n,
{
    if n < 10 {
        lemma_digit_char_val(n);
    } else {
        lemma_dec_digits_shape(n / 10);
        lemma_digit_char_val(n % 10);
        assert(dec_digits(n) == dec_digits(n / 10) + seq![digit_char(n % 10)]);
        assert(dec_digits(n)[0] == dec_digits(n / 10)[0]);
        assert(n / 10 >= 1);
    }
}

/// The digits of a non-negative integer denote exactly that integer.
proof fn lemma_digits_val_of_dec(n: int)
    requires
        n >= 0,
    ensures
        digits_val(dec_digits(n)) == n,
    decreases n,
{
    if n < 10 {
        lemma_digit_char_val(n);
        let ds = dec_digits(n);
        assert(ds == seq![digit_char(n)]);
        assert(ds.drop_last() =~= Seq::<char>::empty());
        assert(ds.last() == digit_char(n));
        assert(digits_val(ds.drop_last()) == 0);
        assert(digits_val(ds) == 10 * 0 + (digit_char(n) as int - 48));
    } else {
        lemma_digits_val_of_dec(n / 10);
        lemma_digit_char_val(n % 10);
        let ds = dec_digits(n);
        assert(ds == dec_digits(n / 10) + seq![digit_char(n % 10)]);
        assert(ds.drop_last() =~= dec_digits(n / 10));
        assert(ds.last() == digit_char(n % 10));
        assert(digits_val(ds) == 10 * (n / 10) + (n % 10));
        assert(n == 10 * (n / 10) + n % 10);
    }
}

/// Taking one more digit multiplies the denoted value by ten and adds
/// the digit.
proof fn lemma_digits_val_take_step(cs: Seq<char>, k: int)
    requires
        0 <= k < cs.len(),
    ensures
        digits_val(cs.take(k + 1)) == 10 * digits_val(cs.take(k)) + (cs[k] as int - 48),
{
    assert(cs.take(k + 1).drop_last() =~= cs.take(k));
    assert(cs.take(k + 1).last() == cs[k]);
}

/// The value denoted by digits is non-negative, and a prefix never
/// denotes more than the whole.
proof fn lemma_digits_val_take_le(cs: Seq<char>, k: int)
    requires
        0 <= k <= cs.len(),
        forall|j: int| 0 <= j < cs.len() ==> is_digit_char(#[trigger] cs[j]),
    ensures
        0 <= digits_val(cs.take(k)),
        digits_val(cs.take(k)) <= digits_val(cs),
    decreases cs.len() - k,
{
    if k == cs.len() {
        assert(cs.take(k) =~= cs);
        lemma_digits_val_nonneg(cs);
    } else {
        lemma_digits_val_take_step(cs, k);
        lemma_digits_val_take_le(cs, k + 1);
        lemma_digits_val_nonneg(cs.take(k));
    }
}

/// Digits denote a non-negative value.
proof fn lemma_digits_val_nonneg(cs: Seq<char>)
    requires
        forall|j: int| 0 <= j < cs.len() ==> is_digit_char(#[trigger] cs[j]),
    ensures
        digits_val(cs) >= 0,
    decreases cs.len(),
{
    if cs.len() > 0 {
        assert(forall|j: int|
            0 <= j < cs.drop_last().len() ==> is_digit_char(#[trigger] cs.drop_last()[j]));
        lemma_digits_val_nonneg(cs.drop_last());
    }
}

/// The value of a decimal digit character, if it is one.
fn digit_val(c: char) -> (r: Option<u64>)
    ensures
        r is Some <==> is_digit_char(c),
        r matches Some(d) ==> d < 10 && d as int == c as int - 48,
{
    if c >= '0' && c <= '9' {
        Some(((c as u32) - ('0' as u32)) as u64)
    } else {
        None
    }
}

/// Splits the canonical text of an integer into its sign and digits:
/// the digit run after an optional leading minus sign is exactly the
/// decimal form of the magnitude and denotes it.
proof fn lemma_int_text_facts(s: Seq<char>, n: int)
    requires
        s == int_text(n),
    ensures
        s.len() >= 1,
        ({
            let dstart: int = if n < 0 {
                1int
            } else {
                0int
            };
            let m: int = if n < 0 {
                -n
            } else {
                n
            };
            &&& (n < 0 ==> s[0] == '-' && s.len() >= 2)
            &&& (n >= 0 ==> is_digit_char(s[0]))
            &&& dstart < s.len()
            &&& s.subrange(dstart, s.len() as int) == dec_digits(m)
            &&& (forall|t: int| dstart <= t < s.len() ==> is_digit_char(#[trigger] s[t]))
            &&& digits_val(s.subrange(dstart, s.len() as int)) == m
            &&& (s.len() - dstart == 1 <==> m < 10)
            &&& (m >= 1 ==> s[dstart] != '0')
        }),
{
    let dstart: int = if n < 0 {
        1int
    } else {
        0int
    };
    let m: int = if n < 0 {
        -n
    } else {
        n
    };
    lemma_dec_digits_shape(m);
    lemma_digits_val_of_dec(m);
    if n < 0 {
        assert(s == seq!['-'] + dec_digits(m));
        assert(s[0] == '-');
        assert(s.subrange(1, s.len() as int) =~= dec_digits(m));
    } else {
        assert(s.subrange(0, s.len() as int) =~= s);
    }
}

/// Reads an integer token that starts at `i`. When the whole input is
/// the canonical text of a 64-bit integer, the read is also complete:
/// it consumes everything and yields exactly that integer.
#[verifier::loop_isolation(false)]
fn parse_int(s: &Vec<char>, i: usize) -> (r: Option<(i64, usize)>)
    ensures
        r matches Some(p) ==> i < p.1 <= s@.len(),
        forall|n: i64|
            (i == 0 && s@ == int_text(n as int)) ==> r == Some((n, s@.len() as usize)),
{
    if i >= s.len() {
        proof {
            assert forall|n: i64| !(i == 0 && s@ == int_text(n as int)) by {
                if i == 0 && s@ == int_text(n as int) {
                    lemma_int_text_facts(s@, n as int);
                }
            }
        }
        return None;
    }
    let neg = s[i] == '-';
    let ghost dstart: int = if neg {
        i + 1
    } else {
        i as int
    };
    let mut j: usize = if neg {
        i + 1
    } else {
        i
    };
    if j >= s.len() {
        proof {
            assert forall|n: i64| !(i == 0 && s@ == int_text(n as int)) by {
                if i == 0 && s@ == int_text(n as int) {
                    lemma_int_text_facts(s@, n as int);
                }
            }
        }
        return None;
    }
    let first = s[j];
    let mut acc: u64 = match digit_val(first) {
        Some(d) => d,
        None => {
            proof {
                assert forall|n: i64| !(i == 0 && s@ == int_text(n as int)) by {
                    if i == 0 && s@ == int_text(n as int) {
                        lemma_int_text_facts(s@, n as int);
                    }
                }
            }
            return None;
        },
    };
    proof {
        assert(s@.subrange(dstart, dstart + 1).drop_last() =~= Seq::<char>::empty());
        assert(s@.subrange(dstart, dstart + 1).last() == s@[dstart]);
        assert(digits_val(Seq::<char>::empty()) == 0);
        assert(digits_val(s@.subrange(dstart, dstart + 1)) == 10 * 0 + (s@[dstart] as int - 48));
    }
    j = j + 1;
    let mut ndigits: usize = 1;
    let mut done = false;
    while !done && j < s.len()
        invariant
            i < j <= s@.len(),
            dstart + ndigits == j,
            ndigits >= 1,
            first == s@[dstart],
            forall|t: int| dstart <= t < j ==> is_digit_char(#[trigger] s@[t]),
            acc == digits_val(s@.subrange(dstart, j as int)),
            acc <= 9223372036854775808u64,
            done ==> j < s@.len() && !is_digit_char(s@[j as int]),
        decreases s@.len() - j + (if done {
            0int
        } else {
            1int
        }),
    {
        match digit_val(s[j]) {
            Some(d) => {
                proof {
                    assert(s@.subrange(dstart, j + 1).drop_last() =~= s@.subrange(
                        dstart,
                        j as int,
                    ));
                    assert(s@.subrange(dstart, j + 1).last() == s@[j as int]);
                }
                if acc > 922337203685477580u64 || (acc == 922337203685477580u64 && d > 8) {
                    // the run denotes more than any 64-bit integer
                    proof {
                        assert forall|n: i64| !(i == 0 && s@ == int_text(n as int)) by {
                            if i == 0 && s@ == int_text(n as int) {
                                lemma_int_text_facts(s@, n as int);
                                let m: int = if n < 0 {
                                    -(n as int)
                                } else {
                                    n as int
                                };
                                let full = s@.subrange(dstart, s@.len() as int);
                                assert(s@.subrange(dstart, j as int) =~= full.take(
                                    j - dstart,
                                ));
                                assert(s@.subrange(dstart, j + 1) =~= full.take(j - dstart + 1));
                                lemma_digits_val_take_le(full, j - dstart + 1);
                                assert(digits_val(full.take(j - dstart + 1)) == 10 * acc + (
                                s@[j as int] as int - 48));
                                assert(10 * acc + d > 9223372036854775808);
                            }
                        }
                    }
                    return None;
                }
                acc = acc * 10 + d;
                j = j + 1;
                ndigits = ndigits + 1;
            },
            None => {
                done = true;
            },
        }
    }
    if first == '0' && ndigits > 1 {
        // the canonical text has no leading zeros
        proof {
            assert forall|n: i64| !(i == 0 && s@ == int_text(n as int)) by {
                if i == 0 && s@ == int_text(n as int) {
                    lemma_int_text_facts(s@, n as int);
                }
            }
        }
        return None;
    }
    proof {
        assert forall|n: i64| (i == 0 && s@ == int_text(n as int)) implies (j == s@.len() && acc
            == (if (n as int) < 0 {
            -(n as int)
        } else {
            n as int
        })) by {
            lemma_int_text_facts(s@, n as int);
            assert(j == s@.len());
            assert(s@.subrange(dstart, j as int) == s@.subrange(dstart, s@.len() as int));
        }
    }
    if neg {
        if acc > 9223372036854775808u64 {
            proof {
                assert forall|n: i64| !(i == 0 && s@ == int_text(n as int)) by {
                    if i == 0 && s@ == int_text(n as int) {
                        lemma_int_text_facts(s@, n as int);
                    }
                }
            }
            return None;
        }
        if acc == 9223372036854775808u64 {
            proof {
                assert forall|n: i64| (i == 0 && s@ == int_text(n as int)) implies i64::MIN == n
                    by {
                    lemma_int_text_facts(s@, n as int);
                }
            }
            return Some((i64::MIN, j));
        }
        proof {
            assert forall|n: i64| (i == 0 && s@ == int_text(n as int)) implies -(acc as i64) == n
                by {
                lemma_int_text_facts(s@, n as int);
            }
        }
        return Some((-(acc as i64), j));
    }
    if acc > 9223372036854775807u64 {
        proof {
            assert forall|n: i64| !(i == 0 && s@ == int_text(n as int)) by {
                if i == 0 && s@ == int_text(n as int) {
                    lemma_int_text_facts(s@, n as int);
                }
            }
        }
        return None;
    }
    proof {
        assert forall|n: i64| (i == 0 && s@ == int_text(n as int)) implies acc as i64 == n by {
            lemma_int_text_facts(s@, n as int);
        }
    }
    Some((acc as i64, j))
}

/// One string body splits, at any boundary between source characters,
/// into the escaped forms of the two parts.
proof fn lemma_jstr_body_concat(a: Seq<char>, b: Seq<char>)
    ensures
        jstr_body(a + b) == jstr_body(a) + jstr_body(b),
    decreases a.len(),
{
    if a.len() == 0 {
        assert(a + b =~= b);
        assert(jstr_body(a) =~= Seq::<char>::empty());
        assert(jstr_body(a + b) =~= jstr_body(a) + jstr_body(b));
    } else {
        assert((a + b)[0] == a[0]);
        assert((a + b).drop_first() =~= a.drop_first() + b);
        lemma_jstr_body_concat(a.drop_first(), b);
        assert(jstr_body(a + b) =~= jstr_body(a) + jstr_body(b));
    }
}

/// Where the text of a string stands relative to a boundary in its
/// source characters: what has been read so far fixes the position,
/// and the next source character fixes the characters that follow.
proof fn lemma_string_progress(s: Seq<char>, cs: Seq<char>, k: int)
    requires
        s == seq!['"'] + jstr_body(cs) + seq!['"'],
        0 <= k <= cs.len(),
    ensures
        ({
            let j: int = 1 + jstr_body(cs.take(k)).len() as int;
            &&& jstr_body(cs.take(k)).len() <= jstr_body(cs).len()
            &&& s.len() == 2 + jstr_body(cs).len()
            &&& (k == cs.len() ==> jstr_body(cs.take(k)) == jstr_body(cs) && s[j] == '"')
            &&& (k < cs.len() ==> {
                let esc = esc_char(cs[k]);
                &&& 1 <= esc.len() <= 6
                &&& j + esc.len() <= s.len() - 1
                &&& (forall|t: int| 0 <= t < esc.len() ==> s[j + t] == esc[t])
                &&& jstr_body(cs.take(k + 1)) == jstr_body(cs.take(k)) + esc
                &&& jstr_body(cs.take(k + 1)).len() <= jstr_body(cs).len()
            })
        }),
{
    let j: int = 1 + jstr_body(cs.take(k)).len() as int;
    assert(cs.take(k) + cs.skip(k) =~= cs);
    lemma_jstr_body_concat(cs.take(k), cs.skip(k));
    if k == cs.len() {
        assert(cs.skip(k) =~= Seq::<char>::empty());
        assert(jstr_body(cs.skip(k)) =~= Seq::<char>::empty());
        assert(jstr_body(cs.take(k)) =~= jstr_body(cs));
        assert(s[j] == '"');
    } else {
        let esc = esc_char(cs[k]);
        assert(cs.skip(k)[0] == cs[k]);
        assert(cs.skip(k).drop_first() =~= cs.skip(k + 1));
        assert(jstr_body(cs.skip(k)) == esc + jstr_body(cs.skip(k + 1)));
        assert(cs.take(k + 1) =~= cs.take(k).push(cs[k]));
        lemma_jstr_body_snoc(cs.take(k), cs[k]);
        assert(jstr_body(cs) == jstr_body(cs.take(k)) + esc + jstr_body(cs.skip(k + 1)));
        assert forall|t: int| 0 <= t < esc.len() implies s[j + t] == esc[t] by {
            assert(jstr_body(cs)[j - 1 + t] == esc[t]);
            assert(s[j + t] == jstr_body(cs)[j + t - 1]);
        }
    }
}

/// What follows a backslash in the text of a string: the escape for
/// the next source character, whose second character names its kind.
proof fn lemma_escape_category(s: Seq<char>, cs: Seq<char>, k: int, j: int)
    requires
        s == seq!['"'] + jstr_body(cs) + seq!['"'],
        0 <= k <= cs.len(),
        j == 1 + jstr_body(cs.take(k)).len() as int,
        s[j] == '\\',
    ensures
        k < cs.len(),
        esc_char(cs[k])[0] == '\\',
        2 <= esc_char(cs[k]).len() <= 6,
        j + esc_char(cs[k]).len() <= s.len() - 1,
        jstr_body(cs.take(k + 1)) == jstr_body(cs.take(k)) + esc_char(cs[k]),
        jstr_body(cs.take(k + 1)).len() <= jstr_body(cs).len(),
        s[j + 1] == esc_char(cs[k])[1],
        esc_char(cs[k])[1] == '"' || esc_char(cs[k])[1] == '\\' || esc_char(cs[k])[1] == 'b'
            || esc_char(cs[k])[1] == 't' || esc_char(cs[k])[1] == 'n' || esc_char(cs[k])[1] == 'f'
            || esc_char(cs[k])[1] == 'r' || esc_char(cs[k])[1] == 'u',
        esc_char(cs[k])[1] != 'u' ==> esc_char(cs[k]).len() == 2,
        esc_char(cs[k])[1] == 'u' ==> ({
            let u: int = (cs[k] as u32) as int;
            &&& 0 <= u < 32
            &&& esc_char(cs[k]) == seq!['\\', 'u', '0', '0', hex_char(u / 16), hex_char(u % 16)]
            &&& s[j + 2] == '0'
            &&& s[j + 3] == '0'
            &&& s[j + 4] == hex_char(u / 16)
            &&& s[j + 5] == hex_char(u % 16)
        }),
{
    lemma_string_progress(s, cs, k);
    if k == cs.len() {
        assert(s[j] == '"');
    }
    assert(s[j] == esc_char(cs[k])[0]);
    let c0 = cs[k];
    if c0 == '"' {
    } else if c0 == '\\' {
    } else if c0 == '\u{8}' || c0 == '\t' || c0 == '\n' || c0 == '\u{c}' || c0 == '\r' {
    } else if (c0 as u32) < 32 {
        let u: int = (c0 as u32) as int;
        assert(esc_char(c0) == seq!['\\', 'u', '0', '0', hex_char(u / 16), hex_char(u % 16)]);
        assert(s[j + 2] == esc_char(c0)[2]);
        assert(s[j + 3] == esc_char(c0)[3]);
        assert(s[j + 4] == esc_char(c0)[4]);
        assert(s[j + 5] == esc_char(c0)[5]);
    } else {
        assert(esc_char(c0)[0] == c0);
        assert(false);
    }
}

/// The value of a hexadecimal digit character, if it is one.
fn hex_val(c: char) -> (r: Option<u32>)
    ensures
        r matches Some(h) ==> h < 16,
        forall|d: int| (0 <= d < 16 && c == hex_char(d)) ==> r == Some(d as u32),
{
    if c >= '0' && c <= '9' {
        Some((c as u32) - ('0' as u32))
    } else if c >= 'a' && c <= 'f' {
        Some((c as u32) - ('a' as u32) + 10)
    } else if c >= 'A' && c <= 'F' {
        Some((c as u32) - ('A' as u32) + 10)
    } else {
        None
    }
}

/// Reads a string token whose opening quote stands at `i`. When the
/// whole input is the canonical text of a string value, the read is
/// also complete: it consumes everything and yields exactly that
/// string.
#[verifier::loop_isolation(false)]
fn parse_string(s: &Vec<char>, i: usize) -> (r: Option<(String, usize)>)
    ensures
        r matches Some(p) ==> i < p.1 <= s@.len(),
        forall|cs: Seq<char>| #![trigger jtext(JsonData::Str(cs))]
            (i == 0 && s@ == jtext(JsonData::Str(cs))) ==> (r matches Some(p) && p.0@ == cs
                && p.1 == s@.len()),
{
    if i >= s.len() || s[i] != '"' {
        proof {
            assert forall|cs: Seq<char>| !(i == 0 && s@ == jtext(JsonData::Str(cs))) by {
                if i == 0 && s@ == jtext(JsonData::Str(cs)) {
                    assert(s@ == seq!['"'] + jstr_body(cs) + seq!['"']);
                    assert(s@[0] == '"');
                }
            }
        }
        return None;
    }
    let mut out: Vec<char> = Vec::new();
    let mut j: usize = i + 1;
    proof {
        assert forall|cs: Seq<char>| (i == 0 && s@ == jtext(JsonData::Str(cs))) implies (out@
            == cs.take(0) && j == 1 + jstr_body(cs.take(0)).len()) by {
            assert(cs.take(0) =~= Seq::<char>::empty());
            assert(out@ =~= cs.take(0));
        }
    }
    while j < s.len()
        invariant
            i < j <= s@.len(),
            forall|cs: Seq<char>| #![trigger jtext(JsonData::Str(cs))]
                (i == 0 && s@ == jtext(JsonData::Str(cs))) ==> (out@.len() <= cs.len() && out@
                    == cs.take(out@.len() as int) && j == 1 + jstr_body(
                    cs.take(out@.len() as int),
                ).len()),
        decreases s@.len() - j,
    {
        let ghost out0 = out@;
        let ghost j0 = j as int;
        let c = s[j];
        if c == '"' {
            proof {
                assert forall|cs: Seq<char>| (i == 0 && s@ == jtext(JsonData::Str(cs))) implies (
                out@ == cs && j + 1 == s@.len()) by {
                    let k = out0.len() as int;
                    assert(s@ == seq!['"'] + jstr_body(cs) + seq!['"']);
                    lemma_string_progress(s@, cs, k);
                    if k < cs.len() {
                        assert(s@[j0] == esc_char(cs[k])[0]);
                        assert(esc_char(cs[k])[0] != '"');
                    }
                    assert(out@ =~= cs);
                }
            }
            return Some((chars_to_string(&out), j + 1));
        } else if c == '\\' {
            proof {
                assert forall|cs: Seq<char>| (i == 0 && s@ == jtext(JsonData::Str(cs))) implies (
                out0.len() < cs.len() && s@.len() - j0 >= 3 && s@[j0 + 1] == esc_char(
                    cs[out0.len() as int],
                )[1] && esc_char(cs[out0.len() as int])[0] == '\\') by {
                    let k = out0.len() as int;
                    assert(s@ == seq!['"'] + jstr_body(cs) + seq!['"']);
                    lemma_escape_category(s@, cs, k, j0);
                }
            }
            if s.len() - j <= 1 {
                return None;
            }
            let e = s[j + 1];
            if e == '"' {
                out.push('"');
            } else if e == '\\' {
                out.push('\\');
            } else if e == 'b' {
                out.push('\u{8}');
            } else if e == 't' {
                out.push('\t');
            } else if e == 'n' {
                out.push('\n');
            } else if e == 'f' {
                out.push('\u{c}');
            } else if e == 'r' {
                out.push('\r');
            } else if e == 'u' {
                if s.len() - j <= 5 {
                    proof {
                        assert forall|cs: Seq<char>| !(i == 0 && s@ == jtext(JsonData::Str(cs)))
                            by {
                            if i == 0 && s@ == jtext(JsonData::Str(cs)) {
                                let k = out0.len() as int;
                                assert(s@ == seq!['"'] + jstr_body(cs) + seq!['"']);
                                lemma_escape_category(s@, cs, k, j0);
                                assert(esc_char(cs[k]).len() == 6);
                            }
                        }
                    }
                    return None;
                }
                let h1 = hex_val(s[j + 2]);
                let h2 = hex_val(s[j + 3]);
                let h3 = hex_val(s[j + 4]);
                let h4 = hex_val(s[j + 5]);
                proof {
                    assert forall|cs: Seq<char>| (i == 0 && s@ == jtext(JsonData::Str(cs)))
                        implies ({
                        let u: int = (cs[out0.len() as int] as u32) as int;
                        &&& h1 == Some(0u32)
                        &&& h2 == Some(0u32)
                        &&& h3 == Some((u / 16) as u32)
                        &&& h4 == Some((u % 16) as u32)
                        &&& u < 32
                    }) by {
                        let k = out0.len() as int;
                        assert(s@ == seq!['"'] + jstr_body(cs) + seq!['"']);
                        lemma_escape_category(s@, cs, k, j0);
                        let u: int = (cs[k] as u32) as int;
                        assert(hex_char(0) == '0');
                        assert(s@[j0 + 2] == hex_char(0));
                        assert(s@[j0 + 3] == hex_char(0));
                        assert(0 <= u / 16 < 16);
                        assert(0 <= u % 16 < 16);
                    }
                }
                match (h1, h2, h3, h4) {
                    (Some(d1), Some(d2), Some(d3), Some(d4)) => {
                        let code: u32 = d1 * 4096 + d2 * 256 + d3 * 16 + d4;
                        if code >= 32 {
                            // only the escapes the canonical text uses
                            proof {
                                assert forall|cs: Seq<char>| !(i == 0 && s@ == jtext(
                                    JsonData::Str(cs),
                                )) by {
                                    if i == 0 && s@ == jtext(JsonData::Str(cs)) {
                                        let u: int = (cs[out0.len() as int] as u32) as int;
                                        assert(code == 0 * 4096 + 0 * 256 + (u / 16) * 16 + u
                                            % 16);
                                        assert(u == 16 * (u / 16) + u % 16);
                                    }
                                }
                            }
                            return None;
                        }
                        out.push((code as u8) as char);
                        proof {
                            assert forall|cs: Seq<char>| (i == 0 && s@ == jtext(
                                JsonData::Str(cs),
                            )) implies (out@.len() <= cs.len() && out@ == cs.take(
                                out@.len() as int,
                            ) && j + 6 == 1 + jstr_body(cs.take(out@.len() as int)).len()) by {
                                let k = out0.len() as int;
                                assert(s@ == seq!['"'] + jstr_body(cs) + seq!['"']);
                                lemma_escape_category(s@, cs, k, j0);
                                let u: int = (cs[k] as u32) as int;
                                assert(code == 0 * 4096 + 0 * 256 + (u / 16) * 16 + u % 16);
                                assert(u == 16 * (u / 16) + u % 16);
                                assert(code as int == u);
                                assert(((code as u8) as char) as u32 == code);
                                vstd::utf8::char_u32_cast((code as u8) as char, code);
                                vstd::utf8::char_u32_cast(cs[k], code);
                                assert((code as u8) as char == cs[k]);
                                assert(out@ =~= cs.take(k + 1));
                                assert(esc_char(cs[k]).len() == 6);
                            }
                        }
                        j = j + 6;
                        continue;
                    },
                    _ => {
                        return None;
                    },
                }
            } else {
                proof {
                    assert forall|cs: Seq<char>| !(i == 0 && s@ == jtext(JsonData::Str(cs))) by {
                        if i == 0 && s@ == jtext(JsonData::Str(cs)) {
                            let k = out0.len() as int;
                            assert(s@ == seq!['"'] + jstr_body(cs) + seq!['"']);
                            lemma_escape_category(s@, cs, k, j0);
                        }
                    }
                }
                return None;
            }
            proof {
                assert forall|cs: Seq<char>| (i == 0 && s@ == jtext(JsonData::Str(cs))) implies (
                out@.len() <= cs.len() && out@ == cs.take(out@.len() as int) && j + 2 == 1
                    + jstr_body(cs.take(out@.len() as int)).len()) by {
                    let k = out0.len() as int;
                    assert(s@ == seq!['"'] + jstr_body(cs) + seq!['"']);
                    lemma_escape_category(s@, cs, k, j0);
                    assert(out@ =~= cs.take(k + 1));
                    assert(esc_char(cs[k]).len() == 2);
                }
            }
            j = j + 2;
            continue;
        } else {
            proof {
                assert forall|cs: Seq<char>| (i == 0 && s@ == jtext(JsonData::Str(cs))) implies (
                out@.len() + 1 <= cs.len() && out@.push(c) == cs.take(out@.len() as int + 1) && j + 1
                    == 1 + jstr_body(cs.take(out@.len() as int + 1)).len()) by {
                    let k = out0.len() as int;
                    assert(s@ == seq!['"'] + jstr_body(cs) + seq!['"']);
                    lemma_string_progress(s@, cs, k);
                    if k == cs.len() {
                        assert(s@[j0] == '"');
                    }
                    assert(s@[j0] == esc_char(cs[k])[0]);
                    assert(esc_char(cs[k]) == seq![cs[k]]);
                    assert(out@.push(c) =~= cs.take(k + 1));
                }
            }
            out.push(c);
            j = j + 1;
        }
    }
    proof {
        assert forall|cs: Seq<char>| !(i == 0 && s@ == jtext(JsonData::Str(cs))) by {
            if i == 0 && s@ == jtext(JsonData::Str(cs)) {
                let k = out@.len() as int;
                lemma_string_progress(s@, cs, k);
            }
        }
    }
    None
}

/// Reads one value whose text starts at `i`. When the whole input is
/// the canonical text of a childless value, the read is also
/// complete: it consumes everything and yields exactly that value.
#[verifier::loop_isolation(false)]
fn parse_value(s: &Vec<char>, i: usize) -> (r: Option<(JsonValue, usize)>)
    ensures
        r matches Some(p) ==> i < p.1 <= s@.len(),
        (i == 0 && s@ == jtext(JsonData::Null)) ==> (r matches Some(p) && p.0 == JsonValue::Null
            && p.1 == s@.len()),
        forall|b: bool| #![trigger jtext(JsonData::Bool(b))]
            (i == 0 && s@ == jtext(JsonData::Bool(b))) ==> (r matches Some(p) && p.0
                == JsonValue::Bool(b) && p.1 == s@.len()),
        forall|n: i64| #![trigger int_text(n as int)]
            (i == 0 && s@ == int_text(n as int)) ==> (r matches Some(p) && p.0 == JsonValue::Int(
                n,
            ) && p.1 == s@.len()),
        forall|cs: Seq<char>| #![trigger jtext(JsonData::Str(cs))]
            (i == 0 && s@ == jtext(JsonData::Str(cs))) ==> (r matches Some(p) && p.0 matches
                JsonValue::Str(st) && st@ == cs && p.1 == s@.len()),
    decreases s@.len() - i,
{
    proof {
        assert forall|n: i64| s@ == int_text(n as int) implies (s@.len() >= 1 && (s@[0] == '-'
            || is_digit_char(s@[0]))) by {
            lemma_int_text_facts(s@, n as int);
        }
        assert forall|cs: Seq<char>| s@ == jtext(JsonData::Str(cs)) implies (s@.len() >= 2
            && s@[0] == '"') by {
            assert(s@ == seq!['"'] + jstr_body(cs) + seq!['"']);
        }
    }
    if i >= s.len() {
        return None;
    }
    let c = s[i];
    if c == 'n' {
        if s.len() - i > 3 && s[i + 1] == 'u' && s[i + 2] == 'l' && s[i + 3] == 'l' {
            Some((JsonValue::Null, i + 4))
        } else {
            None
        }
    } else if c == 't' {
        if s.len() - i > 3 && s[i + 1] == 'r' && s[i + 2] == 'u' && s[i + 3] == 'e' {
            Some((JsonValue::Bool(true), i + 4))
        } else {
            None
        }
    } else if c == 'f' {
        if s.len() - i > 4 && s[i + 1] == 'a' && s[i + 2] == 'l' && s[i + 3] == 's' && s[i + 4]
            == 'e' {
            Some((JsonValue::Bool(false), i + 5))
        } else {
            None
        }
    } else if c == '"' {
        match parse_string(s, i) {
            Some((st, j)) => Some((JsonValue::Str(st), j)),
            None => None,
        }
    } else if c == '-' || (c >= '0' && c <= '9') {
        match parse_int(s, i) {
            Some((n, j)) => Some((JsonValue::Int(n), j)),
            None => None,
        }
    } else if c == '[' {
        let mut items: Vec<JsonValue> = Vec::new();
        let mut j: usize = i + 1;
        if j < s.len() && s[j] == ']' {
            return Some((JsonValue::Arr(items), j + 1));
        }
        loop
            invariant
                i < j <= s@.len(),
            decreases s@.len() - j,
        {
            let (v, j2) = match parse_value(s, j) {
                Some(p) => p,
                None => {
                    return None;
                },
            };
            items.push(v);
            j = j2;
            if j >= s.len() {
                return None;
            }
            if s[j] == ']' {
                return Some((JsonValue::Arr(items), j + 1));
            }
            if s[j] != ',' {
                return None;
            }
            j = j + 1;
        }
    } else if c == '{' {
        let mut entries: Vec<(String, JsonValue)> = Vec::new();
        let mut j: usize = i + 1;
        if j < s.len() && s[j] == '}' {
            return Some((JsonValue::Obj(entries), j + 1));
        }
        loop
            invariant
                i < j <= s@.len(),
            decreases s@.len() - j,
        {
            let (key, jk) = match parse_string(s, j) {
                Some(p) => p,
                None => {
                    return None;
                },
            };
            if jk >= s.len() || s[jk] != ':' {
                return None;
            }
            let (v, j2) = match parse_value(s, jk + 1) {
                Some(p) => p,
                None => {
                    return None;
                },
            };
            entries.push((key, v));
            j = j2;
            if j >= s.len() {
                return None;
            }
            if s[j] == '}' {
                return Some((JsonValue::Obj(entries), j + 1));
            }
            if s[j] != ',' {
                return None;
            }
            j = j + 1;
        }
    } else {
        None
    }
}

/// Whether two character vectors hold the same characters.
fn chars_eq(a: &Vec<char>, b: &Vec<char>) -> (r: bool)
    ensures
        r == (a@ == b@),
{
    if a.len() != b.len() {
        return false;
    }
    let n = a.len();
    let mut i: usize = 0;
    while i < n
        invariant
            i <= n,
            n == a@.len(),
            n == b@.len(),
            forall|k: int| 0 <= k < i ==> a@[k] == b@[k],
        decreases n - i,
    {
        if a[i] != b[i] {
            return false;
        }
        i = i + 1;
    }
    proof {
        assert(a@ =~= b@);
    }
    true
}

/// A structured-data value with no children: null, a boolean, an
/// integer within the signed 64-bit range, or a string.
pub open spec fn leaf_data(w: JsonData) -> bool {
    match w {
        JsonData::Null => true,
        JsonData::Bool(_) => true,
        JsonData::Int(n) => i64::MIN <= n <= i64::MAX,
        JsonData::Str(_) => true,
        _ => false,
    }
}

/// Parses the characters of canonical structured-data text.
///
/// One round-trip direction holds of every success: a value this
/// function yields serializes back to exactly the input characters.
/// On the canonical text of a childless value the reader is also
/// complete: it yields exactly that value.
pub fn parse_json_chars(s: &Vec<char>) -> (r: Option<JsonValue>)
    ensures
        r matches Some(v) ==> jtext(v.deep()) == s@,
        forall|w: JsonData|
            (leaf_data(w) && s@ == jtext(w)) ==> (r matches Some(v) && v.deep() == w),
{
    let cand = match parse_value(s, 0) {
        Some((v, _)) => v,
        None => {
            proof {
                assert forall|w: JsonData| !(leaf_data(w) && s@ == jtext(w)) by {
                    if leaf_data(w) && s@ == jtext(w) {
                        if w is Bool {
                            assert(s@ == jtext(JsonData::Bool(w->Bool_0)));
                        }
                        if w is Int {
                            let m: i64 = (w->Int_0) as i64;
                            assert(s@ == int_text(m as int));
                        }
                        if w is Str {
                            assert(s@ == jtext(JsonData::Str(w->Str_0)));
                        }
                    }
                }
            }
            return None;
        },
    };
    let again = to_json_chars(&cand);
    proof {
        assert forall|w: JsonData| (leaf_data(w) && s@ == jtext(w)) implies (again@ == s@
            && cand.deep() == w) by {
            if w is Bool {
                assert(s@ == jtext(JsonData::Bool(w->Bool_0)));
                assert(cand == JsonValue::Bool(w->Bool_0));
            }
            if w is Int {
                let m: i64 = (w->Int_0) as i64;
                assert(s@ == int_text(m as int));
                assert(cand == JsonValue::Int(m));
            }
            if w is Str {
                assert(s@ == jtext(JsonData::Str(w->Str_0)));
            }
            assert(cand.deep() == w);
        }
    }
    if chars_eq(&again, s) {
        Some(cand)
    } else {
        None
    }
}

/// The characters of a string slice, in order.
pub fn str_chars(s: &str) -> (v: Vec<char>)
    ensures
        v@ == s@,
{
    let n = s.unicode_len();
    let mut v: Vec<char> = Vec::new();
    let mut i: usize = 0;
    while i < n
        invariant
            i <= n,
            n == s@.len(),
            v@ == s@.take(i as int),
        decreases n - i,
    {
        let c = s.get_char(i);
        v.push(c);
        proof {
            assert(v@ =~= s@.take(i as int + 1));
        }
        i = i + 1;
    }
    proof {
        assert(s@.take(n as int) =~= s@);
    }
    v
}

/// Parses a string of canonical structured-data text.
pub fn parse_json_str(s: &str) -> (r: Option<JsonValue>)
    ensures
        r matches Some(v) ==> jtext(v.deep()) == s@,
        forall|w: JsonData|
            (leaf_data(w) && s@ == jtext(w)) ==> (r matches Some(v) && v.deep() == w),
{
    let cs = str_chars(s);
    parse_json_chars(&cs)
}

} // verus!
