//! Serialization of structured-data values into their canonical text.
//!
//! The canonical text is compact JSON: no whitespace between tokens,
//! object entries in stored order, integers in plain decimal, and the
//! usual short escapes inside strings.
use vstd::prelude::*;

use crate::json::{JsonData, JsonValue};

verus! {

broadcast use vstd::std_specs::vec::group_vec_axioms, vstd::seq::group_seq_axioms;

/// The character for one decimal digit.
pub open spec fn digit_char(d: int) -> char {
    if d == 0 {
        '0'
    } else if d == 1 {
        '1'
    } else if d == 2 {
        '2'
    } else if d == 3 {
        '3'
    } else if d == 4 {
        '4'
    } else if d == 5 {
        '5'
    } else if d == 6 {
        '6'
    } else if d == 7 {
        '7'
    } else if d == 8 {
        '8'
    } else {
        '9'
    }
}

/// The lower-case character for one hexadecimal digit.
pub open spec fn hex_char(d: int) -> char {
    if d < 10 {
        digit_char(d)
    } else if d == 10 {
        'a'
    } else if d == 11 {
        'b'
    } else if d == 12 {
        'c'
    } else if d == 13 {
        'd'
    } else if d == 14 {
        'e'
    } else {
        'f'
    }
}

/// Decimal digits of a non-negative integer, most significant first.
pub open spec fn dec_digits(n: int) -> Seq<char>
    recommends
        n >= 0,
    decreases n,
{
    if n < 10 {
        seq![digit_char(n)]
    } else {
        dec_digits(n / 10) + seq![digit_char(n % 10)]
    }
}

/// The canonical text of an integer: a minus sign for negative values,
/// then decimal digits without leading zeros.
pub open spec fn int_text(n: int) -> Seq<char> {
    if n < 0 {
        seq!['-'] + dec_digits(-n)
    } else {
        dec_digits(n)
    }
}

/// The escaped form of one string character, as it stands between the
/// quotes of a serialized string.
pub open spec fn esc_char(c: char) -> Seq<char> {
    if c == '"' {
        seq!['\\', '"']
    } else if c == '\\' {
        seq!['\\', '\\']
    } else if c == '\u{8}' {
        seq!['\\', 'b']
    } else if c == '\t' {
        seq!['\\', 't']
    } else if c == '\n' {
        seq!['\\', 'n']
    } else if c == '\u{c}' {
        seq!['\\', 'f']
    } else if c == '\r' {
        seq!['\\', 'r']
    } else if (c as u32) < 32 {
        seq!['\\', 'u', '0', '0', hex_char((c as u32) as int / 16), hex_char((c as u32) as int % 16)]
    } else {
        seq![c]
    }
}

/// The serialized text of a string body, without the surrounding quotes.
pub open spec fn jstr_body(s: Seq<char>) -> Seq<char>
    decreases s.len(),
{
    if s.len() == 0 {
        Seq::empty()
    } else {
        esc_char(s[0]) + jstr_body(s.drop_first())
    }
}

/// The canonical serialized text of a structured-data value.
pub open spec fn jtext(v: JsonData) -> Seq<char>
    decreases v, 0int,
{
    match v {
        JsonData::Null => seq!['n', 'u', 'l', 'l'],
        JsonData::Bool(b) => if b {
            seq!['t', 'r', 'u', 'e']
        } else {
            seq!['f', 'a', 'l', 's', 'e']
        },
        JsonData::Int(n) => int_text(n),
        JsonData::Str(s) => seq!['"'] + jstr_body(s) + seq!['"'],
        JsonData::Arr(items) => seq!['['] + arr_body(items) + seq![']'],
        JsonData::Obj(entries) => seq!['{'] + obj_body(entries) + seq!['}'],
    }
}

/// The comma-separated texts of the elements of an array.
pub open spec fn arr_body(items: Seq<JsonData>) -> Seq<char>
    decreases items, 1int,
{
    if items.len() == 0 {
        Seq::empty()
    } else if items.len() == 1 {
        jtext(items[0])
    } else {
        jtext(items[0]) + seq![','] + arr_body(items.drop_first())
    }
}

/// The comma-separated `"key":value` texts of the entries of an object.
pub open spec fn obj_body(entries: Seq<(Seq<char>, JsonData)>) -> Seq<char>
    decreases entries, 1int,
{
    if entries.len() == 0 {
        Seq::empty()
    } else {
        let head = seq!['"'] + jstr_body(entries[0].0) + seq!['"', ':'] + jtext(entries[0].1);
        if entries.len() == 1 {
            head
        } else {
            head + seq![','] + obj_body(entries.drop_first())
        }
    }
}

/// Appending one character to a string body appends its escaped form.
pub proof fn lemma_jstr_body_snoc(t: Seq<char>, c: char)
    ensures
        jstr_body(t.push(c)) == jstr_body(t) + esc_char(c),
    decreases t.len(),
{
    if t.len() == 0 {
        let u = t.push(c);
        assert(u.drop_first() =~= Seq::<char>::empty());
        assert(u[0] == c);
        assert(jstr_body(u) == esc_char(c) + jstr_body(u.drop_first()));
        assert(jstr_body(u.drop_first()) =~= Seq::<char>::empty());
        assert(jstr_body(t) =~= Seq::<char>::empty());
        assert(jstr_body(u) =~= jstr_body(t) + esc_char(c));
    } else {
        assert(t.push(c).drop_first() =~= t.drop_first().push(c));
        lemma_jstr_body_snoc(t.drop_first(), c);
        assert(jstr_body(t.push(c)) =~= jstr_body(t) + esc_char(c));
    }
}

/// The separator that stands before element `k` of an array or object body.
pub open spec fn sep(k: int) -> Seq<char> {
    if k == 0 {
        Seq::empty()
    } else {
        seq![',']
    }
}

/// Extending the serialized prefix of an array by one element appends a
/// separator (after the first element) and the element's text.
pub proof fn lemma_arr_body_take(items: Seq<JsonData>, k: int)
    requires
        0 <= k < items.len(),
    ensures
        arr_body(items.take(k + 1)) == arr_body(items.take(k)) + sep(k) + jtext(items[k]),
    decreases k,
{
    if k == 0 {
        assert(items.take(1) =~= seq![items[0]]);
        assert(arr_body(items.take(1)) == jtext(items[0]));
        assert(arr_body(items.take(0)) =~= Seq::<char>::empty());
        assert(arr_body(items.take(k + 1)) =~= arr_body(items.take(k)) + sep(k) + jtext(items[k]));
    } else {
        let d = items.drop_first();
        assert(items.take(k + 1).drop_first() =~= d.take(k));
        assert(items.take(k).drop_first() =~= d.take(k - 1));
        assert(items.take(k + 1)[0] == items[0]);
        assert(items.take(k)[0] == items[0]);
        lemma_arr_body_take(d, k - 1);
        assert(d[k - 1] == items[k]);
        if k == 1 {
            assert(d.take(0) =~= Seq::<JsonData>::empty());
            assert(arr_body(items.take(2)) == jtext(items[0]) + seq![','] + arr_body(d.take(1)));
            assert(arr_body(d.take(1)) =~= sep(0) + jtext(d[0]));
            assert(arr_body(items.take(k + 1)) =~= arr_body(items.take(k)) + sep(k) + jtext(
                items[k],
            ));
        } else {
            assert(arr_body(items.take(k + 1)) == jtext(items[0]) + seq![','] + arr_body(
                d.take(k),
            ));
            assert(arr_body(items.take(k)) == jtext(items[0]) + seq![','] + arr_body(
                d.take(k - 1),
            ));
            assert(arr_body(items.take(k + 1)) =~= arr_body(items.take(k)) + sep(k) + jtext(
                items[k],
            ));
        }
    }
}

/// The `"key":value` text of one object entry.
pub open spec fn entry_text(e: (Seq<char>, JsonData)) -> Seq<char> {
    seq!['"'] + jstr_body(e.0) + seq!['"', ':'] + jtext(e.1)
}

/// Extending the serialized prefix of an object by one entry appends a
/// separator (after the first entry) and the entry's text.
pub proof fn lemma_obj_body_take(entries: Seq<(Seq<char>, JsonData)>, k: int)
    requires
        0 <= k < entries.len(),
    ensures
        obj_body(entries.take(k + 1)) == obj_body(entries.take(k)) + sep(k) + entry_text(
            entries[k],
        ),
    decreases k,
{
    if k == 0 {
        assert(entries.take(1) =~= seq![entries[0]]);
        assert(obj_body(entries.take(1)) == entry_text(entries[0]));
        assert(obj_body(entries.take(0)) =~= Seq::<char>::empty());
        assert(obj_body(entries.take(k + 1)) =~= obj_body(entries.take(k)) + sep(k) + entry_text(
            entries[k],
        ));
    } else {
        let d = entries.drop_first();
        assert(entries.take(k + 1).drop_first() =~= d.take(k));
        assert(entries.take(k).drop_first() =~= d.take(k - 1));
        assert(entries.take(k + 1)[0] == entries[0]);
        assert(entries.take(k)[0] == entries[0]);
        lemma_obj_body_take(d, k - 1);
        assert(d[k - 1] == entries[k]);
        if k == 1 {
            assert(d.take(0) =~= Seq::<(Seq<char>, JsonData)>::empty());
            assert(obj_body(d.take(1)) =~= sep(0) + entry_text(d[0]));
            assert(obj_body(entries.take(k + 1)) =~= obj_body(entries.take(k)) + sep(k)
                + entry_text(entries[k]));
        } else {
            assert(obj_body(entries.take(k + 1)) =~= obj_body(entries.take(k)) + sep(k)
                + entry_text(entries[k]));
        }
    }
}

/// The character for one decimal digit, as executable code.
fn digit_to_char(d: u64) -> (c: char)
    requires
        d < 10,
    ensures
        c == digit_char(d as int),
{
    if d == 0 {
        '0'
    } else if d == 1 {
        '1'
    } else if d == 2 {
        '2'
    } else if d == 3 {
        '3'
    } else if d == 4 {
        '4'
    } else if d == 5 {
        '5'
    } else if d == 6 {
        '6'
    } else if d == 7 {
        '7'
    } else if d == 8 {
        '8'
    } else {
        '9'
    }
}

/// The lower-case character for one hexadecimal digit, as executable code.
fn hex_to_char(d: u32) -> (c: char)
    requires
        d < 16,
    ensures
        c == hex_char(d as int),
{
    if d < 10 {
        digit_to_char(d as u64)
    } else if d == 10 {
        'a'
    } else if d == 11 {
        'b'
    } else if d == 12 {
        'c'
    } else if d == 13 {
        'd'
    } else if d == 14 {
        'e'
    } else {
        'f'
    }
}

/// Appends the decimal digits of `n` to `out`.
fn push_u64_digits(n: u64, out: &mut Vec<char>)
    ensures
        final(out)@ == old(out)@ + dec_digits(n as int),
    decreases n,
{
    if n < 10 {
        let c = digit_to_char(n);
        out.push(c);
        assert(out@ =~= old(out)@ + dec_digits(n as int));
    } else {
        push_u64_digits(n / 10, out);
        let c = digit_to_char(n % 10);
        out.push(c);
        assert(out@ =~= old(out)@ + dec_digits(n as int));
    }
}

/// Appends the canonical text of a signed integer to `out`.
fn push_i64(n: i64, out: &mut Vec<char>)
    ensures
        final(out)@ == old(out)@ + int_text(n as int),
{
    if n >= 0 {
        push_u64_digits(n as u64, out);
        assert(out@ =~= old(out)@ + int_text(n as int));
    } else {
        out.push('-');
        let mag: u64 = if n == i64::MIN {
            9223372036854775808u64
        } else {
            (-n) as u64
        };
        assert(mag as int == -(n as int));
        push_u64_digits(mag, out);
        assert(out@ =~= old(out)@ + int_text(n as int));
    }
}

/// Appends the escaped body of a string (without quotes) to `out`.
fn push_str_body(s: &str, out: &mut Vec<char>)
    ensures
        final(out)@ == old(out)@ + jstr_body(s@),
{
    let n = s.unicode_len();
    let mut i: usize = 0;
    while i < n
        invariant
            n == s@.len(),
            i <= n,
            out@ == old(out)@ + jstr_body(s@.take(i as int)),
        decreases n - i,
    {
        let c = s.get_char(i);
        proof {
            assert(s@.take(i as int + 1) =~= s@.take(i as int).push(s@[i as int]));
            lemma_jstr_body_snoc(s@.take(i as int), s@[i as int]);
        }
        if c == '"' {
            out.push('\\');
            out.push('"');
        } else if c == '\\' {
            out.push('\\');
            out.push('\\');
        } else if c == '\u{8}' {
            out.push('\\');
            out.push('b');
        } else if c == '\t' {
            out.push('\\');
            out.push('t');
        } else if c == '\n' {
            out.push('\\');
            out.push('n');
        } else if c == '\u{c}' {
            out.push('\\');
            out.push('f');
        } else if c == '\r' {
            out.push('\\');
            out.push('r');
        } else if (c as u32) < 32 {
            out.push('\\');
            out.push('u');
            out.push('0');
            out.push('0');
            let u = c as u32;
            let hi = hex_to_char(u / 16);
            let lo = hex_to_char(u % 16);
            out.push(hi);
            out.push(lo);
        } else {
            out.push(c);
        }
        assert(out@ =~= old(out)@ + jstr_body(s@.take(i as int + 1)));
        i = i + 1;
    }
    assert(s@.take(n as int) =~= s@);
}

/// Appends the canonical text of a structured-data value to `out`.
#[verifier::loop_isolation(false)]
#[verifier::rlimit(100)]
fn write_json(v: &JsonValue, out: &mut Vec<char>)
    ensures
        final(out)@ == old(out)@ + jtext(v.deep()),
    decreases v,
{
    match v {
        JsonValue::Null => {
            out.push('n');
            out.push('u');
            out.push('l');
            out.push('l');
            assert(out@ =~= old(out)@ + jtext(v.deep()));
        },
        JsonValue::Bool(b) => {
            if *b {
                out.push('t');
                out.push('r');
                out.push('u');
                out.push('e');
            } else {
                out.push('f');
                out.push('a');
                out.push('l');
                out.push('s');
                out.push('e');
            }
            assert(out@ =~= old(out)@ + jtext(v.deep()));
        },
        JsonValue::Int(n) => {
            push_i64(*n, out);
        },
        JsonValue::Str(s) => {
            out.push('"');
            push_str_body(s.as_str(), out);
            out.push('"');
            assert(out@ =~= old(out)@ + jtext(v.deep()));
        },
        JsonValue::Arr(items) => {
            let ghost ds = v.deep()->Arr_0;
            out.push('[');
            let mut k: usize = 0;
            while k < items.len()
                invariant
                    ds == v.deep()->Arr_0,
                    v.deep() is Arr,
                    ds.len() == items@.len(),
                    forall|j: int| 0 <= j < items@.len() ==> ds[j] == items@[j].deep(),
                    k <= items.len(),
                    out@ == old(out)@ + seq!['['] + arr_body(ds.take(k as int)),
                decreases items.len() - k,
            {
                if k > 0 {
                    out.push(',');
                }
                proof {
                    assert(decreases_to!(*v => items@[k as int])) by {
                        assert((*v)->Arr_0 == *items);
                        assert(decreases_to!(*v => (*v)->Arr_0));
                        assert(decreases_to!(*items => items@));
                        assert(decreases_to!(items@ => items@[k as int]));
                    }
                }
                write_json(&items[k], out);
                proof {
                    lemma_arr_body_take(ds, k as int);
                    assert(out@ =~= old(out)@ + seq!['['] + arr_body(ds.take(k as int + 1)));
                }
                k = k + 1;
            }
            out.push(']');
            proof {
                assert(ds.take(ds.len() as int) =~= ds);
                assert(out@ =~= old(out)@ + jtext(v.deep()));
            }
        },
        JsonValue::Obj(entries) => {
            let ghost ds = v.deep()->Obj_0;
            out.push('{');
            let mut k: usize = 0;
            while k < entries.len()
                invariant
                    ds == v.deep()->Obj_0,
                    v.deep() is Obj,
                    ds.len() == entries@.len(),
                    forall|j: int|
                        0 <= j < entries@.len() ==> ds[j] == (entries@[j].0@, entries@[j].1.deep()),
                    k <= entries.len(),
                    out@ == old(out)@ + seq!['{'] + obj_body(ds.take(k as int)),
                decreases entries.len() - k,
            {
                if k > 0 {
                    out.push(',');
                }
                out.push('"');
                push_str_body(entries[k].0.as_str(), out);
                out.push('"');
                out.push(':');
                proof {
                    assert(decreases_to!(*v => entries@[k as int].1)) by {
                        assert((*v)->Obj_0 == *entries);
                        assert(decreases_to!(*v => (*v)->Obj_0));
                        assert(decreases_to!(*entries => entries@));
                        assert(decreases_to!(entries@ => entries@[k as int]));
                        assert(decreases_to!(entries@[k as int] => entries@[k as int].1));
                    }
                }
                write_json(&entries[k].1, out);
                proof {
                    lemma_obj_body_take(ds, k as int);
                    assert(out@ =~= old(out)@ + seq!['{'] + obj_body(ds.take(k as int + 1)));
                }
                k = k + 1;
            }
            out.push('}');
            proof {
                assert(ds.take(ds.len() as int) =~= ds);
                assert(out@ =~= old(out)@ + jtext(v.deep()));
            }
        },
    }
}

/// Serializes a structured-data value into the characters of its
/// canonical text.
pub fn to_json_chars(v: &JsonValue) -> (out: Vec<char>)
    ensures
        out@ == jtext(v.deep()),
{
    let mut out: Vec<char> = Vec::new();
    write_json(v, &mut out);
    assert(out@ =~= jtext(v.deep()));
    out
}

/// Relies on String::push: appends exactly the given character to the
/// string, once per call.
#[verifier::external_body]
pub fn chars_to_string(v: &Vec<char>) -> (s: String)
    ensures
        s@ == v@,
{
    let mut s = String::new();
    for c in v.iter() {
        s.push(*c);
    }
    s
}

/// Serializes a structured-data value into its canonical text.
pub fn to_json_string(v: &JsonValue) -> (s: String)
    ensures
        s@ == jtext(v.deep()),
{
    let out = to_json_chars(v);
    chars_to_string(&out)
}

} // verus!
