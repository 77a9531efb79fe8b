//! Recursive-descent parser for the restricted literal sub-language that
//! header text is written in: integers, booleans, quoted strings,
//! bracketed or parenthesized lists, and brace-delimited string-keyed
//! dictionaries, with insignificant whitespace between tokens.
//!
//! The grammar is stated once as spec functions over the input byte
//! sequence; each executable parser is proved to return exactly what the
//! spec grammar says.
use vstd::prelude::*;

use crate::value::HeaderError;
use crate::value::SpecValue;
use crate::value::Value;

verus! {

broadcast use vstd::std_specs::vec::group_vec_axioms;

/// Whitespace bytes skipped between tokens: space, tab, line feed, carriage return.
pub open spec fn is_ws_byte(b: u8) -> bool {
    b == 0x20 || b == 0x09 || b == 0x0a || b == 0x0d
}

/// Decimal digit bytes.
pub open spec fn is_digit_byte(b: u8) -> bool {
    0x30 <= b <= 0x39
}

/// First position at or after `pos` that does not hold whitespace.
pub open spec fn spec_skip_ws(s: Seq<u8>, pos: int) -> int
    decreases s.len() - pos,
{
    if 0 <= pos < s.len() && is_ws_byte(s[pos]) {
        spec_skip_ws(s, pos + 1)
    } else {
        pos
    }
}

pub proof fn lemma_skip_ws_bounds(s: Seq<u8>, pos: int)
    requires
        0 <= pos <= s.len(),
    ensures
        pos <= spec_skip_ws(s, pos) <= s.len(),
        spec_skip_ws(s, pos) < s.len() ==> !is_ws_byte(s[spec_skip_ws(s, pos)]),
    decreases s.len() - pos,
{
    if pos < s.len() && is_ws_byte(s[pos]) {
        lemma_skip_ws_bounds(s, pos + 1);
    }
}

/// Skipping whitespace is insensitive to where inside the whitespace run it starts.
pub proof fn lemma_skip_ws_all(s: Seq<u8>)
    ensures
        forall|p: int|
            0 <= p <= s.len() ==> p <= #[trigger] spec_skip_ws(s, p) <= s.len(),
{
    assert forall|p: int| 0 <= p <= s.len() implies p <= #[trigger] spec_skip_ws(s, p)
        <= s.len() by {
        lemma_skip_ws_bounds(s, p);
    }
}

/// First position at or after `pos` that does not hold a decimal digit.
pub open spec fn spec_digits_end(s: Seq<u8>, pos: int) -> int
    decreases s.len() - pos,
{
    if 0 <= pos < s.len() && is_digit_byte(s[pos]) {
        spec_digits_end(s, pos + 1)
    } else {
        pos
    }
}

pub proof fn lemma_digits_end_bounds(s: Seq<u8>, pos: int)
    requires
        0 <= pos <= s.len(),
    ensures
        pos <= spec_digits_end(s, pos) <= s.len(),
        forall|j: int| pos <= j < spec_digits_end(s, pos) ==> is_digit_byte(#[trigger] s[j]),
    decreases s.len() - pos,
{
    if pos < s.len() && is_digit_byte(s[pos]) {
        lemma_digits_end_bounds(s, pos + 1);
    }
}

/// Numeric value of the decimal digit run `s[start..end]`.
pub open spec fn spec_digits_val(s: Seq<u8>, start: int, end: int) -> int
    decreases end - start,
{
    if start >= end {
        0
    } else {
        spec_digits_val(s, start, end - 1) * 10 + (s[end - 1] as int - 0x30)
    }
}

pub proof fn lemma_digits_val_nonneg(s: Seq<u8>, start: int, end: int)
    requires
        forall|j: int| start <= j < end ==> is_digit_byte(#[trigger] s[j]),
    ensures
        spec_digits_val(s, start, end) >= 0,
    decreases end - start,
{
    if start < end {
        lemma_digits_val_nonneg(s, start, end - 1);
    }
}

/// A digit run's value only grows as more digits are appended.
pub proof fn lemma_digits_val_mono(s: Seq<u8>, start: int, mid: int, end: int)
    requires
        start <= mid <= end,
        forall|j: int| start <= j < end ==> is_digit_byte(#[trigger] s[j]),
    ensures
        spec_digits_val(s, start, end) >= spec_digits_val(s, start, mid),
    decreases end - mid,
{
    if mid < end {
        lemma_digits_val_mono(s, start, mid, end - 1);
        lemma_digits_val_nonneg(s, start, end - 1);
    }
}

/// Integer token: an optional minus sign, then one or more digits; the
/// value must fit a signed 64-bit integer.
pub open spec fn spec_parse_int(s: Seq<u8>, pos: int) -> Option<(i64, int)> {
    let neg = pos < s.len() && s[pos] == 0x2d;
    let dstart = if neg {
        pos + 1
    } else {
        pos
    };
    let dend = spec_digits_end(s, dstart);
    if dend == dstart {
        Option::None
    } else {
        let m = spec_digits_val(s, dstart, dend);
        let v = if neg {
            -m
        } else {
            m
        };
        if -0x8000000000000000 <= v <= 0x7fffffffffffffff {
            Option::Some((v as i64, dend))
        } else {
            Option::None
        }
    }
}

/// Boolean token: exactly `True` or `False`.
pub open spec fn spec_parse_bool(s: Seq<u8>, pos: int) -> Option<(bool, int)> {
    if pos + 4 <= s.len() && s[pos] == 0x54 && s[pos + 1] == 0x72 && s[pos + 2] == 0x75 && s[pos
        + 3] == 0x65 {
        Option::Some((true, pos + 4))
    } else if pos + 5 <= s.len() && s[pos] == 0x46 && s[pos + 1] == 0x61 && s[pos + 2] == 0x6c
        && s[pos + 3] == 0x73 && s[pos + 4] == 0x65 {
        Option::Some((false, pos + 5))
    } else {
        Option::None
    }
}

/// First position at or after `pos` holding the byte `q`, if any.
pub open spec fn spec_quote_end(s: Seq<u8>, pos: int, q: u8) -> Option<int>
    decreases s.len() - pos,
{
    if pos < 0 || pos >= s.len() {
        Option::None
    } else if s[pos] == q {
        Option::Some(pos)
    } else {
        spec_quote_end(s, pos + 1, q)
    }
}

pub proof fn lemma_quote_end_bounds(s: Seq<u8>, pos: int, q: u8)
    requires
        0 <= pos <= s.len(),
    ensures
        match spec_quote_end(s, pos, q) {
            Option::Some(e) => pos <= e < s.len() && s[e] == q && forall|j: int|
                pos <= j < e ==> s[j] != q,
            Option::None => forall|j: int| pos <= j < s.len() ==> s[j] != q,
        },
    decreases s.len() - pos,
{
    if pos < s.len() && s[pos] != q {
        lemma_quote_end_bounds(s, pos + 1, q);
    }
}

/// Every byte in `s[a..b]` is plain ASCII.
pub open spec fn spec_ascii_range(s: Seq<u8>, a: int, b: int) -> bool {
    forall|i: int| a <= i < b ==> #[trigger] s[i] < 0x80
}

/// String token: an opening quote (single or double), any bytes other
/// than that quote, and the matching closing quote. The content must be
/// plain ASCII; each content byte becomes one character.
pub open spec fn spec_parse_string(s: Seq<u8>, pos: int) -> Option<(Seq<char>, int)> {
    if 0 <= pos < s.len() && (s[pos] == 0x22 || s[pos] == 0x27) {
        let q = s[pos];
        match spec_quote_end(s, pos + 1, q) {
            Option::None => Option::None,
            Option::Some(e) => if spec_ascii_range(s, pos + 1, e) {
                Option::Some((spec_chars_of(s, pos + 1, e), e + 1))
            } else {
                Option::None
            },
        }
    } else {
        Option::None
    }
}

/// The characters standing for the ASCII bytes `s[a..b]`.
pub open spec fn spec_chars_of(s: Seq<u8>, a: int, b: int) -> Seq<char> {
    Seq::new((b - a) as nat, |i: int| (s[a + i] as char))
}

/// One item of the literal sub-language, after skipping leading
/// whitespace: an integer, a boolean, a string, a bracketed or
/// parenthesized list, or a brace-delimited dictionary. Returns the
/// parsed value and the position just past it.
pub open spec fn spec_parse_item(s: Seq<u8>, pos: int) -> Option<(SpecValue, int)>
    decreases s.len() - pos, 0int,
        when 0 <= pos <= s.len()
        via spec_parse_item_decreases
{
    let p = spec_skip_ws(s, pos);
    if p >= s.len() {
        Option::None
    } else if is_digit_byte(s[p]) || s[p] == 0x2d {
        match spec_parse_int(s, p) {
            Option::None => Option::None,
            Option::Some((v, p2)) => Option::Some((SpecValue::Int(v), p2)),
        }
    } else if s[p] == 0x54 || s[p] == 0x46 {
        match spec_parse_bool(s, p) {
            Option::None => Option::None,
            Option::Some((b, p2)) => Option::Some((SpecValue::Bool(b), p2)),
        }
    } else if s[p] == 0x22 || s[p] == 0x27 {
        match spec_parse_string(s, p) {
            Option::None => Option::None,
            Option::Some((cs, p2)) => Option::Some((SpecValue::Str(cs), p2)),
        }
    } else if s[p] == 0x5b {
        match spec_parse_elems(s, p + 1, 0x5d) {
            Option::None => Option::None,
            Option::Some((vs, p2)) => Option::Some((SpecValue::List(vs), p2)),
        }
    } else if s[p] == 0x28 {
        match spec_parse_elems(s, p + 1, 0x29) {
            Option::None => Option::None,
            Option::Some((vs, p2)) => Option::Some((SpecValue::List(vs), p2)),
        }
    } else if s[p] == 0x7b {
        match spec_parse_pairs(s, p + 1) {
            Option::None => Option::None,
            Option::Some((ps, p2)) => Option::Some((SpecValue::Dict(ps), p2)),
        }
    } else {
        Option::None
    }
}

#[via_fn]
proof fn spec_parse_item_decreases(s: Seq<u8>, pos: int) {
    lemma_skip_ws_all(s);
}

/// The items of a list after its opening delimiter: either the closing
/// delimiter at once, or items separated by commas, an optional trailing
/// comma, then the closing delimiter.
pub open spec fn spec_parse_elems(s: Seq<u8>, pos: int, close: u8) -> Option<
    (Seq<SpecValue>, int),
>
    decreases s.len() - pos, 1int,
        when 0 <= pos <= s.len()
        via spec_parse_elems_decreases
{
    let p = spec_skip_ws(s, pos);
    if p >= s.len() {
        Option::None
    } else if s[p] == close {
        Option::Some((Seq::empty(), p + 1))
    } else {
        match spec_parse_item(s, p) {
            Option::None => Option::None,
            Option::Some((v, p2)) => if !(p < p2 <= s.len()) {
                Option::None
            } else {
                let p3 = spec_skip_ws(s, p2);
                if p3 >= s.len() {
                    Option::None
                } else if s[p3] == close {
                    Option::Some((seq![v], p3 + 1))
                } else if s[p3] == 0x2c {
                    match spec_parse_elems(s, p3 + 1, close) {
                        Option::None => Option::None,
                        Option::Some((vs, p4)) => Option::Some((seq![v] + vs, p4)),
                    }
                } else {
                    Option::None
                }
            },
        }
    }
}

#[via_fn]
proof fn spec_parse_elems_decreases(s: Seq<u8>, pos: int, close: u8) {
    lemma_skip_ws_all(s);
}

/// The entries of a dictionary after its opening brace: string keys,
/// each followed by a colon and an item, separated by commas, with an
/// optional trailing comma before the closing brace. Entries keep their
/// textual order; keys are not deduplicated.
pub open spec fn spec_parse_pairs(s: Seq<u8>, pos: int) -> Option<(Seq<(Seq<char>, SpecValue)>, int)>
    decreases s.len() - pos, 1int,
        when 0 <= pos <= s.len()
        via spec_parse_pairs_decreases
{
    let p = spec_skip_ws(s, pos);
    if p >= s.len() {
        Option::None
    } else if s[p] == 0x7d {
        Option::Some((Seq::empty(), p + 1))
    } else {
        match spec_parse_string(s, p) {
            Option::None => Option::None,
            Option::Some((k, p2)) => if !(p < p2 <= s.len()) {
                Option::None
            } else {
                let p3 = spec_skip_ws(s, p2);
                if p3 >= s.len() || s[p3] != 0x3a {
                    Option::None
                } else {
                    match spec_parse_item(s, p3 + 1) {
                        Option::None => Option::None,
                        Option::Some((v, p4)) => if !(p3 + 1 <= p4 <= s.len()) {
                            Option::None
                        } else {
                            let p5 = spec_skip_ws(s, p4);
                            if p5 >= s.len() {
                                Option::None
                            } else if s[p5] == 0x7d {
                                Option::Some((seq![(k, v)], p5 + 1))
                            } else if s[p5] == 0x2c {
                                match spec_parse_pairs(s, p5 + 1) {
                                    Option::None => Option::None,
                                    Option::Some((ps, p6)) => Option::Some((seq![(k, v)] + ps, p6)),
                                }
                            } else {
                                Option::None
                            }
                        },
                    }
                }
            },
        }
    }
}

#[via_fn]
proof fn spec_parse_pairs_decreases(s: Seq<u8>, pos: int) {
    lemma_skip_ws_all(s);
}

/// Relies on String::push: appends exactly the given character.
#[verifier::external_body]
pub(crate) fn push_char(out: &mut String, c: char)
    ensures
        final(out)@ == old(out)@.push(c),
{
    out.push(c)
}

fn skip_ws(s: &[u8], pos: usize) -> (r: usize)
    requires
        pos <= s@.len(),
    ensures
        r as int == spec_skip_ws(s@, pos as int),
        pos <= r <= s@.len(),
{
    let mut i = pos;
    while i < s.len() && (s[i] == 0x20 || s[i] == 0x09 || s[i] == 0x0a || s[i] == 0x0d)
        invariant
            pos <= i <= s@.len(),
            spec_skip_ws(s@, pos as int) == spec_skip_ws(s@, i as int),
        decreases s@.len() - i,
    {
        i += 1;
    }
    i
}

fn digits_end(s: &[u8], pos: usize) -> (r: usize)
    requires
        pos <= s@.len(),
    ensures
        r as int == spec_digits_end(s@, pos as int),
        pos <= r <= s@.len(),
{
    let mut i = pos;
    while i < s.len() && 0x30 <= s[i] && s[i] <= 0x39
        invariant
            pos <= i <= s@.len(),
            spec_digits_end(s@, pos as int) == spec_digits_end(s@, i as int),
        decreases s@.len() - i,
    {
        i += 1;
    }
    i
}

fn parse_int(s: &[u8], pos: usize) -> (r: Result<(i64, usize), usize>)
    requires
        pos <= s@.len(),
    ensures
        (match r {
            Ok((v, p)) => spec_parse_int(s@, pos as int) == Option::Some((v, p as int)) && pos < p
                <= s@.len(),
            Err(e) => spec_parse_int(s@, pos as int) is None && e <= s@.len(),
        }),
{
    let ghost gs = s@;
    let neg = pos < s.len() && s[pos] == 0x2d;
    let dstart = if neg {
        pos + 1
    } else {
        pos
    };
    let dend = digits_end(s, dstart);
    proof {
        lemma_digits_end_bounds(gs, dstart as int);
    }
    if dend == dstart {
        return Err(pos);
    }
    let limit: u128 = if neg {
        0x8000000000000000
    } else {
        0x7fffffffffffffff
    };
    let mut acc: u128 = 0;
    let mut i = dstart;
    while i < dend
        invariant
            dstart <= i <= dend <= s@.len(),
            s@ == gs,
            pos <= gs.len(),
            neg == (pos < gs.len() && gs[pos as int] == 0x2d),
            dstart as int == if neg {
                pos as int + 1
            } else {
                pos as int
            },
            dend as int == spec_digits_end(gs, dstart as int),
            dend != dstart,
            acc <= limit,
            limit == if neg {
                0x8000000000000000u128
            } else {
                0x7fffffffffffffffu128
            },
            acc as int == spec_digits_val(gs, dstart as int, i as int),
            forall|j: int| dstart <= j < dend ==> is_digit_byte(#[trigger] gs[j]),
        decreases dend - i,
    {
        let d = s[i] - 0x30;
        let cand: u128 = acc * 10 + (d as u128);
        proof {
            assert(cand as int == spec_digits_val(gs, dstart as int, i as int + 1));
        }
        if cand > limit {
            proof {
                lemma_digits_val_mono(gs, dstart as int, i as int + 1, dend as int);
            }
            return Err(i);
        }
        acc = cand;
        i += 1;
    }
    let v: i64 = if neg {
        if acc == 0x8000000000000000 {
            i64::MIN
        } else {
            -((acc as u64) as i64)
        }
    } else {
        (acc as u64) as i64
    };
    Ok((v, dend))
}

fn parse_bool(s: &[u8], pos: usize) -> (r: Result<(bool, usize), usize>)
    requires
        pos <= s@.len(),
    ensures
        (match r {
            Ok((b, p)) => spec_parse_bool(s@, pos as int) == Option::Some((b, p as int)) && pos < p
                <= s@.len(),
            Err(e) => spec_parse_bool(s@, pos as int) is None && e <= s@.len(),
        }),
{
    if s.len() - pos >= 4 && s[pos] == 0x54 && s[pos + 1] == 0x72 && s[pos + 2] == 0x75 && s[pos
        + 3] == 0x65 {
        Ok((true, pos + 4))
    } else if s.len() - pos >= 5 && s[pos] == 0x46 && s[pos + 1] == 0x61 && s[pos + 2] == 0x6c
        && s[pos + 3] == 0x73 && s[pos + 4] == 0x65 {
        Ok((false, pos + 5))
    } else {
        Err(pos)
    }
}

fn parse_string(s: &[u8], pos: usize) -> (r: Result<(String, usize), usize>)
    requires
        pos <= s@.len(),
    ensures
        (match r {
            Ok((cs, p)) => spec_parse_string(s@, pos as int) == Option::Some((cs@, p as int)) && pos
                < p <= s@.len(),
            Err(e) => spec_parse_string(s@, pos as int) is None && e <= s@.len(),
        }),
{
    let ghost gs = s@;
    if !(pos < s.len() && (s[pos] == 0x22 || s[pos] == 0x27)) {
        return Err(pos);
    }
    let q = s[pos];
    let mut e = pos + 1;
    while e < s.len() && s[e] != q
        invariant
            pos + 1 <= e <= s@.len(),
            s@ == gs,
            q == gs[pos as int],
            spec_quote_end(gs, pos as int + 1, q) == spec_quote_end(gs, e as int, q),
        decreases s@.len() - e,
    {
        e += 1;
    }
    if e >= s.len() {
        return Err(pos);
    }
    let mut out = String::new();
    let mut j = pos + 1;
    while j < e
        invariant
            pos + 1 <= j <= e < s@.len(),
            s@ == gs,
            q == gs[pos as int],
            gs[e as int] == q,
            spec_quote_end(gs, pos as int + 1, q) == Option::Some(e as int),
            spec_ascii_range(gs, pos as int + 1, j as int),
            out@ == spec_chars_of(gs, pos as int + 1, j as int),
        decreases e - j,
    {
        let b = s[j];
        if b >= 0x80 {
            return Err(j);
        }
        push_char(&mut out, b as char);
        proof {
            assert(out@ =~= spec_chars_of(gs, pos as int + 1, j as int + 1));
        }
        j += 1;
    }
    Ok((out, e + 1))
}

/// The models of a sequence of parsed values, element by element.
pub open spec fn views_of(vs: Seq<Value>) -> Seq<SpecValue> {
    Seq::new(
        vs.len(),
        |i: int|
            if 0 <= i < vs.len() {
                vs[i]@
            } else {
                SpecValue::Bool(false)
            },
    )
}

/// The models of a sequence of parsed key-value entries, entry by entry.
pub open spec fn pair_views_of(ps: Seq<(String, Value)>) -> Seq<(Seq<char>, SpecValue)> {
    Seq::new(
        ps.len(),
        |i: int|
            if 0 <= i < ps.len() {
                (ps[i].0@, ps[i].1@)
            } else {
                (Seq::empty(), SpecValue::Bool(false))
            },
    )
}

fn parse_item_at(s: &[u8], pos: usize) -> (r: Result<(Value, usize), usize>)
    requires
        pos <= s@.len(),
    ensures
        (match r {
            Ok((v, p)) => spec_parse_item(s@, pos as int) == Option::Some((v@, p as int)) && pos < p
                <= s@.len(),
            Err(e) => spec_parse_item(s@, pos as int) is None && e <= s@.len(),
        }),
    decreases s@.len() - pos, 0int,
{
    let p = skip_ws(s, pos);
    if p >= s.len() {
        return Err(p);
    }
    let b = s[p];
    if (0x30 <= b && b <= 0x39) || b == 0x2d {
        match parse_int(s, p) {
            Ok((v, p2)) => Ok((Value::Integer(v), p2)),
            Err(e) => Err(e),
        }
    } else if b == 0x54 || b == 0x46 {
        match parse_bool(s, p) {
            Ok((v, p2)) => Ok((Value::Bool(v), p2)),
            Err(e) => Err(e),
        }
    } else if b == 0x22 || b == 0x27 {
        match parse_string(s, p) {
            Ok((cs, p2)) => Ok((Value::String(cs), p2)),
            Err(e) => Err(e),
        }
    } else if b == 0x5b {
        match parse_elems(s, p + 1, 0x5d) {
            Ok((vs, p2)) => {
                let ghost gvs = vs@;
                let v = Value::List(vs);
                proof {
                    assert(v@ == SpecValue::List(views_of(gvs))) by {
                        assert(v@->List_0 =~= views_of(gvs));
                    }
                }
                Ok((v, p2))
            },
            Err(e) => Err(e),
        }
    } else if b == 0x28 {
        match parse_elems(s, p + 1, 0x29) {
            Ok((vs, p2)) => {
                let ghost gvs = vs@;
                let v = Value::List(vs);
                proof {
                    assert(v@ == SpecValue::List(views_of(gvs))) by {
                        assert(v@->List_0 =~= views_of(gvs));
                    }
                }
                Ok((v, p2))
            },
            Err(e) => Err(e),
        }
    } else if b == 0x7b {
        match parse_pairs(s, p + 1) {
            Ok((ps, p2)) => {
                let ghost gps = ps@;
                let v = Value::Dict(ps);
                proof {
                    assert(v@ == SpecValue::Dict(pair_views_of(gps))) by {
                        assert(v@->Dict_0 =~= pair_views_of(gps));
                    }
                }
                Ok((v, p2))
            },
            Err(e) => Err(e),
        }
    } else {
        Err(p)
    }
}

fn parse_elems(s: &[u8], pos: usize, close: u8) -> (r: Result<(Vec<Value>, usize), usize>)
    requires
        pos <= s@.len(),
    ensures
        (match r {
            Ok((vs, p)) => spec_parse_elems(s@, pos as int, close) == Option::Some(
                (views_of(vs@), p as int),
            ) && pos < p <= s@.len(),
            Err(e) => spec_parse_elems(s@, pos as int, close) is None && e <= s@.len(),
        }),
    decreases s@.len() - pos, 1int,
{
    let p = skip_ws(s, pos);
    if p >= s.len() {
        return Err(p);
    }
    if s[p] == close {
        let vs: Vec<Value> = Vec::new();
        proof {
            assert(views_of(vs@) =~= Seq::<SpecValue>::empty());
        }
        return Ok((vs, p + 1));
    }
    match parse_item_at(s, p) {
        Err(e) => Err(e),
        Ok((v, p2)) => {
            let p3 = skip_ws(s, p2);
            if p3 >= s.len() {
                return Err(p3);
            }
            if s[p3] == close {
                let ghost gv = v@;
                let mut vs: Vec<Value> = Vec::new();
                vs.push(v);
                proof {
                    assert(views_of(vs@) =~= seq![gv]);
                }
                return Ok((vs, p3 + 1));
            }
            if s[p3] == 0x2c {
                match parse_elems(s, p3 + 1, close) {
                    Err(e) => Err(e),
                    Ok((mut rest, p4)) => {
                        let ghost gv = v@;
                        let ghost grest = rest@;
                        rest.insert(0, v);
                        proof {
                            assert(views_of(rest@) =~= seq![gv] + views_of(grest));
                        }
                        Ok((rest, p4))
                    },
                }
            } else {
                Err(p3)
            }
        },
    }
}

fn parse_pairs(s: &[u8], pos: usize) -> (r: Result<(Vec<(String, Value)>, usize), usize>)
    requires
        pos <= s@.len(),
    ensures
        (match r {
            Ok((ps, p)) => spec_parse_pairs(s@, pos as int) == Option::Some(
                (pair_views_of(ps@), p as int),
            ) && pos < p <= s@.len(),
            Err(e) => spec_parse_pairs(s@, pos as int) is None && e <= s@.len(),
        }),
    decreases s@.len() - pos, 1int,
{
    let p = skip_ws(s, pos);
    if p >= s.len() {
        return Err(p);
    }
    if s[p] == 0x7d {
        let ps: Vec<(String, Value)> = Vec::new();
        proof {
            assert(pair_views_of(ps@) =~= Seq::<(Seq<char>, SpecValue)>::empty());
        }
        return Ok((ps, p + 1));
    }
    match parse_string(s, p) {
        Err(e) => Err(e),
        Ok((k, p2)) => {
            let p3 = skip_ws(s, p2);
            if p3 >= s.len() {
                return Err(p3);
            }
            if s[p3] != 0x3a {
                return Err(p3);
            }
            match parse_item_at(s, p3 + 1) {
                Err(e) => Err(e),
                Ok((v, p4)) => {
                    let p5 = skip_ws(s, p4);
                    if p5 >= s.len() {
                        return Err(p5);
                    }
                    if s[p5] == 0x7d {
                        let ghost gk = k@;
                        let ghost gv = v@;
                        let mut ps: Vec<(String, Value)> = Vec::new();
                        ps.push((k, v));
                        proof {
                            assert(pair_views_of(ps@) =~= seq![(gk, gv)]);
                        }
                        return Ok((ps, p5 + 1));
                    }
                    if s[p5] == 0x2c {
                        match parse_pairs(s, p5 + 1) {
                            Err(e) => Err(e),
                            Ok((mut rest, p6)) => {
                                let ghost gk = k@;
                                let ghost gv = v@;
                                let ghost grest = rest@;
                                rest.insert(0, (k, v));
                                proof {
                                    assert(pair_views_of(rest@) =~= seq![(gk, gv)] + pair_views_of(
                                        grest,
                                    ));
                                }
                                Ok((rest, p6))
                            },
                        }
                    } else {
                        Err(p5)
                    }
                },
            }
        },
    }
}

/// Whatever one item parse leaves behind must be whitespace only for a
/// buffer to count as fully consumed.
pub open spec fn spec_parse_value_complete(s: Seq<u8>) -> Option<SpecValue> {
    match spec_parse_item(s, 0) {
        Option::None => Option::None,
        Option::Some((v, p)) => if 0 <= p <= s.len() && spec_skip_ws(s, p) == s.len() {
            Option::Some(v)
        } else {
            Option::None
        },
    }
}

/// Parse one item of the literal sub-language from the start of `s`,
/// skipping leading whitespace. Returns the value and the position just
/// past it; input after that position is left unexamined.
pub fn item(s: &[u8]) -> (r: Result<(Value, usize), HeaderError>)
    ensures
        (match r {
            Ok((v, p)) => spec_parse_item(s@, 0) == Option::Some((v@, p as int)) && 0 < p
                <= s@.len(),
            Err(e) => spec_parse_item(s@, 0) is None && (e matches HeaderError::SyntaxError(off)
                && off <= s@.len()),
        }),
{
    match parse_item_at(s, 0) {
        Ok((v, p)) => Ok((v, p)),
        Err(e) => Err(HeaderError::SyntaxError(e)),
    }
}

/// Parse one item that must span the whole of `s`, up to trailing
/// whitespace. Fails with a syntax error when `s` holds anything else.
pub fn parse_value(s: &[u8]) -> (r: Result<Value, HeaderError>)
    ensures
        (match r {
            Ok(v) => spec_parse_value_complete(s@) == Option::Some(v@),
            Err(e) => spec_parse_value_complete(s@) is None && (
            e matches HeaderError::SyntaxError(off) && off <= s@.len()),
        }),
{
    match parse_item_at(s, 0) {
        Err(e) => Err(HeaderError::SyntaxError(e)),
        Ok((v, p)) => {
            let p2 = skip_ws(s, p);
            if p2 == s.len() {
                Ok(v)
            } else {
                Err(HeaderError::SyntaxError(p2))
            }
        },
    }
}

} // verus!
