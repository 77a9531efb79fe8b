//! Properties that hold across the parser and the descriptor codec:
//! whitespace tolerance of the grammar, and the round trip from a
//! record layout through its descriptor text back to the same layout.
use vstd::prelude::*;

use crate::dtype::SpecDType;
use crate::dtype::SpecRecordDType;
use crate::dtype::spec_descr;
use crate::dtype::spec_field_from;
use crate::dtype::spec_fields_from;
use crate::dtype::spec_fields_descr_from;
use crate::dtype::spec_field_descr;
use crate::dtype::spec_from_descr;
use crate::parser::is_ws_byte;
use crate::parser::spec_ascii_range;
use crate::parser::spec_chars_of;
use crate::parser::spec_parse_elems;
use crate::parser::spec_parse_value_complete;
use crate::parser::spec_parse_item;
use crate::parser::spec_parse_string;
use crate::parser::spec_quote_end;
use crate::parser::spec_skip_ws;
use crate::parser::lemma_quote_end_bounds;
use crate::parser::lemma_skip_ws_bounds;
use crate::value::HeaderError;
use crate::value::SpecValue;

verus! {

broadcast use vstd::utf8::char_u32_cast, vstd::utf8::char_is_scalar;

/// Leading whitespace never changes what an item parse returns: a
/// buffer with one more whitespace byte in front parses to the same
/// value ending at the same position.
pub proof fn lemma_ws_tolerance(s: Seq<u8>, pos: int)
    requires
        0 <= pos,
        pos + 1 <= s.len(),
        is_ws_byte(s[pos]),
    ensures
        spec_parse_item(s, pos) == spec_parse_item(s, pos + 1),
{
    assert(spec_skip_ws(s, pos) == spec_skip_ws(s, pos + 1));
}

/// A plain ASCII character survives the cast to a byte and back.
proof fn lemma_ascii_char_cast(c: char)
    requires
        (c as u32) < 0x80,
    ensures
        ((c as u8) as char) == c,
{
}

/// The bytes that spell a descriptor text, character for character.
pub open spec fn bytes_of(t: Seq<char>) -> Seq<u8> {
    Seq::new(t.len(), |i: int| (t[i] as u8))
}

/// Characters that survive being quoted: plain ASCII and not the
/// single quote that delimits them.
pub open spec fn quotable(t: Seq<char>) -> bool {
    forall|i: int| 0 <= i < t.len() ==> (#[trigger] t[i] as u32) < 0x80 && t[i] != '\''
}

/// A record layout whose descriptor text can be read back exactly:
/// every name and type string is quotable, and no field carries a
/// shape, since the read-back path does not reconstruct shapes.
pub open spec fn round_trippable(d: SpecRecordDType) -> bool {
    match d {
        SpecRecordDType::Simple(t) => quotable(t.ty) && t.shape.len() == 0,
        SpecRecordDType::Structured(fs) => forall|i: int|
            0 <= i < fs.len() ==> quotable(#[trigger] fs[i].0) && quotable(fs[i].1.ty)
                && fs[i].1.shape.len() == 0,
    }
}

/// Parsing a single-quoted run of quotable characters yields exactly
/// those characters and stops just past the closing quote.
proof fn lemma_parse_quoted(s: Seq<u8>, pos: int, t: Seq<char>)
    requires
        0 <= pos,
        pos + t.len() + 2 <= s.len(),
        s[pos] == 0x27,
        s[pos + t.len() + 1] == 0x27,
        quotable(t),
        spec_chars_of(s, pos + 1, pos + 1 + t.len()) == t,
    ensures
        spec_parse_string(s, pos) == Option::Some((t, pos + t.len() + 2)),
{
    let e = pos + t.len() + 1;
    assert forall|j: int| pos + 1 <= j < e implies s[j] != 0x27 by {
        let i = j - pos - 1;
        assert(t[i] == spec_chars_of(s, pos + 1, pos + 1 + t.len())[i]);
        assert(t[i] == (s[j] as char));
        assert((t[i] as u32) < 0x80 && t[i] != '\'');
    }
    lemma_quote_end_bounds(s, pos + 1, 0x27);
    match spec_quote_end(s, pos + 1, 0x27) {
        Option::None => {
            assert(s[e] == 0x27);
            assert(false);
        },
        Option::Some(e2) => {
            assert(e2 == e);
            assert forall|j: int| pos + 1 <= j < e implies s[j] < 0x80 by {
                let i = j - pos - 1;
                assert(t[i] == (s[j] as char));
                assert((t[i] as u32) < 0x80);
            }
            assert(spec_ascii_range(s, pos + 1, e));
            assert(spec_chars_of(s, pos + 1, e) == t);
        },
    }
}

/// Round trip for a plain layout: the descriptor text parses as one
/// item spanning the whole text, and reading it back gives the layout
/// itself.
proof fn lemma_round_trip_simple(t: SpecDType)
    requires
        quotable(t.ty),
        t.shape.len() == 0,
    ensures
        ({
            let s = bytes_of(spec_descr(SpecRecordDType::Simple(t)));
            spec_parse_item(s, 0) == Option::Some(
                (SpecValue::Str(t.ty), s.len() as int),
            ) && spec_from_descr(SpecValue::Str(t.ty)) == Ok::<_, HeaderError>(
                SpecRecordDType::Simple(t),
            )
        }),
{
    let text = spec_descr(SpecRecordDType::Simple(t));
    let s = bytes_of(text);
    assert(text == seq!['\''] + t.ty + seq!['\'']);
    assert(s.len() == t.ty.len() + 2);
    assert(s[0] == 0x27) by {
        assert(text[0] == '\'');
    }
    assert(s[t.ty.len() as int + 1] == 0x27) by {
        assert(text[t.ty.len() as int + 1] == '\'');
    }
    assert(spec_chars_of(s, 1, 1 + t.ty.len() as int) =~= t.ty) by {
        assert forall|i: int| 0 <= i < t.ty.len() implies spec_chars_of(s, 1, 1 + t.ty.len() as int)[i]
            == t.ty[i] by {
            assert(text[i + 1] == t.ty[i]);
            assert(s[i + 1] == (t.ty[i] as u8));
            assert((t.ty[i] as u32) < 0x80);
            lemma_ascii_char_cast(t.ty[i]);
            assert((s[i + 1] as char) == t.ty[i]);
        }
    }
    lemma_parse_quoted(s, 0, t.ty);
    assert(spec_skip_ws(s, 0) == 0);
    assert(spec_parse_item(s, 0) == Option::Some((SpecValue::Str(t.ty), s.len() as int)));
    assert(t.shape =~= Seq::<u64>::empty());
    assert(spec_from_descr(SpecValue::Str(t.ty)) == Ok::<_, HeaderError>(
        SpecRecordDType::Simple(t),
    ));
}



/// The descriptor value that the descriptor text of one field parses
/// to: a two-element list of the name and the type string.
pub open spec fn entries_of(fs: Seq<(Seq<char>, SpecDType)>) -> Seq<SpecValue> {
    Seq::new(
        fs.len(),
        |i: int| SpecValue::List(seq![SpecValue::Str(fs[i].0), SpecValue::Str(fs[i].1.ty)]),
    )
}

/// The fields read back from those entries, from index `k` on: the same
/// names and type strings, with empty shapes.
pub open spec fn tail_fields(fs: Seq<(Seq<char>, SpecDType)>, k: int) -> Seq<
    (Seq<char>, SpecDType),
> {
    Seq::new(
        (fs.len() - k) as nat,
        |i: int| (fs[k + i].0, SpecDType { ty: fs[k + i].1.ty, shape: Seq::empty() }),
    )
}

/// Reading the synthesized field entries back succeeds and returns the
/// fields themselves, shapes empty.
proof fn lemma_fields_read_back(fs: Seq<(Seq<char>, SpecDType)>, k: int)
    requires
        0 <= k <= fs.len(),
    ensures
        spec_fields_from(entries_of(fs), k) == Ok::<_, HeaderError>(tail_fields(fs, k)),
    decreases fs.len() - k,
{
    let entries = entries_of(fs);
    if k == fs.len() {
        assert(tail_fields(fs, k) =~= Seq::<(Seq<char>, SpecDType)>::empty());
    } else {
        lemma_fields_read_back(fs, k + 1);
        let f = seq![SpecValue::Str(fs[k].0), SpecValue::Str(fs[k].1.ty)];
        assert(entries[k] == SpecValue::List(f));
        assert(spec_field_from(entries[k]) == Ok::<_, HeaderError>(
            (fs[k].0, SpecDType { ty: fs[k].1.ty, shape: Seq::empty() }),
        ));
        assert(seq![(fs[k].0, SpecDType { ty: fs[k].1.ty, shape: Seq::empty() })] + tail_fields(
            fs,
            k + 1,
        ) =~= tail_fields(fs, k));
    }
}


/// Fields whose descriptor text reads back exactly.
pub open spec fn wf_fields(fs: Seq<(Seq<char>, SpecDType)>) -> bool {
    forall|i: int|
        0 <= i < fs.len() ==> quotable(#[trigger] fs[i].0) && quotable(fs[i].1.ty)
            && fs[i].1.shape.len() == 0
}

/// Parsing the descriptor text of the fields from `k` on, followed by
/// the closing bracket, yields exactly the field entries from `k` on.
#[verifier::rlimit(80)]
proof fn lemma_parse_fields(s: Seq<u8>, pos: int, fs: Seq<(Seq<char>, SpecDType)>, k: int)
    requires
        wf_fields(fs),
        0 <= k <= fs.len(),
        0 <= pos <= s.len(),
        spec_skip_ws(s, pos) + spec_fields_descr_from(fs, k).len() + 1 <= s.len(),
        s.subrange(
            spec_skip_ws(s, pos),
            spec_skip_ws(s, pos) + spec_fields_descr_from(fs, k).len() + 1,
        ) == bytes_of(spec_fields_descr_from(fs, k)) + seq![0x5du8],
    ensures
        spec_parse_elems(s, pos, 0x5d) == Option::Some(
            (entries_of(fs).skip(k), spec_skip_ws(s, pos) + spec_fields_descr_from(fs, k).len()
                + 1),
        ),
    decreases fs.len() - k,
{
    let p0 = spec_skip_ws(s, pos);
    lemma_skip_ws_bounds(s, pos);
    let ftext = spec_fields_descr_from(fs, k);
    let sub = s.subrange(p0, p0 + ftext.len() + 1);
    assert forall|j: int| 0 <= j < ftext.len() implies s[p0 + j] == (ftext[j] as u8) by {
        assert(sub[j] == s[p0 + j]);
        assert(sub[j] == (bytes_of(ftext) + seq![0x5du8])[j]);
    }
    assert(s[p0 + ftext.len()] == 0x5d) by {
        assert(sub[ftext.len() as int] == s[p0 + ftext.len()]);
    }
    if k == fs.len() {
        assert(ftext =~= Seq::<char>::empty());
        assert(s[p0] == 0x5d);
        assert(spec_skip_ws(s, p0) == p0);
        assert(entries_of(fs).skip(k) =~= Seq::<SpecValue>::empty());
    } else {
        let name = fs[k].0;
        let t = fs[k].1;
        let nl = name.len() as int;
        let tl = t.ty.len() as int;
        assert(quotable(name) && quotable(t.ty) && t.shape.len() == 0);
        let fd = spec_field_descr(name, t);
        let rest = spec_fields_descr_from(fs, k + 1);
        assert(ftext == fd + rest);
        assert(fd == seq!['(', '\''] + name + seq!['\'', ',', ' ', '\''] + t.ty + seq![
            '\'',
            ')',
            ',',
            ' ',
        ]);
        assert(fd.len() == 10 + nl + tl);
        assert(fd[0] == '(');
        assert(fd[1] == '\'');
        assert forall|i: int| 0 <= i < nl implies fd[2 + i] == name[i] by {}
        assert(fd[2 + nl] == '\'');
        assert(fd[3 + nl] == ',');
        assert(fd[4 + nl] == ' ');
        assert(fd[5 + nl] == '\'');
        assert forall|i: int| 0 <= i < tl implies fd[6 + nl + i] == t.ty[i] by {}
        assert(fd[6 + nl + tl] == '\'');
        assert(fd[7 + nl + tl] == ')');
        assert(fd[8 + nl + tl] == ',');
        assert(fd[9 + nl + tl] == ' ');
        assert forall|j: int| 0 <= j < fd.len() implies ftext[j] == fd[j] by {}
        // the bytes of this field's text
        assert(s[p0] == 0x28);
        assert(s[p0 + 1] == 0x27);
        assert(s[p0 + 2 + nl] == 0x27);
        assert(s[p0 + 3 + nl] == 0x2c);
        assert(s[p0 + 4 + nl] == 0x20);
        assert(s[p0 + 5 + nl] == 0x27);
        assert(s[p0 + 6 + nl + tl] == 0x27);
        assert(s[p0 + 7 + nl + tl] == 0x29);
        assert(s[p0 + 8 + nl + tl] == 0x2c);
        assert(s[p0 + 9 + nl + tl] == 0x20);
        // the name parses as a quoted string
        assert(spec_chars_of(s, p0 + 2, p0 + 2 + nl) =~= name) by {
            assert forall|i: int| 0 <= i < nl implies spec_chars_of(s, p0 + 2, p0 + 2 + nl)[i]
                == name[i] by {
                assert(s[p0 + 2 + i] == (name[i] as u8));
                lemma_ascii_char_cast(name[i]);
            }
        }
        lemma_parse_quoted(s, p0 + 1, name);
        // the type string parses as a quoted string
        assert(spec_chars_of(s, p0 + 6 + nl, p0 + 6 + nl + tl) =~= t.ty) by {
            assert forall|i: int| 0 <= i < tl implies spec_chars_of(
                s,
                p0 + 6 + nl,
                p0 + 6 + nl + tl,
            )[i] == t.ty[i] by {
                assert(s[p0 + 6 + nl + i] == (t.ty[i] as u8));
                lemma_ascii_char_cast(t.ty[i]);
            }
        }
        lemma_parse_quoted(s, p0 + 5 + nl, t.ty);
        // walk the grammar over this field's tuple
        assert(spec_skip_ws(s, p0) == p0);
        assert(spec_skip_ws(s, p0 + 1) == p0 + 1);
        assert(spec_parse_item(s, p0 + 1) == Option::Some(
            (SpecValue::Str(name), p0 + 3 + nl),
        ));
        assert(spec_skip_ws(s, p0 + 3 + nl) == p0 + 3 + nl);
        assert(spec_skip_ws(s, p0 + 5 + nl) == p0 + 5 + nl);
        assert(spec_skip_ws(s, p0 + 4 + nl) == p0 + 5 + nl);
        assert(spec_parse_item(s, p0 + 5 + nl) == Option::Some(
            (SpecValue::Str(t.ty), p0 + 7 + nl + tl),
        ));
        assert(spec_skip_ws(s, p0 + 7 + nl + tl) == p0 + 7 + nl + tl);
        // innermost list step: after the type string comes the closing parenthesis
        assert(spec_parse_elems(s, p0 + 4 + nl, 0x29) == Option::Some(
            (seq![SpecValue::Str(t.ty)], p0 + 8 + nl + tl),
        ));
        // the whole tuple
        assert(spec_parse_elems(s, p0 + 1, 0x29) == Option::Some(
            (seq![SpecValue::Str(name)] + seq![SpecValue::Str(t.ty)], p0 + 8 + nl + tl),
        ));
        assert(seq![SpecValue::Str(name)] + seq![SpecValue::Str(t.ty)] =~= seq![
            SpecValue::Str(name),
            SpecValue::Str(t.ty),
        ]);
        assert(spec_parse_item(s, p0) == Option::Some(
            (
                SpecValue::List(seq![SpecValue::Str(name), SpecValue::Str(t.ty)]),
                p0 + 8 + nl + tl,
            ),
        ));
        // the remaining fields, by induction after the comma and space
        assert(spec_skip_ws(s, p0 + 8 + nl + tl) == p0 + 8 + nl + tl);
        let pn = p0 + 10 + nl + tl;
        assert(s[pn] == if k + 1 == fs.len() {
            0x5du8
        } else {
            0x28u8
        }) by {
            if k + 1 < fs.len() {
                assert(rest[0] == spec_field_descr(fs[k + 1].0, fs[k + 1].1)[0]);
                assert(rest[0] == '(');
                assert(ftext[10 + nl + tl] == rest[0]);
            } else {
                assert(rest =~= Seq::<char>::empty());
                assert(ftext.len() == 10 + nl + tl);
            }
        }
        assert(spec_skip_ws(s, pn) == pn);
        assert(spec_skip_ws(s, p0 + 9 + nl + tl) == pn);
        assert(s.subrange(pn, pn + rest.len() + 1) =~= bytes_of(rest) + seq![0x5du8]) by {
            assert forall|j: int| 0 <= j < rest.len() + 1 implies s.subrange(
                pn,
                pn + rest.len() + 1,
            )[j] == (bytes_of(rest) + seq![0x5du8])[j] by {
                if j < rest.len() {
                    assert(ftext[10 + nl + tl + j] == rest[j]);
                    assert(s[pn + j] == (rest[j] as u8));
                } else {
                    assert(s[pn + j] == s[p0 + ftext.len()]);
                }
            }
        }
        lemma_parse_fields(s, p0 + 9 + nl + tl, fs, k + 1);
        assert(spec_parse_elems(s, p0 + 9 + nl + tl, 0x5d) == Option::Some(
            (entries_of(fs).skip(k + 1), pn + rest.len() + 1),
        ));
        assert(pn + rest.len() + 1 == p0 + ftext.len() + 1);
        // assemble this field's entry with the remaining ones
        assert(seq![
            SpecValue::List(seq![SpecValue::Str(name), SpecValue::Str(t.ty)]),
        ] + entries_of(fs).skip(k + 1) =~= entries_of(fs).skip(k));
        assert(spec_parse_elems(s, pos, 0x5d) == Option::Some(
            (entries_of(fs).skip(k), p0 + ftext.len() + 1),
        ));
    }
}


/// Round trip: any record layout whose names and type strings are
/// quotable and whose fields carry no shape serializes to descriptor
/// text that parses back, in full, to a value that `from_descr` maps to
/// the very same layout. Layouts with per-field shapes are excluded:
/// `descr` can write them, but the read-back path does not reconstruct
/// shapes.
pub proof fn lemma_descr_round_trip(d: SpecRecordDType)
    requires
        round_trippable(d),
    ensures
        ({
            let s = bytes_of(spec_descr(d));
            &&& spec_parse_value_complete(s) is Some
            &&& spec_from_descr(spec_parse_value_complete(s)->Some_0) == Ok::<_, HeaderError>(d)
        }),
{
    let text = spec_descr(d);
    let s = bytes_of(text);
    match d {
        SpecRecordDType::Simple(t) => {
            lemma_round_trip_simple(t);
            assert(spec_skip_ws(s, s.len() as int) == s.len() as int);
        },
        SpecRecordDType::Structured(fs) => {
            let ftext = spec_fields_descr_from(fs, 0);
            assert(text == seq!['['] + ftext + seq![']']);
            assert(s.len() == ftext.len() + 2);
            assert(text[0] == '[');
            assert(s[0] == 0x5b) by {
                assert(s[0] == (text[0] as u8));
            }
            assert(s[1] == (text[1] as u8));
            assert(text[1] == if fs.len() == 0 {
                ']'
            } else {
                '('
            }) by {
                if fs.len() > 0 {
                    assert(ftext[0] == spec_field_descr(fs[0].0, fs[0].1)[0]);
                    assert(ftext[0] == '(');
                    assert(text[1] == ftext[0]);
                } else {
                    assert(ftext =~= Seq::<char>::empty());
                }
            }
            assert(spec_skip_ws(s, 0) == 0);
            assert(spec_skip_ws(s, 1) == 1);
            assert(s.subrange(1, 1 + ftext.len() as int + 1) =~= bytes_of(ftext) + seq![0x5du8]) by {
                assert forall|j: int| 0 <= j < ftext.len() + 1 implies s.subrange(
                    1,
                    1 + ftext.len() as int + 1,
                )[j] == (bytes_of(ftext) + seq![0x5du8])[j] by {
                    assert(s[1 + j] == (text[1 + j] as u8));
                    if j < ftext.len() {
                        assert(text[1 + j] == ftext[j]);
                    } else {
                        assert(text[1 + j] == ']');
                    }
                }
            }
            lemma_parse_fields(s, 1, fs, 0);
            assert(entries_of(fs).skip(0) =~= entries_of(fs));
            assert(spec_parse_item(s, 0) == Option::Some(
                (SpecValue::List(entries_of(fs)), s.len() as int),
            ));
            assert(spec_skip_ws(s, s.len() as int) == s.len() as int);
            lemma_fields_read_back(fs, 0);
            assert(tail_fields(fs, 0) =~= fs) by {
                assert forall|i: int| 0 <= i < fs.len() implies tail_fields(fs, 0)[i]
                    == fs[i] by {
                    assert(fs[i].1.shape =~= Seq::<u64>::empty());
                    let t0 = fs[i].1;
                    assert(t0 == SpecDType { ty: t0.ty, shape: t0.shape });
                    assert(fs[i] == (fs[i].0, fs[i].1));
                }
            }
            assert(spec_from_descr(SpecValue::List(entries_of(fs))) == Ok::<_, HeaderError>(d));
        },
    }
}

} // verus!
