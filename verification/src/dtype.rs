//! Typed description of array element layout: one element encoding
//! (`DType`), a whole-record layout (`RecordDType`), and the codec
//! between the generic parsed `Value` and those types — `from_descr`
//! reads a descriptor value, `descr` writes the exact descriptor text
//! back out.
use vstd::prelude::*;
use vstd::string::StringExecFns;

use crate::parser::push_char;
use crate::parser::views_of;
use crate::value::HeaderError;
use crate::value::SpecValue;
use crate::value::Value;
use crate::value::value_view;

verus! {

broadcast use vstd::std_specs::vec::group_vec_axioms;

/// One element-type encoding: a byte-order marker, a type-kind letter
/// and a decimal byte width, such as `>f8` or `<u2`, plus an optional
/// multi-dimensional shape (empty means scalar).
#[derive(PartialEq, Eq, Debug)]
pub struct DType {
    /// Type string; the first character is the byte-order marker.
    pub ty: String,
    /// Extent along each dimension, outermost first; empty for a scalar.
    pub shape: Vec<u64>,
}

/// Model of one element-type encoding.
#[verifier::ext_equal]
pub struct SpecDType {
    pub ty: Seq<char>,
    pub shape: Seq<u64>,
}

impl View for DType {
    type V = SpecDType;

    open spec fn view(&self) -> SpecDType {
        SpecDType { ty: self.ty@, shape: self.shape@ }
    }
}

/// The whole-record layout: one uniform element type, or an ordered
/// list of named, typed fields.
#[derive(PartialEq, Eq, Debug)]
pub enum RecordDType {
    /// A plain array with a single element type.
    Simple(DType),
    /// A structured record array; field order determines on-disk order.
    Structured(Vec<(String, DType)>),
}

/// Model of the whole-record layout.
pub enum SpecRecordDType {
    Simple(SpecDType),
    Structured(Seq<(Seq<char>, SpecDType)>),
}

/// The models of a sequence of named fields, field by field.
pub open spec fn field_views(fs: Seq<(String, DType)>) -> Seq<(Seq<char>, SpecDType)> {
    Seq::new(
        fs.len(),
        |i: int|
            if 0 <= i < fs.len() {
                (fs[i].0@, fs[i].1@)
            } else {
                (Seq::empty(), SpecDType { ty: Seq::empty(), shape: Seq::empty() })
            },
    )
}

/// The model of a whole-record layout.
pub open spec fn record_view(d: RecordDType) -> SpecRecordDType {
    match d {
        RecordDType::Simple(t) => SpecRecordDType::Simple(t@),
        RecordDType::Structured(fs) => SpecRecordDType::Structured(field_views(fs@)),
    }
}

impl View for RecordDType {
    type V = SpecRecordDType;

    open spec fn view(&self) -> SpecRecordDType {
        record_view(*self)
    }
}

/// Decimal digits of `n`, most significant first.
pub open spec fn spec_dec_u64(n: u64) -> Seq<char>
    decreases n,
{
    if n < 10 {
        seq![(((0x30 + n as int) as u8) as char)]
    } else {
        spec_dec_u64(n / 10).push((((0x30 + (n as int) % 10) as u8) as char))
    }
}

/// Shape text inside its parentheses: each extent as bare decimal
/// digits followed by a comma, the last included.
pub open spec fn spec_shape_descr_from(shape: Seq<u64>, k: int) -> Seq<char>
    decreases shape.len() - k,
{
    if k < 0 || k >= shape.len() {
        Seq::empty()
    } else {
        spec_dec_u64(shape[k]) + seq![','] + spec_shape_descr_from(shape, k + 1)
    }
}

/// Descriptor text of one named field: `('name', 'ty'), ` for a scalar
/// field, `('name', 'ty', (d0,d1,)), ` for one with a shape.
pub open spec fn spec_field_descr(name: Seq<char>, t: SpecDType) -> Seq<char> {
    if t.shape.len() == 0 {
        seq!['(', '\''] + name + seq!['\'', ',', ' ', '\''] + t.ty + seq!['\'', ')', ',', ' ']
    } else {
        seq!['(', '\''] + name + seq!['\'', ',', ' ', '\''] + t.ty + seq!['\'', ',', ' ', '(']
            + spec_shape_descr_from(t.shape, 0) + seq![')', ')', ',', ' ']
    }
}

/// Descriptor text of the fields of a structured record, in order.
pub open spec fn spec_fields_descr_from(fs: Seq<(Seq<char>, SpecDType)>, k: int) -> Seq<char>
    decreases fs.len() - k,
{
    if k < 0 || k >= fs.len() {
        Seq::empty()
    } else {
        spec_field_descr(fs[k].0, fs[k].1) + spec_fields_descr_from(fs, k + 1)
    }
}

/// The exact descriptor text of a whole-record layout: a single-quoted
/// type string for a plain array, a bracketed field list for a record.
pub open spec fn spec_descr(d: SpecRecordDType) -> Seq<char> {
    match d {
        SpecRecordDType::Simple(t) => seq!['\''] + t.ty + seq!['\''],
        SpecRecordDType::Structured(fs) => seq!['['] + spec_fields_descr_from(fs, 0) + seq![']'],
    }
}

fn dec_u64(n: u64) -> (r: String)
    ensures
        r@ == spec_dec_u64(n),
    decreases n,
{
    if n < 10 {
        let mut out = String::new();
        push_char(&mut out, (0x30 + n as u8) as char);
        proof {
            assert(out@ =~= spec_dec_u64(n));
        }
        out
    } else {
        let mut out = dec_u64(n / 10);
        push_char(&mut out, (0x30 + (n % 10) as u8) as char);
        proof {
            assert(out@ =~= spec_dec_u64(n));
        }
        out
    }
}

fn shape_descr(shape: &Vec<u64>) -> (r: String)
    ensures
        r@ == spec_shape_descr_from(shape@, 0),
{
    let mut out = String::new();
    let mut j: usize = 0;
    while j < shape.len()
        invariant
            j <= shape@.len(),
            spec_shape_descr_from(shape@, 0) == out@ + spec_shape_descr_from(shape@, j as int),
        decreases shape@.len() - j,
    {
        let ghost prev = out@;
        let digits = dec_u64(shape[j]);
        out.append(digits.as_str());
        push_char(&mut out, ',');
        proof {
            assert(out@ =~= prev + (spec_dec_u64(shape@[j as int]) + seq![',']));
            assert(prev + (spec_dec_u64(shape@[j as int]) + seq![','] + spec_shape_descr_from(
                shape@,
                j as int + 1,
            )) =~= out@ + spec_shape_descr_from(shape@, j as int + 1));
        }
        j += 1;
    }
    proof {
        assert(spec_shape_descr_from(shape@, 0) =~= out@ + spec_shape_descr_from(
            shape@,
            shape@.len() as int,
        ));
        assert(spec_shape_descr_from(shape@, 0) =~= out@);
    }
    out
}

fn field_descr(name: &String, t: &DType) -> (r: String)
    ensures
        r@ == spec_field_descr(name@, t@),
{
    let mut out = String::new();
    push_char(&mut out, '(');
    push_char(&mut out, '\'');
    out.append(name.as_str());
    push_char(&mut out, '\'');
    push_char(&mut out, ',');
    push_char(&mut out, ' ');
    push_char(&mut out, '\'');
    out.append(t.ty.as_str());
    push_char(&mut out, '\'');
    if t.shape.len() > 0 {
        push_char(&mut out, ',');
        push_char(&mut out, ' ');
        push_char(&mut out, '(');
        let sh = shape_descr(&t.shape);
        out.append(sh.as_str());
        push_char(&mut out, ')');
        push_char(&mut out, ')');
        push_char(&mut out, ',');
        push_char(&mut out, ' ');
        proof {
            assert(out@ =~= spec_field_descr(name@, t@));
        }
    } else {
        push_char(&mut out, ')');
        push_char(&mut out, ',');
        push_char(&mut out, ' ');
        proof {
            assert(out@ =~= spec_field_descr(name@, t@));
        }
    }
    out
}

impl RecordDType {
    /// Header-format descriptor text of this record layout: what the
    /// `descr` entry of a written header holds, character for character.
    pub fn descr(&self) -> (r: String)
        ensures
            r@ == spec_descr(self@),
    {
        match self {
            RecordDType::Simple(t) => {
                let mut out = String::new();
                push_char(&mut out, '\'');
                out.append(t.ty.as_str());
                push_char(&mut out, '\'');
                proof {
                    assert(out@ =~= spec_descr(self@));
                }
                out
            },
            RecordDType::Structured(fs) => {
                let ghost gfs = field_views(fs@);
                let mut out = String::new();
                push_char(&mut out, '[');
                let mut i: usize = 0;
                while i < fs.len()
                    invariant
                        i <= fs@.len(),
                        gfs == field_views(fs@),
                        out@.len() >= 1,
                        out@ == seq!['['] + spec_fields_descr_from(gfs, 0).take(
                            out@.len() - 1,
                        ),
                        spec_fields_descr_from(gfs, 0) == out@.skip(1)
                            + spec_fields_descr_from(gfs, i as int),
                    decreases fs@.len() - i,
                {
                    let ghost prev = out@;
                    let fd = field_descr(&fs[i].0, &fs[i].1);
                    out.append(fd.as_str());
                    proof {
                        assert(gfs[i as int] == (fs@[i as int].0@, fs@[i as int].1@));
                        assert(spec_fields_descr_from(gfs, i as int) == spec_field_descr(
                            gfs[i as int].0,
                            gfs[i as int].1,
                        ) + spec_fields_descr_from(gfs, i as int + 1));
                        assert(out@.skip(1) =~= prev.skip(1) + fd@);
                        assert(spec_fields_descr_from(gfs, 0) =~= out@.skip(1)
                            + spec_fields_descr_from(gfs, i as int + 1));
                        assert(out@ =~= seq!['['] + spec_fields_descr_from(gfs, 0).take(
                            out@.len() - 1,
                        ));
                    }
                    i += 1;
                }
                proof {
                    assert(spec_fields_descr_from(gfs, fs@.len() as int) =~= Seq::<char>::empty());
                    assert(spec_fields_descr_from(gfs, 0) =~= out@.skip(1));
                }
                push_char(&mut out, ']');
                proof {
                    assert(out@ =~= seq!['['] + spec_fields_descr_from(gfs, 0) + seq![']']);
                }
                out
            },
        }
    }
}


/// One structured-field entry read back from a descriptor value: a
/// list of at least two elements whose first two are the field name and
/// the type string. The read-back path carries no per-field shape.
pub open spec fn spec_field_from(v: SpecValue) -> Result<(Seq<char>, SpecDType), HeaderError> {
    match v {
        SpecValue::List(f) => if f.len() >= 2 && f[0] is Str && f[1] is Str {
            Ok((f[0]->Str_0, SpecDType { ty: f[1]->Str_0, shape: Seq::empty() }))
        } else {
            Err(HeaderError::MalformedField)
        },
        _ => Err(HeaderError::MalformedField),
    }
}

/// The structured fields read back from the descriptor entries from
/// index `k` on; the first malformed entry decides the error.
pub open spec fn spec_fields_from(entries: Seq<SpecValue>, k: int) -> Result<
    Seq<(Seq<char>, SpecDType)>,
    HeaderError,
>
    decreases entries.len() - k,
{
    if k < 0 || k >= entries.len() {
        Ok(Seq::empty())
    } else {
        match spec_field_from(entries[k]) {
            Err(e) => Err(e),
            Ok(p) => match spec_fields_from(entries, k + 1) {
                Err(e) => Err(e),
                Ok(ps) => Ok(seq![p] + ps),
            },
        }
    }
}

/// What `from_descr` owes for every descriptor value: a string becomes
/// a simple layout with empty shape; a list becomes a structured layout
/// entry by entry; anything else is an unsupported descriptor.
pub open spec fn spec_from_descr(v: SpecValue) -> Result<SpecRecordDType, HeaderError> {
    match v {
        SpecValue::Str(s) => Ok(
            SpecRecordDType::Simple(SpecDType { ty: s, shape: Seq::empty() }),
        ),
        SpecValue::List(entries) => match spec_fields_from(entries, 0) {
            Ok(fs) => Ok(SpecRecordDType::Structured(fs)),
            Err(e) => Err(e),
        },
        _ => Err(HeaderError::UnsupportedDescriptor),
    }
}

fn convert_field(field: &Vec<Value>) -> (r: Result<(String, DType), HeaderError>)
    ensures
        (match r {
            Ok(p) => spec_field_from(SpecValue::List(views_of(field@))) == Ok::<
                _,
                HeaderError,
            >((p.0@, p.1@)),
            Err(e) => spec_field_from(SpecValue::List(views_of(field@))) == Err::<
                (Seq<char>, SpecDType),
                _,
            >(e),
        }),
{
    if field.len() < 2 {
        return Err(HeaderError::MalformedField);
    }
    match (&field[0], &field[1]) {
        (Value::String(id), Value::String(t)) => {
            let p = (id.clone(), DType { ty: t.clone(), shape: Vec::new() });
            proof {
                assert(views_of(field@)[0] == value_view(field@[0]));
                assert(views_of(field@)[1] == value_view(field@[1]));
            }
            Ok(p)
        },
        _ => {
            proof {
                assert(views_of(field@)[0] == value_view(field@[0]));
                assert(views_of(field@)[1] == value_view(field@[1]));
            }
            Err(HeaderError::MalformedField)
        },
    }
}

fn from_list(values: &Vec<Value>) -> (r: Result<Vec<(String, DType)>, HeaderError>)
    ensures
        (match r {
            Ok(fs) => spec_fields_from(views_of(values@), 0) == Ok::<_, HeaderError>(
                field_views(fs@),
            ),
            Err(e) => spec_fields_from(views_of(values@), 0) == Err::<
                Seq<(Seq<char>, SpecDType)>,
                _,
            >(e),
        }),
{
    let ghost ev = views_of(values@);
    let mut fields: Vec<(String, DType)> = Vec::new();
    let mut i: usize = 0;
    while i < values.len()
        invariant
            i <= values@.len(),
            ev == views_of(values@),
            spec_fields_from(ev, 0) == (match spec_fields_from(ev, i as int) {
                Ok(fs) => Ok::<_, HeaderError>(field_views(fields@) + fs),
                Err(e) => Err::<Seq<(Seq<char>, SpecDType)>, _>(e),
            }),
        decreases values@.len() - i,
    {
        proof {
            assert(ev[i as int] == value_view(values@[i as int]));
        }
        match &values[i] {
            Value::List(f) => {
                proof {
                    assert(ev[i as int]->List_0 =~= views_of(f@));
                }
                match convert_field(f) {
                    Ok(p) => {
                        let ghost prev = fields@;
                        let ghost pv = (p.0@, p.1@);
                        fields.push(p);
                        proof {
                            assert(spec_field_from(ev[i as int]) == Ok::<_, HeaderError>(pv));
                            assert(field_views(fields@) =~= field_views(prev) + seq![pv]);
                            if spec_fields_from(ev, i as int + 1) is Ok {
                                let fs2 = spec_fields_from(ev, i as int + 1)->Ok_0;
                                assert(field_views(prev) + (seq![pv] + fs2) =~= field_views(
                                    fields@,
                                ) + fs2);
                            }
                        }
                    },
                    Err(e) => {
                        return Err(e);
                    },
                }
            },
            _ => {
                return Err(HeaderError::MalformedField);
            },
        }
        i += 1;
    }
    proof {
        assert(field_views(fields@) + Seq::<(Seq<char>, SpecDType)>::empty() =~= field_views(
            fields@,
        ));
    }
    Ok(fields)
}

impl RecordDType {
    /// Read a record layout back from a parsed descriptor value.
    pub fn from_descr(descr: Value) -> (r: Result<RecordDType, HeaderError>)
        ensures
            (match r {
                Ok(d) => spec_from_descr(value_view(descr)) == Ok::<SpecRecordDType, HeaderError>(
                    d@,
                ),
                Err(e) => spec_from_descr(value_view(descr)) == Err::<SpecRecordDType, HeaderError>(
                    e,
                ),
            }),
    {
        match descr {
            Value::String(s) => Ok(RecordDType::Simple(DType { ty: s, shape: Vec::new() })),
            Value::List(entries) => {
                proof {
                    assert(value_view(descr)->List_0 =~= views_of(entries@));
                }
                match from_list(&entries) {
                    Ok(fields) => Ok(RecordDType::Structured(fields)),
                    Err(e) => Err(e),
                }
            },
            _ => Err(HeaderError::UnsupportedDescriptor),
        }
    }
}


/// The descriptor value a writer synthesizes for one named field: a
/// 2-tuple `(name, ty)` for a scalar field, a 3-tuple with the shape as
/// a list of integers otherwise. Extents are written with the wrapping
/// 64-bit signed cast.
pub open spec fn spec_to_value(t: SpecDType, name: Seq<char>) -> SpecValue {
    if t.shape.len() == 0 {
        SpecValue::List(seq![SpecValue::Str(name), SpecValue::Str(t.ty)])
    } else {
        SpecValue::List(
            seq![
                SpecValue::Str(name),
                SpecValue::Str(t.ty),
                SpecValue::List(
                    Seq::new(t.shape.len(), |i: int| SpecValue::Int(t.shape[i] as i64)),
                ),
            ],
        )
    }
}

/// Build the descriptor value for one named field; the verified
/// contract lives here, and the `DTypeToValue` impl delegates to it.
pub fn dtype_to_value(t: &DType, name: &str) -> (r: Value)
    ensures
        r@ == spec_to_value(t@, name@),
{
    let mut items: Vec<Value> = Vec::new();
    items.push(Value::String(name.to_owned()));
    items.push(Value::String(t.ty.clone()));
    if t.shape.len() == 0 {
        let v = Value::List(items);
        proof {
            assert(value_view(items@[0]) == SpecValue::Str(name@));
            assert(value_view(items@[1]) == SpecValue::Str(t.ty@));
            assert(v@->List_0 =~= seq![SpecValue::Str(name@), SpecValue::Str(t.ty@)]);
        }
        v
    } else {
        let mut dims: Vec<Value> = Vec::new();
        let mut j: usize = 0;
        while j < t.shape.len()
            invariant
                j <= t.shape@.len(),
                dims@.len() == j,
                forall|k: int|
                    0 <= k < j ==> dims@[k] == Value::Integer(
                        #[trigger] (t.shape@[k] as i64),
                    ),
            decreases t.shape@.len() - j,
        {
            dims.push(Value::Integer(#[verifier::truncate] (t.shape[j] as i64)));
            j += 1;
        }
        let dlist = Value::List(dims);
        proof {
            assert forall|k: int| 0 <= k < dims@.len() implies value_view(dims@[k])
                == SpecValue::Int(t.shape@[k] as i64) by {
                assert(dims@[k] == Value::Integer(t.shape@[k] as i64));
            }
            assert(dlist@->List_0 =~= Seq::new(
                t.shape@.len(),
                |i: int| SpecValue::Int(t.shape@[i] as i64),
            ));
        }
        let ghost gdl = dlist@;
        items.push(dlist);
        let v = Value::List(items);
        proof {
            assert(value_view(items@[0]) == SpecValue::Str(name@));
            assert(value_view(items@[1]) == SpecValue::Str(t.ty@));
            assert(value_view(items@[2]) == gdl);
            assert(v@->List_0 =~= seq![
                SpecValue::Str(name@),
                SpecValue::Str(t.ty@),
                SpecValue::List(
                    Seq::new(t.shape@.len(), |i: int| SpecValue::Int(t.shape@[i] as i64)),
                ),
            ]);
        }
        v
    }
}

/// Synthesizing a descriptor value from a typed field is kept on its
/// own trait so that the conversion is not part of the type's inherent
/// surface.
pub trait DTypeToValue {
    fn to_value(&self, name: &str) -> Value;
}

impl DTypeToValue for DType {
    fn to_value(&self, name: &str) -> Value {
        dtype_to_value(self, name)
    }
}

} // verus!
