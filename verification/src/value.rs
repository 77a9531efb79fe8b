use vstd::prelude::*;

verus! {

broadcast use vstd::std_specs::vec::group_vec_axioms;

/// A parsed literal-language value: the generic AST that header text
/// is parsed into. Bracketed lists and parenthesized tuples both
/// become `List`; the textual forms are not distinguished.
#[derive(PartialEq, Eq, Debug)]
pub enum Value {
    String(String),
    Integer(i64),
    Bool(bool),
    List(Vec<Value>),
    Dict(Vec<(String, Value)>),
}

/// Mathematical model of a `Value` tree.
pub enum SpecValue {
    Str(Seq<char>),
    Int(i64),
    Bool(bool),
    List(Seq<SpecValue>),
    Dict(Seq<(Seq<char>, SpecValue)>),
}

/// The model of one parsed value.
pub open spec fn value_view(v: Value) -> SpecValue
    decreases v,
{
    match v {
        Value::String(s) => SpecValue::Str(s@),
        Value::Integer(i) => SpecValue::Int(i),
        Value::Bool(b) => SpecValue::Bool(b),
        Value::List(vs) => SpecValue::List(
            Seq::new(
                vs.len() as nat,
                |i: int|
                    if 0 <= i < vs.len() {
                        value_view(vs[i])
                    } else {
                        SpecValue::Bool(false)
                    },
            ),
        ),
        Value::Dict(ps) => SpecValue::Dict(
            Seq::new(
                ps.len() as nat,
                |i: int|
                    if 0 <= i < ps.len() {
                        (ps[i].0@, value_view(ps[i].1))
                    } else {
                        (Seq::empty(), SpecValue::Bool(false))
                    },
            ),
        ),
    }
}

impl View for Value {
    type V = SpecValue;

    open spec fn view(&self) -> SpecValue {
        value_view(*self)
    }
}

/// Everything that can go wrong while reading a header.
#[derive(PartialEq, Eq, Debug, Clone)]
pub enum HeaderError {
    /// The first six bytes are not the fixed signature.
    InvalidMagic,
    /// The version pair is outside the supported set; carries (major, minor).
    UnsupportedVersion(u8, u8),
    /// Fewer bytes are available than the declared header length needs.
    TruncatedInput,
    /// The header text violates the literal-language grammar; carries a byte offset.
    SyntaxError(usize),
    /// A structured-field entry has the wrong shape, arity or types.
    MalformedField,
    /// The descriptor value is neither a type string nor a list of fields.
    UnsupportedDescriptor,
}

} // verus!
