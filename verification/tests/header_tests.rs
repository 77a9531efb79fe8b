use npy_header::dtype::DType;
use npy_header::dtype::DTypeToValue;
use npy_header::dtype::RecordDType;
use npy_header::envelope::parse_header;
use npy_header::parser;
use npy_header::value::HeaderError;
use npy_header::value::Value;

#[test]
fn description_of_record_array_as_python_list_of_tuples() {
    let dtype = RecordDType::Structured(vec![
        (
            "float".to_string(),
            DType {
                ty: ">f4".to_string(),
                shape: vec![],
            },
        ),
        (
            "byte".to_string(),
            DType {
                ty: "<u1".to_string(),
                shape: vec![],
            },
        ),
    ]);
    let expected = "[('float', '>f4'), ('byte', '<u1'), ]";
    assert_eq!(dtype.descr(), expected);
}

#[test]
fn description_of_unstructured_primitive_array() {
    let dtype = RecordDType::Simple(DType {
        ty: ">f8".to_string(),
        shape: vec![],
    });
    assert_eq!(dtype.descr(), "'>f8'");
}

#[test]
fn converts_simple_description_to_record_dtype() {
    let dtype = ">f8".to_string();
    assert_eq!(
        RecordDType::from_descr(Value::String(dtype.clone())).unwrap(),
        RecordDType::Simple(DType {
            ty: dtype,
            shape: vec![]
        })
    );
}

#[test]
fn converts_record_description_to_record_dtype() {
    let descr = parser::item(b"[('a', '<u2'), ('b', '<f4')]").unwrap().0;
    let expected_dtype = RecordDType::Structured(vec![
        (
            "a".to_string(),
            DType {
                ty: "<u2".to_string(),
                shape: vec![],
            },
        ),
        (
            "b".to_string(),
            DType {
                ty: "<f4".to_string(),
                shape: vec![],
            },
        ),
    ]);
    assert_eq!(RecordDType::from_descr(descr).unwrap(), expected_dtype);
}

#[test]
fn record_description_parses_to_expected_value_tree() {
    let (v, consumed) = parser::item(b"[('a', '<u2'), ('b', '<f4')]").unwrap();
    assert_eq!(consumed, 28);
    assert_eq!(
        v,
        Value::List(vec![
            Value::List(vec![
                Value::String("a".to_string()),
                Value::String("<u2".to_string()),
            ]),
            Value::List(vec![
                Value::String("b".to_string()),
                Value::String("<f4".to_string()),
            ]),
        ])
    );
}

#[test]
fn empty_and_single_element_parens_parse_as_lists() {
    let (v, _) = parser::item(b"()").unwrap();
    assert_eq!(v, Value::List(vec![]));
    let (v, _) = parser::item(b"(4)").unwrap();
    assert_eq!(v, Value::List(vec![Value::Integer(4)]));
}

#[test]
fn whitespace_around_tokens_is_ignored() {
    let (v, _) = parser::item(b"  True").unwrap();
    assert_eq!(v, Value::Bool(true));
    assert_eq!(parser::parse_value(b"False ").unwrap(), Value::Bool(false));
    assert_eq!(parser::parse_value(b"False").unwrap(), Value::Bool(false));
    let (padded, _) = parser::item(b" [5 , 6 , 7]").unwrap();
    let (bare, _) = parser::item(b"[5,6,7]").unwrap();
    assert_eq!(padded, bare);
    assert_eq!(
        bare,
        Value::List(vec![
            Value::Integer(5),
            Value::Integer(6),
            Value::Integer(7)
        ])
    );
}

#[test]
fn trailing_comma_in_lists_is_accepted() {
    let (v, _) = parser::item(b" (1 , 2 ,)").unwrap();
    assert_eq!(v, Value::List(vec![Value::Integer(1), Value::Integer(2)]));
}

#[test]
fn integers_parse_with_sign_and_fail_on_overflow() {
    let (v, _) = parser::item(b"1234  ").unwrap();
    assert_eq!(v, Value::Integer(1234));
    let (v, _) = parser::item(b"-42").unwrap();
    assert_eq!(v, Value::Integer(-42));
    let (v, _) = parser::item(b"9223372036854775807").unwrap();
    assert_eq!(v, Value::Integer(i64::MAX));
    let (v, _) = parser::item(b"-9223372036854775808").unwrap();
    assert_eq!(v, Value::Integer(i64::MIN));
    assert!(parser::item(b"9223372036854775808").is_err());
    assert!(parser::item(b"99999999999999999999999").is_err());
    assert!(parser::item(b"-").is_err());
}

#[test]
fn strings_parse_with_either_quote() {
    let (v, _) = parser::item(br#" "Hello"   "#).unwrap();
    assert_eq!(v, Value::String("Hello".to_string()));
    let (v, _) = parser::item(br#" 'World!'   "#).unwrap();
    assert_eq!(v, Value::String("World!".to_string()));
    let (v, _) = parser::item(b"''").unwrap();
    assert_eq!(v, Value::String(String::new()));
    assert!(matches!(
        parser::item(b"'unterminated"),
        Err(HeaderError::SyntaxError(_))
    ));
}

#[test]
fn dictionaries_keep_entry_order() {
    let (v, _) = parser::item(b"{'a': 1, 'b': [2, 3], }").unwrap();
    assert_eq!(
        v,
        Value::Dict(vec![
            ("a".to_string(), Value::Integer(1)),
            (
                "b".to_string(),
                Value::List(vec![Value::Integer(2), Value::Integer(3)])
            ),
        ])
    );
}

#[test]
fn unknown_tokens_and_unbalanced_delimiters_fail() {
    assert!(matches!(
        parser::item(b"@"),
        Err(HeaderError::SyntaxError(_))
    ));
    assert!(matches!(
        parser::item(b"[1, 2"),
        Err(HeaderError::SyntaxError(_))
    ));
    assert!(matches!(
        parser::parse_value(b"[1] x"),
        Err(HeaderError::SyntaxError(_))
    ));
}

#[test]
fn from_descr_rejects_unsupported_and_malformed() {
    assert_eq!(
        RecordDType::from_descr(Value::Integer(3)),
        Err(HeaderError::UnsupportedDescriptor)
    );
    assert_eq!(
        RecordDType::from_descr(Value::Bool(true)),
        Err(HeaderError::UnsupportedDescriptor)
    );
    assert_eq!(
        RecordDType::from_descr(Value::Dict(vec![])),
        Err(HeaderError::UnsupportedDescriptor)
    );
    assert_eq!(
        RecordDType::from_descr(Value::List(vec![Value::Integer(1)])),
        Err(HeaderError::MalformedField)
    );
    assert_eq!(
        RecordDType::from_descr(Value::List(vec![Value::List(vec![Value::String(
            "a".to_string()
        )])])),
        Err(HeaderError::MalformedField)
    );
    assert_eq!(
        RecordDType::from_descr(Value::List(vec![Value::List(vec![
            Value::Integer(1),
            Value::String("<u2".to_string())
        ])])),
        Err(HeaderError::MalformedField)
    );
}

#[test]
fn descr_includes_field_shapes() {
    let dtype = RecordDType::Structured(vec![(
        "a".to_string(),
        DType {
            ty: "<f4".to_string(),
            shape: vec![2, 3],
        },
    )]);
    assert_eq!(dtype.descr(), "[('a', '<f4', (2,3,)), ]");
}

#[test]
fn descr_then_parse_then_from_descr_round_trips() {
    let dtype = RecordDType::Structured(vec![
        (
            "x".to_string(),
            DType {
                ty: "<i8".to_string(),
                shape: vec![],
            },
        ),
        (
            "y".to_string(),
            DType {
                ty: ">f4".to_string(),
                shape: vec![],
            },
        ),
    ]);
    let text = dtype.descr();
    let (value, consumed) = parser::item(text.as_bytes()).unwrap();
    assert_eq!(consumed, text.len());
    assert_eq!(RecordDType::from_descr(value).unwrap(), dtype);

    let simple = RecordDType::Simple(DType {
        ty: "<u1".to_string(),
        shape: vec![],
    });
    let text = simple.descr();
    let (value, _) = parser::item(text.as_bytes()).unwrap();
    assert_eq!(RecordDType::from_descr(value).unwrap(), simple);
}

#[test]
fn to_value_builds_descriptor_entries() {
    let scalar = DType {
        ty: "<i4".to_string(),
        shape: vec![],
    };
    assert_eq!(
        scalar.to_value("x"),
        Value::List(vec![
            Value::String("x".to_string()),
            Value::String("<i4".to_string()),
        ])
    );
    let shaped = DType {
        ty: ">f8".to_string(),
        shape: vec![5, 2],
    };
    assert_eq!(
        shaped.to_value("m"),
        Value::List(vec![
            Value::String("m".to_string()),
            Value::String(">f8".to_string()),
            Value::List(vec![Value::Integer(5), Value::Integer(2)]),
        ])
    );
}

fn good_header(text: &str) -> Vec<u8> {
    let mut buf = vec![0x93u8];
    buf.extend_from_slice(b"NUMPY");
    buf.push(1);
    buf.push(0);
    let len = text.len() as u16;
    buf.extend_from_slice(&len.to_le_bytes());
    buf.extend_from_slice(text.as_bytes());
    buf
}

#[test]
fn parse_header_reads_a_whole_header() {
    let text = "{'descr': '<f8', 'fortran_order': False, 'shape': (3, 4), }  ";
    let buf = good_header(text);
    let (value, consumed) = parse_header(&buf).unwrap();
    assert_eq!(consumed, 10 + text.len());
    assert_eq!(
        value,
        Value::Dict(vec![
            ("descr".to_string(), Value::String("<f8".to_string())),
            ("fortran_order".to_string(), Value::Bool(false)),
            (
                "shape".to_string(),
                Value::List(vec![Value::Integer(3), Value::Integer(4)])
            ),
        ])
    );
}

#[test]
fn parse_header_rejects_bad_envelopes() {
    let good = good_header("'x'");

    let mut wrong_first = good.clone();
    wrong_first[0] = 0x92;
    assert_eq!(parse_header(&wrong_first), Err(HeaderError::InvalidMagic));

    let mut wrong_tag = good.clone();
    wrong_tag[3] = b'X';
    assert_eq!(parse_header(&wrong_tag), Err(HeaderError::InvalidMagic));

    let mut wrong_version = good.clone();
    wrong_version[6] = 2;
    assert_eq!(
        parse_header(&wrong_version),
        Err(HeaderError::UnsupportedVersion(2, 0))
    );

    let mut too_short = good.clone();
    too_short[8] = 200;
    assert_eq!(parse_header(&too_short), Err(HeaderError::TruncatedInput));

    assert_eq!(parse_header(&good[..7]), Err(HeaderError::TruncatedInput));

    let mut bad_text = good.clone();
    let n = bad_text.len();
    bad_text[n - 1] = b'@';
    assert!(matches!(
        parse_header(&bad_text),
        Err(HeaderError::SyntaxError(_))
    ));
}
