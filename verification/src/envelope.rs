//! The binary envelope around the header text: a fixed signature, a
//! version pair, a little-endian 16-bit header length, then that many
//! bytes of literal-language text which must parse as one item.
use vstd::prelude::*;
use vstd::slice::slice_subrange;

use crate::parser::spec_parse_value_complete;
use crate::value::HeaderError;
use crate::value::SpecValue;
use crate::value::Value;

verus! {

/// The six signature bytes: the sentinel, then the ASCII format tag.
pub open spec fn spec_magic() -> Seq<u8> {
    seq![0x93u8, 0x4e, 0x55, 0x4d, 0x50, 0x59]
}

/// Every available byte of the six-byte signature matches.
pub open spec fn magic_prefix_ok(s: Seq<u8>) -> bool {
    forall|i: int| 0 <= i < 6 && i < s.len() ==> s[i] == spec_magic()[i]
}

/// The declared header length: an unsigned little-endian 16-bit value.
pub open spec fn spec_header_len(s: Seq<u8>) -> int {
    s[8] + 256 * (s[9] as int)
}

/// The whole envelope is present and supported: full signature,
/// version exactly (1, 0), and as many bytes after the length field as
/// it declares.
pub open spec fn spec_envelope_ok(s: Seq<u8>) -> bool {
    &&& magic_prefix_ok(s)
    &&& s.len() >= 10
    &&& s[6] == 1
    &&& s[7] == 0
    &&& s.len() >= 10 + spec_header_len(s)
}

/// The header text region of a buffer with a valid envelope.
pub open spec fn spec_header_body(s: Seq<u8>) -> Seq<u8> {
    s.subrange(10, 10 + spec_header_len(s))
}

/// What a successful header parse returns: the header value and the
/// total count of bytes consumed by envelope plus header text, where
/// the payload begins.
pub open spec fn spec_parse_header(s: Seq<u8>) -> Option<(SpecValue, int)> {
    if spec_envelope_ok(s) {
        match spec_parse_value_complete(spec_header_body(s)) {
            Option::Some(v) => Option::Some((v, 10 + spec_header_len(s))),
            Option::None => Option::None,
        }
    } else {
        Option::None
    }
}

/// Which error a failed header parse owes, for each way a buffer can
/// be wrong. The cases are mutually exclusive: a signature mismatch
/// within the available bytes is `InvalidMagic`; a buffer that runs out
/// while still matching is `TruncatedInput`; a full envelope whose
/// version pair is not (1, 0) is `UnsupportedVersion` carrying that
/// pair; a declared length past the end of the buffer is
/// `TruncatedInput`; and header text that the grammar rejects is a
/// `SyntaxError`.
pub open spec fn spec_header_error_ok(s: Seq<u8>, e: HeaderError) -> bool {
    match e {
        HeaderError::InvalidMagic => !magic_prefix_ok(s),
        HeaderError::UnsupportedVersion(major, minor) => magic_prefix_ok(s) && s.len() >= 8 && (s[6]
            != 1 || s[7] != 0) && major == s[6] && minor == s[7],
        HeaderError::TruncatedInput => magic_prefix_ok(s) && (s.len() < 8 || (s[6] == 1 && s[7] == 0
            && (s.len() < 10 || s.len() < 10 + spec_header_len(s)))),
        HeaderError::SyntaxError(_) => spec_envelope_ok(s) && spec_parse_value_complete(
            spec_header_body(s),
        ) is None,
        _ => false,
    }
}

/// Read and validate the envelope at the start of `bs`, then parse the
/// header text it delimits. Returns the header value and the offset of
/// the payload.
pub fn parse_header(bs: &[u8]) -> (r: Result<(Value, usize), HeaderError>)
    ensures
        (match r {
            Ok((v, consumed)) => spec_parse_header(bs@) == Option::Some((v@, consumed as int)),
            Err(e) => spec_parse_header(bs@) is None && spec_header_error_ok(bs@, e),
        }),
{
    let n = bs.len();
    if n >= 1 && bs[0] != 0x93 {
        return Err(HeaderError::InvalidMagic);
    }
    if n >= 2 && bs[1] != 0x4e {
        return Err(HeaderError::InvalidMagic);
    }
    if n >= 3 && bs[2] != 0x55 {
        return Err(HeaderError::InvalidMagic);
    }
    if n >= 4 && bs[3] != 0x4d {
        return Err(HeaderError::InvalidMagic);
    }
    if n >= 5 && bs[4] != 0x50 {
        return Err(HeaderError::InvalidMagic);
    }
    if n >= 6 && bs[5] != 0x59 {
        return Err(HeaderError::InvalidMagic);
    }
    if n < 8 {
        return Err(HeaderError::TruncatedInput);
    }
    if bs[6] != 1 || bs[7] != 0 {
        return Err(HeaderError::UnsupportedVersion(bs[6], bs[7]));
    }
    if n < 10 {
        return Err(HeaderError::TruncatedInput);
    }
    let l: usize = bs[8] as usize + 256 * (bs[9] as usize);
    if n - 10 < l {
        return Err(HeaderError::TruncatedInput);
    }
    let body = slice_subrange(bs, 10, 10 + l);
    match crate::parser::parse_value(body) {
        Ok(v) => Ok((v, 10 + l)),
        Err(e) => {
            match e {
                HeaderError::SyntaxError(off) => Err(HeaderError::SyntaxError(10 + off)),
                _ => Err(e),
            }
        },
    }
}

} // verus!
