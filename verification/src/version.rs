//! The protocol version: a closed enumeration of five labels.  Any other
//! textual label is a parse error, never a value.

use vstd::prelude::*;
use crate::ascii::chars_of;
use crate::errors::HttpError;
use crate::errors::SpecError;

verus! {

/// A protocol version.  Only these five labels exist; version 1.1 is the
/// one the codec frames on the wire, the others are recognized as labels.
#[derive(Clone, Copy, PartialEq, Eq, Structural, Debug)]
pub enum Version {
    Http09,
    Http10,
    Http11,
    Http2,
    Http3,
}

/// The wire label of a version, e.g. `HTTP/1.1`.
pub open spec fn version_label(v: Version) -> Seq<u8> {
    match v {
        Version::Http09 => seq![72u8, 84, 84, 80, 47, 48, 46, 57],
        Version::Http10 => seq![72u8, 84, 84, 80, 47, 49, 46, 48],
        Version::Http11 => seq![72u8, 84, 84, 80, 47, 49, 46, 49],
        Version::Http2 => seq![72u8, 84, 84, 80, 47, 50, 46, 48],
        Version::Http3 => seq![72u8, 84, 84, 80, 47, 51, 46, 48],
    }
}

/// Which version a textual label denotes, if any: the label must match the
/// closed enumeration exactly.
pub open spec fn version_of(s: Seq<u8>) -> Option<Version> {
    if s == version_label(Version::Http09) {
        Some(Version::Http09)
    } else if s == version_label(Version::Http10) {
        Some(Version::Http10)
    } else if s == version_label(Version::Http11) {
        Some(Version::Http11)
    } else if s == version_label(Version::Http2) {
        Some(Version::Http2)
    } else if s == version_label(Version::Http3) {
        Some(Version::Http3)
    } else {
        None
    }
}

/// The wire label of a version as bytes.
pub fn version_label_bytes(v: &Version) -> (r: Vec<u8>)
    ensures
        r@ == version_label(*v),
{
    let mut out: Vec<u8> = Vec::new();
    out.push(72);
    out.push(84);
    out.push(84);
    out.push(80);
    out.push(47);
    match v {
        Version::Http09 => {
            out.push(48);
            out.push(46);
            out.push(57);
        },
        Version::Http10 => {
            out.push(49);
            out.push(46);
            out.push(48);
        },
        Version::Http11 => {
            out.push(49);
            out.push(46);
            out.push(49);
        },
        Version::Http2 => {
            out.push(50);
            out.push(46);
            out.push(48);
        },
        Version::Http3 => {
            out.push(51);
            out.push(46);
            out.push(48);
        },
    }
    proof {
        assert(out@ =~= version_label(*v));
    }
    out
}

/// Interprets a version label, or reports it as unknown, carrying the
/// offending label.
pub fn version_from_str(v: &[u8]) -> (r: Result<Version, HttpError>)
    ensures
        (match version_of(v@) {
            Some(ver) => r matches Ok(x) && x == ver,
            None => r matches Err(e) && e@ == SpecError::UnknownVersion(chars_of(v@)),
        }),
{
    if v.len() == 8 && v[0] == 72 && v[1] == 84 && v[2] == 84 && v[3] == 80 && v[4] == 47 && v[6]
        == 46 {
        if v[5] == 48 && v[7] == 57 {
            proof {
                assert(v@ =~= version_label(Version::Http09));
            }
            return Ok(Version::Http09);
        }
        if v[5] == 49 && v[7] == 48 {
            proof {
                assert(v@ =~= version_label(Version::Http10));
            }
            return Ok(Version::Http10);
        }
        if v[5] == 49 && v[7] == 49 {
            proof {
                assert(v@ =~= version_label(Version::Http11));
            }
            return Ok(Version::Http11);
        }
        if v[5] == 50 && v[7] == 48 {
            proof {
                assert(v@ =~= version_label(Version::Http2));
            }
            return Ok(Version::Http2);
        }
        if v[5] == 51 && v[7] == 48 {
            proof {
                assert(v@ =~= version_label(Version::Http3));
            }
            return Ok(Version::Http3);
        }
    }
    Err(HttpError::UnknownVersion(crate::ascii::bytes_to_string(v)))
}

} // verus!
