//! The start-line and header parsers: the first line of a message is
//! interpreted as a request-line or a status-line, and the following lines
//! build the header map until a blank line ends them.

use vstd::prelude::*;
use crate::ascii::{
    all_token_bytes, all_value_bytes, bytes_to_string, chars_of, check_token_bytes,
    check_value_bytes,
};
use crate::errors::{HttpError, SpecError};
use crate::headers::{insert_spec, HeaderMap};
use crate::method::{method_from_bytes, method_of, Method};
use crate::source::{line_scan, read_line, lemma_line_scan_bounds, Source};
use crate::text::{find_byte, first_idx, split_fields, split_sp, trim_bytes, trim_ws, u16_parse_spec, parse_u16};
use crate::version::{version_from_str, version_of, Version};

verus! {

/// The fixed capacity of the line-scanning buffer, in bytes: a line whose
/// content exceeds it is a hard error.
pub const LINE_CAP: usize = 1024;

/// The parsed start line of a request: method, target and version.
#[derive(Debug)]
pub struct HttpRequestVersion {
    pub version: Version,
    pub uri: String,
    pub method: Method,
}

/// The parsed start line of a response: version and status code.
#[derive(Debug)]
pub struct HttpResponseVersion {
    pub version: Version,
    pub status: u16,
}

/// How the first line parses as a request line, and how many bytes it
/// consumes: the line splits on single spaces into method token, target and
/// version label; fewer than three fields is malformed; the method must be
/// a known name and the version label one of the closed enumeration.
pub open spec fn request_line_spec(rem: Seq<u8>) -> (Result<
    (Method, Seq<char>, Version),
    SpecError,
>, int) {
    let scan = line_scan(rem, false);
    let c = scan.0;
    if c.len() > LINE_CAP {
        (Err(SpecError::BufferOverflow), scan.1)
    } else {
        let fs = split_sp(c);
        if fs.len() < 3 {
            (Err(SpecError::MalformedStartLine), scan.1)
        } else {
            match method_of(fs[0]) {
                None => (Err(SpecError::UnknownMethod(chars_of(fs[0]))), scan.1),
                Some(m) => match version_of(fs[2]) {
                    None => (Err(SpecError::UnknownVersion(chars_of(fs[2]))), scan.1),
                    Some(v) => (Ok((m, chars_of(fs[1]), v)), scan.1),
                },
            }
        }
    }
}

/// How the first line parses as a status line, and how many bytes it
/// consumes: version label, then a numeric status code; any trailing reason
/// phrase is ignored.
pub open spec fn status_line_spec(rem: Seq<u8>) -> (Result<(Version, u16), SpecError>, int) {
    let scan = line_scan(rem, false);
    let c = scan.0;
    if c.len() > LINE_CAP {
        (Err(SpecError::BufferOverflow), scan.1)
    } else {
        let fs = split_sp(c);
        match version_of(fs[0]) {
            None => (Err(SpecError::UnknownVersion(chars_of(fs[0]))), scan.1),
            Some(v) => if fs.len() < 2 {
                (Err(SpecError::MalformedStartLine), scan.1)
            } else {
                match u16_parse_spec(fs[1]) {
                    Err(msg) => (Err(SpecError::StatusParseError(msg)), scan.1),
                    Ok(st) => (Ok((v, st)), scan.1),
                }
            },
        }
    }
}

/// How one non-empty header line updates the accumulated entries: a line
/// without a colon is silently skipped; otherwise the bytes before the
/// first colon are the field name (un-trimmed) and the bytes after it,
/// trimmed of surrounding whitespace, are the field value.  The value must
/// be legal field content and the name a valid token.
pub open spec fn header_line_spec(c: Seq<u8>, acc: Seq<(Seq<char>, Seq<char>)>) -> Result<
    Seq<(Seq<char>, Seq<char>)>,
    SpecError,
> {
    match first_idx(c, 58) {
        None => Ok(acc),
        Some(p) => {
            let name = c.take(p);
            let value = trim_ws(c.skip(p + 1));
            if !all_value_bytes(value) {
                Err(SpecError::InvalidHeaderValue(chars_of(value)))
            } else if name.len() == 0 || !all_token_bytes(name) {
                Err(SpecError::InvalidHeaderName(chars_of(name)))
            } else {
                Ok(insert_spec(acc, chars_of(name), chars_of(value)))
            }
        },
    }
}

/// How the header section parses from the remaining bytes, starting from
/// the entries `acc`: lines are read until a zero-length line ends the
/// loop; each non-empty line updates the entries as [`header_line_spec`]
/// says.  The second component is the number of bytes consumed.
pub open spec fn headers_spec(rem: Seq<u8>, acc: Seq<(Seq<char>, Seq<char>)>) -> (Result<
    Seq<(Seq<char>, Seq<char>)>,
    SpecError,
>, int)
    decreases rem.len(),
    via headers_spec_decreases
{
    let scan = line_scan(rem, false);
    let c = scan.0;
    if c.len() > LINE_CAP {
        (Err(SpecError::BufferOverflow), scan.1)
    } else if c.len() == 0 {
        (Ok(acc), scan.1)
    } else {
        match header_line_spec(c, acc) {
            Err(e) => (Err(e), scan.1),
            Ok(acc2) => {
                let r = headers_spec(rem.skip(scan.1), acc2);
                (r.0, scan.1 + r.1)
            },
        }
    }
}

#[via_fn]
proof fn headers_spec_decreases(rem: Seq<u8>, acc: Seq<(Seq<char>, Seq<char>)>) {
    lemma_line_scan_bounds(rem, false);
}

/// Parses the first line of a request: `METHOD SP TARGET SP VERSION`.
pub fn parse_request_version(src: &mut Source) -> (r: Result<HttpRequestVersion, HttpError>)
    requires
        old(src).wf(),
    ensures
        final(src).wf(),
        final(src).data == old(src).data,
        old(src).pos <= final(src).pos,
        ({
            let spec = request_line_spec(old(src).remaining());
            match spec.0 {
                Ok(rl) => r matches Ok(x) && x.method == rl.0 && x.uri@ == rl.1 && x.version
                    == rl.2 && final(src).pos == old(src).pos + spec.1,
                Err(e) => r matches Err(err) && err@ == e,
            }
        }),
{
    let line = match read_line(src, LINE_CAP) {
        Ok(l) => l,
        Err(e) => {
            return Err(e);
        },
    };
    let fields = split_fields(line.as_slice());
    let ghost fs = split_sp(line@);
    proof {
        crate::text::lemma_split_sp_len(line@);
        assert(fields.deep_view().len() == fields@.len());
    }
    if fields.len() < 3 {
        return Err(HttpError::MalformedStartLine);
    }
    proof {
        assert(fields@[0].deep_view() =~= fields@[0]@);
        assert(fields@[1].deep_view() =~= fields@[1]@);
        assert(fields@[2].deep_view() =~= fields@[2]@);
        assert(fields@[0]@ == fs[0]);
        assert(fields@[1]@ == fs[1]);
        assert(fields@[2]@ == fs[2]);
    }
    let f0 = &fields[0];
    let method = match method_from_bytes(f0.as_slice()) {
        Ok(m) => m,
        Err(e) => {
            return Err(e);
        },
    };
    let f1 = &fields[1];
    let uri = bytes_to_string(f1.as_slice());
    let f2 = &fields[2];
    let version = match version_from_str(f2.as_slice()) {
        Ok(v) => v,
        Err(e) => {
            return Err(e);
        },
    };
    Ok(HttpRequestVersion { version, uri, method })
}

/// Parses the first line of a response: `VERSION SP STATUS [SP REASON]`.
pub fn parse_response_version(src: &mut Source) -> (r: Result<HttpResponseVersion, HttpError>)
    requires
        old(src).wf(),
    ensures
        final(src).wf(),
        final(src).data == old(src).data,
        old(src).pos <= final(src).pos,
        ({
            let spec = status_line_spec(old(src).remaining());
            match spec.0 {
                Ok(sl) => r matches Ok(x) && x.version == sl.0 && x.status == sl.1
                    && final(src).pos == old(src).pos + spec.1,
                Err(e) => r matches Err(err) && err@ == e,
            }
        }),
{
    let line = match read_line(src, LINE_CAP) {
        Ok(l) => l,
        Err(e) => {
            return Err(e);
        },
    };
    let fields = split_fields(line.as_slice());
    let ghost fs = split_sp(line@);
    proof {
        crate::text::lemma_split_sp_len(line@);
        assert(fields.deep_view().len() == fields@.len());
        assert(fields@[0].deep_view() =~= fields@[0]@);
        assert(fields@[0]@ == fs[0]);
    }
    let f0 = &fields[0];
    let version = match version_from_str(f0.as_slice()) {
        Ok(v) => v,
        Err(e) => {
            return Err(e);
        },
    };
    if fields.len() < 2 {
        return Err(HttpError::MalformedStartLine);
    }
    proof {
        assert(fields@[1].deep_view() =~= fields@[1]@);
        assert(fields@[1]@ == fs[1]);
    }
    let f1 = &fields[1];
    let status = match parse_u16(f1.as_slice()) {
        Ok(st) => st,
        Err(msg) => {
            return Err(HttpError::StatusParseError(msg));
        },
    };
    Ok(HttpResponseVersion { version, status })
}

/// Parses the header section: lines are read until a zero-length line ends
/// them; a line without a colon is skipped; every other line becomes one
/// header, the second value winning on a repeated name.
pub fn parse_header(src: &mut Source) -> (r: Result<HeaderMap, HttpError>)
    requires
        old(src).wf(),
    ensures
        final(src).wf(),
        final(src).data == old(src).data,
        old(src).pos <= final(src).pos,
        ({
            let spec = headers_spec(old(src).remaining(), Seq::<(Seq<char>, Seq<char>)>::empty());
            match spec.0 {
                Ok(hs) => r matches Ok(m) && m@ == hs && m.wf() && final(src).pos == old(src).pos
                    + spec.1,
                Err(e) => r matches Err(err) && err@ == e,
            }
        }),
{
    let mut map = HeaderMap::new();
    let ghost rem0 = old(src).remaining();
    loop
        invariant
            src.wf(),
            src.data == old(src).data,
            old(src).pos <= src.pos,
            map.wf(),
            rem0 == old(src).remaining(),
            headers_spec(rem0, Seq::<(Seq<char>, Seq<char>)>::empty()).0 == headers_spec(
                src.remaining(),
                map@,
            ).0,
            headers_spec(rem0, Seq::<(Seq<char>, Seq<char>)>::empty()).1 == src.pos - old(src).pos
                + headers_spec(src.remaining(), map@).1,
        decreases src.data@.len() - src.pos,
    {
        let ghost rem_pre = src.remaining();
        let ghost acc_pre = map@;
        let ghost scan = line_scan(rem_pre, false);
        proof {
            lemma_line_scan_bounds(rem_pre, false);
        }
        let line = match read_line(src, LINE_CAP) {
            Ok(l) => l,
            Err(e) => {
                return Err(e);
            },
        };
        if line.len() == 0 {
            return Ok(map);
        }
        proof {
            assert(src.remaining() =~= rem_pre.skip(scan.1));
        }
        let sep = find_byte(line.as_slice(), 58);
        match sep {
            None => {
                proof {
                    assert(header_line_spec(scan.0, acc_pre) == Ok::<_, SpecError>(acc_pre));
                }
            },
            Some(p) => {
                proof {
                    crate::text::lemma_first_idx(line@, 58);
                    assert(p < line@.len());
                }
                let name_slice = vstd::slice::slice_subrange(line.as_slice(), 0, p);
                let raw_value = vstd::slice::slice_subrange(line.as_slice(), p + 1, line.len());
                proof {
                    assert(name_slice@ =~= scan.0.take(p as int));
                    assert(raw_value@ =~= scan.0.skip(p as int + 1));
                }
                let value = trim_bytes(raw_value);
                if !check_value_bytes(value.as_slice()) {
                    return Err(HttpError::InvalidHeaderValue(bytes_to_string(value.as_slice())));
                }
                if p == 0 || !check_token_bytes(name_slice) {
                    return Err(HttpError::InvalidHeaderName(bytes_to_string(name_slice)));
                }
                let name_str = bytes_to_string(name_slice);
                let value_str = bytes_to_string(value.as_slice());
                map.insert(name_str.as_str(), value_str.as_str());
                proof {
                    assert(map@ == insert_spec(acc_pre, chars_of(name_slice@), chars_of(value@)));
                    assert(header_line_spec(scan.0, acc_pre) == Ok::<_, SpecError>(map@));
                }
            },
        }
    }
}

} // verus!
