//! The byte source the parsers consume, and the line reader: a
//! byte-at-a-time scanner producing one CRLF-delimited line into a bounded
//! buffer.

use vstd::prelude::*;
use crate::ascii::chars_of;
use crate::errors::HttpError;

verus! {

/// A byte source: an in-memory byte buffer with a read position.  Parsing
/// consumes bytes by advancing `pos`; the bytes themselves are never
/// changed.
#[derive(Debug)]
pub struct Source {
    pub data: Vec<u8>,
    pub pos: usize,
}

impl Source {
    /// The read position never passes the end of the buffer.
    pub open spec fn wf(&self) -> bool {
        self.pos <= self.data@.len()
    }

    /// The bytes not yet consumed.
    pub open spec fn remaining(&self) -> Seq<u8> {
        self.data@.skip(self.pos as int)
    }

    /// A source positioned at the start of `data`.
    pub fn new(data: Vec<u8>) -> (s: Source)
        ensures
            s.data@ == data@,
            s.pos == 0,
            s.wf(),
            s.remaining() == data@,
    {
        let s = Source { data, pos: 0 };
        assert(s.remaining() =~= s.data@);
        s
    }
}

/// What scanning one line from the bytes `s` yields, starting with the
/// carriage-return flag `cr`: the content bytes of the line and the number
/// of bytes consumed.
///
/// A carriage return sets the flag and is never copied to the output.  A
/// line feed ends the line if the flag is set; a bare line feed is
/// discarded.  Any other byte is content.  The end of the bytes ends the
/// line with whatever has accumulated.
pub open spec fn line_scan(s: Seq<u8>, cr: bool) -> (Seq<u8>, int)
    decreases s.len(),
{
    if s.len() == 0 {
        (Seq::<u8>::empty(), 0)
    } else if s[0] == 13 {
        let r = line_scan(s.skip(1), true);
        (r.0, r.1 + 1)
    } else if s[0] == 10 {
        if cr {
            (Seq::<u8>::empty(), 1)
        } else {
            let r = line_scan(s.skip(1), cr);
            (r.0, r.1 + 1)
        }
    } else {
        let r = line_scan(s.skip(1), cr);
        (seq![s[0]] + r.0, r.1 + 1)
    }
}

/// A line consumes between zero and all of the bytes, and its content is
/// never longer than what was consumed.
pub proof fn lemma_line_scan_bounds(s: Seq<u8>, cr: bool)
    ensures
        0 <= line_scan(s, cr).1 <= s.len(),
        line_scan(s, cr).0.len() <= line_scan(s, cr).1,
    decreases s.len(),
{
    if s.len() == 0 {
    } else if s[0] == 13 {
        lemma_line_scan_bounds(s.skip(1), true);
    } else if s[0] == 10 {
        if !cr {
            lemma_line_scan_bounds(s.skip(1), cr);
        }
    } else {
        lemma_line_scan_bounds(s.skip(1), cr);
    }
}

/// Reads one CRLF-delimited line from the source into a bounded buffer of
/// capacity `cap`.  A line whose content exceeds the capacity is a hard
/// `BufferOverflow` error, never a truncation.
pub fn read_line(src: &mut Source, cap: usize) -> (r: Result<Vec<u8>, HttpError>)
    requires
        old(src).wf(),
    ensures
        final(src).wf(),
        final(src).data == old(src).data,
        old(src).pos <= final(src).pos,
        ({
            let scan = line_scan(old(src).remaining(), false);
            if scan.0.len() <= cap {
                &&& r matches Ok(line) && line@ == scan.0
                &&& final(src).pos == old(src).pos + scan.1
            } else {
                r matches Err(e) && e == HttpError::BufferOverflow
            }
        }),
{
    let ghost rem0 = old(src).remaining();
    let mut out: Vec<u8> = Vec::new();
    let mut flag: bool = false;
    proof {
        assert(src.remaining() == rem0);
    }
    loop
        invariant
            src.wf(),
            src.data == old(src).data,
            old(src).pos <= src.pos,
            out@.len() <= cap,
            rem0 == old(src).remaining(),
            line_scan(rem0, false).0 == out@ + line_scan(src.remaining(), flag).0,
            line_scan(rem0, false).1 == src.pos - old(src).pos + line_scan(
                src.remaining(),
                flag,
            ).1,
        decreases src.data@.len() - src.pos,
    {
        if src.pos == src.data.len() {
            proof {
                assert(src.remaining() =~= Seq::<u8>::empty());
                assert(line_scan(rem0, false).0 =~= out@);
            }
            return Ok(out);
        }
        let ghost rem_pre = src.remaining();
        proof {
            assert(rem_pre.len() > 0);
            assert(rem_pre[0] == src.data@[src.pos as int]);
        }
        let b = src.data[src.pos];
        src.pos = src.pos + 1;
        proof {
            assert(src.remaining() =~= rem_pre.skip(1));
        }
        if b == 13 {
            proof {
                assert(line_scan(rem_pre, flag).0 == line_scan(rem_pre.skip(1), true).0);
                assert(line_scan(rem_pre, flag).1 == line_scan(rem_pre.skip(1), true).1 + 1);
            }
            flag = true;
        } else if b == 10 {
            if flag {
                proof {
                    assert(line_scan(rem_pre, flag).0 =~= Seq::<u8>::empty());
                    assert(line_scan(rem0, false).0 =~= out@);
                }
                return Ok(out);
            }
            proof {
                assert(line_scan(rem_pre, flag).0 == line_scan(rem_pre.skip(1), flag).0);
            }
        } else {
            proof {
                assert(line_scan(rem_pre, flag).0 == seq![b] + line_scan(
                    rem_pre.skip(1),
                    flag,
                ).0);
            }
            if out.len() == cap {
                proof {
                    lemma_line_scan_bounds(rem_pre.skip(1), flag);
                    assert(line_scan(rem0, false).0.len() > cap);
                }
                return Err(HttpError::BufferOverflow);
            }
            out.push(b);
            proof {
                assert(line_scan(rem0, false).0 == out@ + line_scan(src.remaining(), flag).0);
            }
        }
    }
}

/// How a single best-effort read of up to `want` bytes comes out: the
/// number of bytes obtained, which may be short of `want` only when the
/// source is exhausted first.
pub open spec fn take_count(rem: Seq<u8>, want: int) -> int {
    if rem.len() < want {
        rem.len() as int
    } else {
        want
    }
}

/// Performs a single read into the caller-provided buffer and returns
/// however many bytes were obtained (possibly short; the caller loops if
/// more is required).  No framing logic is applied.
pub fn parse_body(src: &mut Source, output: &mut Vec<u8>) -> (r: Result<usize, HttpError>)
    requires
        old(src).wf(),
    ensures
        final(src).wf(),
        final(src).data == old(src).data,
        ({
            let n = take_count(old(src).remaining(), old(output)@.len() as int);
            &&& r matches Ok(cnt) && cnt == n
            &&& final(src).pos == old(src).pos + n
            &&& final(output)@.len() == old(output)@.len()
            &&& forall|i: int| 0 <= i < n ==> final(output)@[i] == old(src).remaining()[i]
            &&& forall|i: int| n <= i < final(output)@.len() ==> final(output)@[i] == old(
                output,
            )@[i]
        }),
{
    let want = output.len();
    let avail = src.data.len() - src.pos;
    let n = if avail < want {
        avail
    } else {
        want
    };
    let mut i: usize = 0;
    while i < n
        invariant
            src.wf(),
            src.data == old(src).data,
            src.pos == old(src).pos,
            n <= output@.len(),
            old(output)@.len() == output@.len(),
            src.pos + n <= src.data@.len(),
            i <= n,
            forall|j: int| 0 <= j < i ==> output@[j] == old(src).remaining()[j],
            forall|j: int| i <= j < output@.len() ==> output@[j] == old(output)@[j],
        decreases n - i,
    {
        proof {
            assert(src.data@.len() == src.data.len());
            assert(src.pos + i < src.data@.len());
        }
        let b = src.data[src.pos + i];
        assert(old(src).remaining()[i as int] == src.data@[src.pos + i]);
        output.set(i, b);
        i += 1;
    }
    src.pos = src.pos + n;
    Ok(n)
}

/// What draining the remaining bytes yields, reading fixed-size chunks and
/// decoding each as UTF-8 with lossy replacement: the accumulated text and
/// the number of bytes consumed.  `got` counts the bytes obtained before
/// this point; a positive `expect` stops the drain once the total obtained
/// reaches it, while a zero `expect` drains to exhaustion.
pub open spec fn drain_scan(rem: Seq<u8>, expect: int, got: int) -> (Seq<char>, int)
    decreases rem.len(),
{
    if rem.len() == 0 {
        (Seq::<char>::empty(), 0)
    } else {
        let n = take_count(rem, 1024);
        let c = chars_of(rem.take(n));
        if expect > 0 && got + n >= expect {
            (c, n)
        } else {
            let r = drain_scan(rem.skip(n), expect, got + n);
            (c + r.0, n + r.1)
        }
    }
}

/// Drains the remaining bytes into text, decoding chunks as UTF-8 with
/// lossy replacement, until the source is exhausted or the accumulated
/// length reaches the size hint `expect`.  A hint of zero drains the whole
/// source.
pub fn parse_string_body(src: &mut Source, expect: usize) -> (r: Result<String, HttpError>)
    requires
        old(src).wf(),
    ensures
        final(src).wf(),
        final(src).data == old(src).data,
        ({
            let scan = drain_scan(old(src).remaining(), expect as int, 0);
            &&& r matches Ok(body) && body@ == scan.0
            &&& final(src).pos == old(src).pos + scan.1
        }),
{
    let mut result = String::new();
    let mut total: usize = 0;
    loop
        invariant
            src.wf(),
            src.data == old(src).data,
            old(src).pos <= src.pos,
            total == src.pos - old(src).pos,
            drain_scan(old(src).remaining(), expect as int, 0).0 == result@ + drain_scan(
                src.remaining(),
                expect as int,
                total as int,
            ).0,
            drain_scan(old(src).remaining(), expect as int, 0).1 == total + drain_scan(
                src.remaining(),
                expect as int,
                total as int,
            ).1,
        decreases src.data@.len() - src.pos,
    {
        let ghost rem_pre = src.remaining();
        if src.pos == src.data.len() {
            proof {
                assert(rem_pre =~= Seq::<u8>::empty());
                assert(drain_scan(old(src).remaining(), expect as int, 0).0 =~= result@);
            }
            return Ok(result);
        }
        let avail = src.data.len() - src.pos;
        let n = if avail < 1024 {
            avail
        } else {
            1024
        };
        proof {
            assert(n == take_count(rem_pre, 1024));
        }
        let chunk_slice = vstd::slice::slice_subrange(src.data.as_slice(), src.pos, src.pos + n);
        proof {
            assert(chunk_slice@ =~= rem_pre.take(n as int));
        }
        let chunk = crate::ascii::bytes_to_string(chunk_slice);
        result.append(chunk.as_str());
        src.pos = src.pos + n;
        total = total + n;
        proof {
            assert(src.remaining() =~= rem_pre.skip(n as int));
        }
        if expect > 0 && total >= expect {
            proof {
                assert(drain_scan(rem_pre, expect as int, (total - n) as int).0 == chars_of(
                    rem_pre.take(n as int),
                ));
                assert(drain_scan(old(src).remaining(), expect as int, 0).0 =~= result@);
            }
            return Ok(result);
        }
    }
}

} // verus!
