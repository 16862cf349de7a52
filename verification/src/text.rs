//! Textual helpers of the grammar: splitting a line into space-separated
//! fields, trimming field values, and decimal status codes.

use vstd::prelude::*;
use crate::ascii::{is_digit_byte, is_trim_byte};

verus! {

/// Splitting a byte sequence on single space bytes, empty fields kept:
/// the splitting the start-line parsers use.
pub open spec fn split_sp(s: Seq<u8>) -> Seq<Seq<u8>>
    decreases s.len(),
{
    if s.len() == 0 {
        seq![Seq::<u8>::empty()]
    } else if s[0] == 32 {
        seq![Seq::<u8>::empty()] + split_sp(s.skip(1))
    } else {
        let r = split_sp(s.skip(1));
        r.update(0, seq![s[0]] + r[0])
    }
}

/// Splitting always yields at least one field.
pub proof fn lemma_split_sp_len(s: Seq<u8>)
    ensures
        split_sp(s).len() >= 1,
    decreases s.len(),
{
    if s.len() == 0 {
    } else if s[0] == 32 {
        lemma_split_sp_len(s.skip(1));
    } else {
        lemma_split_sp_len(s.skip(1));
    }
}

/// Prepending space-free bytes extends the first field and nothing else.
pub proof fn lemma_split_prepend(pre: Seq<u8>, s: Seq<u8>)
    requires
        forall|i: int| 0 <= i < pre.len() ==> pre[i] != 32,
    ensures
        split_sp(pre + s) =~~= split_sp(s).update(0, pre + split_sp(s)[0]),
    decreases pre.len(),
{
    lemma_split_sp_len(s);
    if pre.len() == 0 {
        assert(pre + s =~= s);
        assert(pre + split_sp(s)[0] =~= split_sp(s)[0]);
        assert(split_sp(s).update(0, split_sp(s)[0]) =~= split_sp(s));
    } else {
        let t = pre.skip(1) + s;
        assert((pre + s).skip(1) =~= t);
        lemma_split_prepend(pre.skip(1), s);
        assert((pre + s)[0] == pre[0]);
        assert(pre[0] != 32);
        lemma_split_sp_len(t);
        assert(seq![(pre + s)[0]] + split_sp(t)[0] =~= pre + split_sp(s)[0]);
    }
}

/// A space splits: the space-free bytes before it are one whole field.
pub proof fn lemma_split_at_space(pre: Seq<u8>, s: Seq<u8>)
    requires
        forall|i: int| 0 <= i < pre.len() ==> pre[i] != 32,
    ensures
        split_sp(pre + seq![32u8] + s) =~~= seq![pre] + split_sp(s),
    decreases pre.len(),
{
    if pre.len() == 0 {
        let w = pre + seq![32u8] + s;
        assert(w[0] == 32);
        assert(w.skip(1) =~= s);
        assert(seq![Seq::<u8>::empty()] =~~= seq![pre]);
    } else {
        let w = pre + seq![32u8] + s;
        let t = pre.skip(1) + seq![32u8] + s;
        assert(w.skip(1) =~= t);
        lemma_split_at_space(pre.skip(1), s);
        lemma_split_sp_len(t);
        assert(w[0] == pre[0]);
        assert(pre[0] != 32);
        assert(seq![w[0]] + pre.skip(1) =~= pre);
        assert(split_sp(w) =~~= split_sp(t).update(0, seq![w[0]] + split_sp(t)[0]));
    }
}

/// The fields of space-free bytes are the bytes themselves, alone.
pub proof fn lemma_split_single(s: Seq<u8>)
    requires
        forall|i: int| 0 <= i < s.len() ==> s[i] != 32,
    ensures
        split_sp(s) =~~= seq![s],
{
    lemma_split_prepend(s, Seq::<u8>::empty());
    assert(s + Seq::<u8>::empty() =~= s);
    assert(split_sp(Seq::<u8>::empty()) =~~= seq![Seq::<u8>::empty()]);
    assert(s + Seq::<u8>::empty() =~= s);
}

/// Splits a line into its space-separated fields.
pub fn split_fields(line: &[u8]) -> (r: Vec<Vec<u8>>)
    ensures
        r.deep_view() == split_sp(line@),
{
    let n = line.len();
    let mut fields: Vec<Vec<u8>> = Vec::new();
    let mut cur: Vec<u8> = Vec::new();
    let mut i: usize = 0;
    proof {
        lemma_split_sp_len(line@);
        assert(line@.skip(0) =~= line@);
        assert(fields.deep_view() =~~= Seq::<Seq<u8>>::empty());
        assert(split_sp(line@).update(0, cur@ + split_sp(line@)[0]) =~~= split_sp(line@));
    }
    while i < n
        invariant
            n == line@.len(),
            i <= n,
            split_sp(line@) =~~= fields.deep_view() + split_sp(line@.skip(i as int)).update(
                0,
                cur@ + split_sp(line@.skip(i as int))[0],
            ),
            forall|j: int| 0 <= j < cur@.len() ==> cur@[j] != 32,
        decreases n - i,
    {
        let ghost rem = line@.skip(i as int);
        let ghost rest = split_sp(rem.skip(1));
        let ghost fv = fields.deep_view();
        let ghost cv = cur@;
        proof {
            lemma_split_sp_len(rem);
            lemma_split_sp_len(rem.skip(1));
            assert(rem[0] == line@[i as int]);
            assert(rem.skip(1) =~= line@.skip(i as int + 1));
        }
        let b = line[i];
        if b == 32 {
            fields.push(cur);
            cur = Vec::new();
            proof {
                assert(split_sp(rem) =~~= seq![Seq::<u8>::empty()] + rest);
                assert(split_sp(rem).update(0, cv + split_sp(rem)[0]) =~~= seq![cv] + rest);
                assert(fields.deep_view() =~~= fv + seq![cv]);
                assert(rest.update(0, cur@ + rest[0]) =~~= rest);
                assert((fv + seq![cv]) + rest =~~= fv + (seq![cv] + rest));
            }
        } else {
            cur.push(b);
            proof {
                assert(cur@ =~= cv + seq![b]);
                assert(split_sp(rem) =~~= rest.update(0, seq![b] + rest[0]));
                assert(split_sp(rem).update(0, cv + split_sp(rem)[0]) =~~= rest.update(
                    0,
                    cur@ + rest[0],
                ));
            }
        }
        i += 1;
    }
    let ghost fv = fields.deep_view();
    let ghost cv = cur@;
    proof {
        assert(line@.skip(n as int) =~= Seq::<u8>::empty());
        lemma_split_sp_len(line@.skip(n as int));
        assert(split_sp(line@.skip(n as int)) =~~= seq![Seq::<u8>::empty()]);
        assert(split_sp(line@) =~~= fv + seq![cv]);
    }
    fields.push(cur);
    proof {
        assert(fields.deep_view() =~~= fv + seq![cv]);
    }
    fields
}

/// The bytes with leading trim whitespace removed.
pub open spec fn trim_front(s: Seq<u8>) -> Seq<u8>
    decreases s.len(),
{
    if s.len() > 0 && is_trim_byte(s[0]) {
        trim_front(s.skip(1))
    } else {
        s
    }
}

/// The bytes with trailing trim whitespace removed.
pub open spec fn trim_back(s: Seq<u8>) -> Seq<u8>
    decreases s.len(),
{
    if s.len() > 0 && is_trim_byte(s.last()) {
        trim_back(s.drop_last())
    } else {
        s
    }
}

/// The bytes with whitespace removed from both edges.
pub open spec fn trim_ws(s: Seq<u8>) -> Seq<u8> {
    trim_back(trim_front(s))
}

/// Copies `v` with surrounding whitespace removed.
pub fn trim_bytes(v: &[u8]) -> (r: Vec<u8>)
    ensures
        r@ == trim_ws(v@),
{
    let n = v.len();
    let mut start: usize = 0;
    proof {
        assert(v@.skip(0) =~= v@);
    }
    while start < n && (v[start] == 9 || v[start] == 11 || v[start] == 12 || v[start] == 32)
        invariant
            n == v@.len(),
            start <= n,
            trim_front(v@) == trim_front(v@.skip(start as int)),
        decreases n - start,
    {
        proof {
            assert(v@.skip(start as int)[0] == v@[start as int]);
            assert(v@.skip(start as int).skip(1) =~= v@.skip(start as int + 1));
        }
        start += 1;
    }
    proof {
        if start < n {
            assert(v@.skip(start as int)[0] == v@[start as int]);
        } else {
            assert(v@.skip(start as int) =~= Seq::<u8>::empty());
        }
        assert(trim_front(v@) == v@.skip(start as int));
    }
    let ghost w = v@.skip(start as int);
    let mut end: usize = n;
    proof {
        assert(w.take(n - start as int) =~= w);
    }
    while end > start && (v[end - 1] == 9 || v[end - 1] == 11 || v[end - 1] == 12 || v[end - 1]
        == 32)
        invariant
            n == v@.len(),
            start <= end <= n,
            w == v@.skip(start as int),
            trim_back(w) == trim_back(w.take(end - start as int)),
        decreases end,
    {
        proof {
            let m = end - start as int;
            assert(w.take(m).last() == v@[end - 1]);
            assert(w.take(m).drop_last() =~= w.take(m - 1));
        }
        end -= 1;
    }
    proof {
        let m = end - start as int;
        if end > start {
            assert(w.take(m).last() == v@[end - 1]);
        }
        assert(trim_back(w) == w.take(m));
    }
    let r = vstd::slice::slice_to_vec(vstd::slice::slice_subrange(v, start, end));
    proof {
        assert(r@ =~= w.take(end - start as int));
    }
    r
}

/// The first position of `b` in `s`, if any.
pub open spec fn first_idx(s: Seq<u8>, b: u8) -> Option<int>
    decreases s.len(),
{
    if s.len() == 0 {
        None
    } else if s[0] == b {
        Some(0)
    } else {
        match first_idx(s.skip(1), b) {
            None => None,
            Some(i) => Some(i + 1),
        }
    }
}

/// `first_idx` finds exactly the first occurrence.
pub proof fn lemma_first_idx(s: Seq<u8>, b: u8)
    ensures
        match first_idx(s, b) {
            Some(i) => 0 <= i < s.len() && s[i] == b && forall|j: int| 0 <= j < i ==> s[j] != b,
            None => forall|j: int| 0 <= j < s.len() ==> s[j] != b,
        },
    decreases s.len(),
{
    if s.len() == 0 {
    } else if s[0] == b {
    } else {
        lemma_first_idx(s.skip(1), b);
        assert(forall|j: int| 1 <= j < s.len() ==> s[j] == s.skip(1)[j - 1]);
    }
}

/// Finds the first occurrence of `b` in `v`.
pub fn find_byte(v: &[u8], b: u8) -> (r: Option<usize>)
    ensures
        match r {
            Some(i) => first_idx(v@, b) == Some(i as int),
            None => first_idx(v@, b) is None,
        },
{
    let n = v.len();
    let mut i: usize = 0;
    while i < n
        invariant
            n == v@.len(),
            i <= n,
            forall|j: int| 0 <= j < i ==> v@[j] != b,
        decreases n - i,
    {
        if v[i] == b {
            proof {
                lemma_first_idx(v@, b);
                if first_idx(v@, b) is None {
                    assert(false);
                }
                let k = first_idx(v@, b)->Some_0;
                assert(k == i);
            }
            return Some(i);
        }
        i += 1;
    }
    proof {
        lemma_first_idx(v@, b);
        match first_idx(v@, b) {
            Some(k) => {
                assert(v@[k] != b);
                assert(false);
            },
            None => {},
        }
    }
    None
}

/// Whether every byte is a decimal digit.
pub open spec fn all_digits(s: Seq<u8>) -> bool {
    forall|i: int| 0 <= i < s.len() ==> is_digit_byte(#[trigger] s[i])
}

/// How a decimal digit string parses left to right into a 16-bit number,
/// continuing from the value `acc` already accumulated: a non-digit fails at
/// once, and so does a step that would exceed the largest 16-bit value,
/// mirroring integer parsing of the standard library.  The error side
/// carries the reason text.
pub open spec fn u16_scan(d: Seq<u8>, acc: int) -> Result<u16, Seq<char>>
    decreases d.len(),
{
    if d.len() == 0 {
        Ok(acc as u16)
    } else if !is_digit_byte(d[0]) {
        Err("invalid digit found in string"@)
    } else if acc * 10 + (d[0] - 48) > 65535 {
        Err("number too large to fit in target type"@)
    } else {
        u16_scan(d.skip(1), acc * 10 + (d[0] - 48))
    }
}

/// How a status token parses as a 16-bit number: an optional leading plus
/// sign, then a scan of decimal digits.
pub open spec fn u16_parse_spec(s: Seq<u8>) -> Result<u16, Seq<char>> {
    if s.len() == 0 {
        Err("cannot parse integer from empty string"@)
    } else {
        let d = if s[0] == 43 {
            s.skip(1)
        } else {
            s
        };
        if d.len() == 0 {
            Err("invalid digit found in string"@)
        } else {
            u16_scan(d, 0)
        }
    }
}

/// Scanning a concatenation scans the first part, then continues from its
/// value into the second.
pub proof fn lemma_u16_scan_append(a: Seq<u8>, b: Seq<u8>, acc: int)
    requires
        0 <= acc <= 65535,
    ensures
        u16_scan(a + b, acc) == (match u16_scan(a, acc) {
            Ok(v) => u16_scan(b, v as int),
            Err(e) => Err::<u16, Seq<char>>(e),
        }),
    decreases a.len(),
{
    if a.len() == 0 {
        assert(a + b =~= b);
        assert((acc as u16) as int == acc);
    } else {
        let w = a + b;
        assert(w.len() > 0);
        assert(w[0] == a[0]);
        if !is_digit_byte(a[0]) {
            assert(u16_scan(w, acc) == Err::<u16, Seq<char>>("invalid digit found in string"@));
        } else if acc * 10 + (a[0] - 48) > 65535 {
            assert(u16_scan(w, acc) == Err::<u16, Seq<char>>(
                "number too large to fit in target type"@,
            ));
        } else {
            assert(w.skip(1) =~= a.skip(1) + b);
            lemma_u16_scan_append(a.skip(1), b, acc * 10 + (a[0] - 48));
            assert(u16_scan(w, acc) == u16_scan(w.skip(1), acc * 10 + (a[0] - 48)));
        }
    }
}

/// Parses a decimal status token as a 16-bit number; on failure the error
/// carries the reason text.
pub fn parse_u16(v: &[u8]) -> (r: Result<u16, String>)
    ensures
        (match u16_parse_spec(v@) {
            Ok(n) => r matches Ok(m) && m == n,
            Err(msg) => r matches Err(e) && e@ == msg,
        }),
{
    if v.len() == 0 {
        return Err(String::from_str("cannot parse integer from empty string"));
    }
    let start: usize = if v[0] == 43 {
        1
    } else {
        0
    };
    let ghost d = if v@[0] == 43 {
        v@.skip(1)
    } else {
        v@
    };
    proof {
        assert(d =~= v@.skip(start as int));
    }
    let n = v.len();
    if start == n {
        return Err(String::from_str("invalid digit found in string"));
    }
    let mut acc: u32 = 0;
    let mut i: usize = start;
    proof {
        assert(d.skip(0) =~= d);
        assert(d.len() > 0);
    }
    while i < n
        invariant
            n == v@.len(),
            start <= i <= n,
            start < n,
            d == v@.skip(start as int),
            acc <= 65535,
            u16_parse_spec(v@) == u16_scan(d.skip(i - start as int), acc as int),
        decreases n - i,
    {
        let ghost rest = d.skip(i - start as int);
        proof {
            assert(rest[0] == v@[i as int]);
            assert(rest.skip(1) =~= d.skip(i + 1 - start as int));
        }
        let b = v[i];
        if b < 48 || b > 57 {
            return Err(String::from_str("invalid digit found in string"));
        }
        let digit = (b - 48) as u32;
        if acc * 10 + digit > 65535 {
            return Err(String::from_str("number too large to fit in target type"));
        }
        acc = acc * 10 + digit;
        i += 1;
    }
    proof {
        assert(d.skip(n - start as int) =~= Seq::<u8>::empty());
    }
    Ok(acc as u16)
}

/// The canonical decimal rendering of a non-negative number.
pub open spec fn dec_rep(n: int) -> Seq<u8>
    recommends
        n >= 0,
    decreases (if n >= 0 {
        n
    } else {
        0
    }),
{
    if n < 10 {
        seq![(48 + if n >= 0 {
            n
        } else {
            0
        }) as u8]
    } else {
        dec_rep(n / 10) + seq![(48 + n % 10) as u8]
    }
}

/// Renders a 16-bit number in decimal.
pub fn dec_bytes(n: u16) -> (r: Vec<u8>)
    ensures
        r@ == dec_rep(n as int),
{
    if n == 0 {
        let mut digits: Vec<u8> = Vec::new();
        digits.push(48);
        proof {
            assert(digits@ =~= dec_rep(0int));
        }
        return digits;
    }
    let mut digits: Vec<u8> = Vec::new();
    let mut m: u16 = n;
    proof {
        assert(dec_rep(n as int) + Seq::<u8>::empty() =~= dec_rep(n as int));
    }
    while m > 0
        invariant
            m > 0 ==> dec_rep(n as int) == dec_rep(m as int) + digits@,
            m == 0 ==> dec_rep(n as int) == digits@,
        decreases m,
    {
        let d = (m % 10) as u8 + 48;
        let ghost prior = digits@;
        digits.insert(0, d);
        proof {
            assert(digits@ =~= seq![d] + prior);
            if m >= 10 {
                assert(dec_rep(m as int) == dec_rep(m as int / 10) + seq![
                    (48 + m as int % 10) as u8,
                ]);
                assert(dec_rep(m as int) + prior =~= dec_rep(m as int / 10) + digits@);
            } else {
                assert(dec_rep(m as int) =~= seq![d]);
                assert(dec_rep(m as int) + prior =~= digits@);
            }
        }
        m = m / 10;
    }
    digits
}

} // verus!
