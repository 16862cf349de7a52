//! Byte-level character classes of the HTTP/1.1 text grammar, and the
//! conversions between raw bytes and strings that the parsers use.

use vstd::prelude::*;

verus! {

/// A decimal digit byte, `'0'..='9'`.
pub open spec fn is_digit_byte(b: u8) -> bool {
    48 <= b && b <= 57
}

/// A token byte, as allowed in method names and header field names:
/// letters, digits, and `!#$%&'*+-.^_`|~`.
pub open spec fn is_token_byte(b: u8) -> bool {
    (97 <= b && b <= 122)  // 'a'..='z'
    || (65 <= b && b <= 90)  // 'A'..='Z'
    || is_digit_byte(b) || b == 33  // '!'
    || b == 35  // '#'
    || b == 36  // '$'
    || b == 37  // '%'
    || b == 38  // '&'
    || b == 39  // '\''
    || b == 42  // '*'
    || b == 43  // '+'
    || b == 45  // '-'
    || b == 46  // '.'
    || b == 94  // '^'
    || b == 95  // '_'
    || b == 96  // '`'
    || b == 124  // '|'
    || b == 126  // '~'
}

/// A legal header field-content byte: printable ASCII or horizontal tab.
pub open spec fn is_value_byte(b: u8) -> bool {
    b == 9 || (32 <= b && b <= 126)
}

/// Whitespace trimmed from the edges of a header field value.
pub open spec fn is_trim_byte(b: u8) -> bool {
    b == 9 || b == 11 || b == 12 || b == 32
}

/// ASCII lowercasing of a single character; characters outside `'A'..='Z'`
/// are unchanged.
pub open spec fn lower_char(c: char) -> char {
    if 'A' <= c && c <= 'Z' {
        ((c as u8) + 32) as char
    } else {
        c
    }
}

/// ASCII lowercasing of a character sequence.
pub open spec fn lower_chars(s: Seq<char>) -> Seq<char> {
    s.map(|_i, c: char| lower_char(c))
}

/// A legal header field-content character, the character-level counterpart
/// of [`is_value_byte`].
pub open spec fn is_value_char(c: char) -> bool {
    c == '\t' || (' ' <= c && c <= '~')
}

/// Whether every byte of `s` satisfies `is_token_byte`.
pub open spec fn all_token_bytes(s: Seq<u8>) -> bool {
    forall|i: int| 0 <= i < s.len() ==> is_token_byte(#[trigger] s[i])
}

/// Whether every byte of `s` satisfies `is_value_byte`.
pub open spec fn all_value_bytes(s: Seq<u8>) -> bool {
    forall|i: int| 0 <= i < s.len() ==> is_value_byte(#[trigger] s[i])
}

/// What a byte sequence reads as text: valid UTF-8 decodes exactly; anything
/// else decodes with invalid sequences replaced, as [`lossy_decode`] names it.
pub open spec fn chars_of(s: Seq<u8>) -> Seq<char> {
    if vstd::utf8::valid_utf8(s) {
        vstd::utf8::decode_utf8(s)
    } else {
        lossy_decode(s)
    }
}

/// What lossy UTF-8 decoding returns on a byte sequence that is not valid
/// UTF-8.  The result depends on the bytes alone.
pub uninterp spec fn lossy_decode(s: Seq<u8>) -> Seq<char>;

/// Relies on `String::from_utf8_lossy`: valid UTF-8 decodes unchanged
/// (`vstd::utf8::decode_utf8` is the decoder's specification), and invalid
/// sequences are replaced, a function of the bytes alone.
#[verifier::external_body]
pub fn bytes_to_string(b: &[u8]) -> (r: String)
    ensures
        r@ == chars_of(b@),
        !vstd::utf8::valid_utf8(b@) ==> r@ == lossy_decode(b@),
{
    String::from_utf8_lossy(b).into_owned()
}

/// Relies on `str::to_ascii_lowercase`: ASCII upper-case letters are mapped
/// to lower case and every other character is unchanged.
#[verifier::external_body]
pub fn ascii_lowercase(s: &str) -> (r: String)
    ensures
        r@ == lower_chars(s@),
{
    s.to_ascii_lowercase()
}

/// Exact byte-sequence equality of two slices.
pub fn bytes_eq(a: &[u8], b: &[u8]) -> (r: bool)
    ensures
        r == (a@ == b@),
{
    if a.len() != b.len() {
        assert(a@ != b@);
        return false;
    }
    let n = a.len();
    let mut i: usize = 0;
    while i < n
        invariant
            n == a@.len() == b@.len(),
            i <= n,
            forall|j: int| 0 <= j < i ==> a@[j] == b@[j],
        decreases n - i,
    {
        if a[i] != b[i] {
            assert(a@ != b@);
            return false;
        }
        i += 1;
    }
    assert(a@ =~= b@);
    true
}

/// Checks that every byte is a legal token byte.
pub fn check_token_bytes(v: &[u8]) -> (r: bool)
    ensures
        r == all_token_bytes(v@),
{
    let n = v.len();
    let mut i: usize = 0;
    while i < n
        invariant
            n == v@.len(),
            i <= n,
            forall|j: int| 0 <= j < i ==> is_token_byte(#[trigger] v@[j]),
        decreases n - i,
    {
        let b = v[i];
        let ok = (97 <= b && b <= 122) || (65 <= b && b <= 90) || (48 <= b && b <= 57) || b == 33
            || b == 35 || b == 36 || b == 37 || b == 38 || b == 39 || b == 42 || b == 43 || b == 45
            || b == 46 || b == 94 || b == 95 || b == 96 || b == 124 || b == 126;
        if !ok {
            assert(!is_token_byte(v@[i as int]));
            return false;
        }
        i += 1;
    }
    true
}

/// Checks that every byte is legal header field content.
pub fn check_value_bytes(v: &[u8]) -> (r: bool)
    ensures
        r == all_value_bytes(v@),
{
    let n = v.len();
    let mut i: usize = 0;
    while i < n
        invariant
            n == v@.len(),
            i <= n,
            forall|j: int| 0 <= j < i ==> is_value_byte(#[trigger] v@[j]),
        decreases n - i,
    {
        let b = v[i];
        if !(b == 9 || (32 <= b && b <= 126)) {
            assert(!is_value_byte(v@[i as int]));
            return false;
        }
        i += 1;
    }
    true
}

/// A printable ASCII byte (space through tilde).
pub open spec fn is_print_byte(b: u8) -> bool {
    32 <= b && b <= 126
}

/// Whether every byte of `s` is printable ASCII.
pub open spec fn all_print_bytes(s: Seq<u8>) -> bool {
    forall|i: int| 0 <= i < s.len() ==> is_print_byte(#[trigger] s[i])
}

/// Checks that every byte is printable ASCII.
pub fn check_print_bytes(v: &[u8]) -> (r: bool)
    ensures
        r == all_print_bytes(v@),
{
    let n = v.len();
    let mut i: usize = 0;
    while i < n
        invariant
            n == v@.len(),
            i <= n,
            forall|j: int| 0 <= j < i ==> is_print_byte(#[trigger] v@[j]),
        decreases n - i,
    {
        let b = v[i];
        if b < 32 || b > 126 {
            assert(!is_print_byte(v@[i as int]));
            return false;
        }
        i += 1;
    }
    true
}

/// Appends the bytes of a slice to a vector.
pub fn append_bytes(dst: &mut Vec<u8>, src: &[u8])
    ensures
        final(dst)@ == old(dst)@ + src@,
{
    let n = src.len();
    let mut i: usize = 0;
    proof {
        assert(dst@ =~= dst@ + src@.take(0));
    }
    while i < n
        invariant
            n == src@.len(),
            i <= n,
            dst@ == old(dst)@ + src@.take(i as int),
        decreases n - i,
    {
        dst.push(src[i]);
        proof {
            assert(old(dst)@ + src@.take(i as int) + seq![src@[i as int]] =~= old(dst)@
                + src@.take(i as int + 1));
        }
        i += 1;
    }
    proof {
        assert(src@.take(n as int) =~= src@);
    }
}

/// All bytes of an ASCII sequence are below 128.
pub open spec fn all_ascii(s: Seq<u8>) -> bool {
    forall|i: int| 0 <= i < s.len() ==> #[trigger] s[i] < 128
}

/// The text of a pure-ASCII byte sequence is the bytes read as characters.
pub proof fn lemma_ascii_chars_of(s: Seq<u8>)
    requires
        all_ascii(s),
    ensures
        vstd::utf8::valid_utf8(s),
        chars_of(s) == s.map(|_i, b: u8| b as char),
{
    let cs = s.map(|_i, b: u8| b as char);
    assert(vstd::utf8::is_ascii_chars(cs)) by {
        assert forall|i: int| 0 <= i < cs.len() implies '\0' <= #[trigger] cs[i]
            && cs[i] <= '\u{7f}' by {
            assert(s[i] < 128);
        }
    }
    vstd::utf8::is_ascii_chars_encode_utf8(cs);
    assert(vstd::utf8::encode_utf8(cs) =~= s) by {
        assert forall|i: int| 0 <= i < s.len() implies vstd::utf8::encode_utf8(cs)[i]
            == s[i] by {
            assert(s[i] < 128);
            assert(cs[i] == s[i] as char);
        }
    }
    vstd::utf8::encode_utf8_valid_utf8(cs);
    vstd::utf8::encode_utf8_decode_utf8(cs);
}

/// A string's UTF-8 bytes are all legal field-content bytes exactly when
/// its characters are all legal field-content characters.
pub proof fn lemma_value_bytes_chars(s: Seq<char>)
    ensures
        all_value_bytes(vstd::utf8::encode_utf8(s)) <==> (forall|i: int|
            0 <= i < s.len() ==> is_value_char(#[trigger] s[i])),
        (forall|i: int| 0 <= i < s.len() ==> is_value_char(#[trigger] s[i]))
            ==> vstd::utf8::encode_utf8(s).len() == s.len(),
{
    let bytes = vstd::utf8::encode_utf8(s);
    if forall|i: int| 0 <= i < s.len() ==> is_value_char(#[trigger] s[i]) {
        assert(vstd::utf8::is_ascii_chars(s)) by {
            assert forall|i: int| 0 <= i < s.len() implies '\0' <= #[trigger] s[i]
                && s[i] <= '\u{7f}' by {
                assert(is_value_char(s[i]));
            }
        }
        vstd::utf8::is_ascii_chars_encode_utf8(s);
        assert forall|i: int| 0 <= i < bytes.len() implies is_value_byte(#[trigger] bytes[i]) by {
            assert(bytes[i] == s[i] as u8);
            assert(is_value_char(s[i]));
        }
    }
    if all_value_bytes(bytes) {
        assert(all_ascii(bytes)) by {
            assert forall|i: int| 0 <= i < bytes.len() implies #[trigger] bytes[i] < 128 by {
                assert(is_value_byte(bytes[i]));
            }
        }
        lemma_ascii_chars_of(bytes);
        vstd::utf8::encode_utf8_decode_utf8(s);
        assert(s == bytes.map(|_i, b: u8| b as char));
        assert forall|i: int| 0 <= i < s.len() implies is_value_char(#[trigger] s[i]) by {
            assert(s[i] == bytes[i] as char);
            assert(is_value_byte(bytes[i]));
        }
    }
}

} // verus!
