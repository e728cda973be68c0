//! Character-sequence orderings and small string utilities shared by the
//! rest of the crate: lexicographic comparison (the ordering used for
//! package versions), ASCII trimming, identifier classification and
//! lowercase hex encoding.

use vstd::prelude::*;

verus! {

/// An ASCII whitespace character (space, tab, carriage return, newline).
pub open spec fn is_space(c: char) -> bool {
    c == ' ' || c == '\t' || c == '\r' || c == '\n'
}

/// A character allowed in a package name: ASCII alphanumerics, `.`, `_`, `-`.
pub open spec fn is_name_char(c: char) -> bool {
    ('a' <= c && c <= 'z') || ('A' <= c && c <= 'Z') || ('0' <= c && c <= '9')
        || c == '.' || c == '_' || c == '-'
}

/// A version-constraint operator character.
pub open spec fn is_op_char(c: char) -> bool {
    c == '<' || c == '>' || c == '=' || c == '!'
}

/// Lexicographic strict "less than" on character sequences, ordering
/// characters by scalar value.  This coincides with Rust's byte-wise
/// ordering on `str`, because UTF-8 preserves scalar-value order.
pub open spec fn lex_lt(a: Seq<char>, b: Seq<char>) -> bool
    decreases a.len(),
{
    if b.len() == 0 {
        false
    } else if a.len() == 0 {
        true
    } else if a[0] != b[0] {
        (a[0] as int) < (b[0] as int)
    } else {
        lex_lt(a.drop_first(), b.drop_first())
    }
}

/// Stepping past a common first character preserves the comparison.
proof fn lemma_lex_lt_skip(a: Seq<char>, b: Seq<char>, i: int)
    requires
        0 <= i < a.len(),
        0 <= i < b.len(),
        a[i] == b[i],
    ensures
        lex_lt(a.skip(i), b.skip(i)) == lex_lt(a.skip(i + 1), b.skip(i + 1)),
{
    assert(a.skip(i).len() != 0 && b.skip(i).len() != 0);
    assert(a.skip(i)[0] == a[i]);
    assert(b.skip(i)[0] == b[i]);
    assert(a.skip(i).drop_first() =~= a.skip(i + 1));
    assert(b.skip(i).drop_first() =~= b.skip(i + 1));
}

/// Lexicographic comparison of two string slices.
pub fn str_lt(a: &str, b: &str) -> (r: bool)
    ensures
        r == lex_lt(a@, b@),
{
    let alen = a.unicode_len();
    let blen = b.unicode_len();
    let mut i: usize = 0;
    proof {
        assert(a@.skip(0) =~= a@);
        assert(b@.skip(0) =~= b@);
    }
    loop
        invariant
            i <= alen,
            i <= blen,
            alen == a@.len(),
            blen == b@.len(),
            lex_lt(a@, b@) == lex_lt(a@.skip(i as int), b@.skip(i as int)),
        decreases alen - i,
    {
        if i >= blen {
            proof {
                assert(b@.skip(i as int).len() == 0);
            }
            return false;
        }
        if i >= alen {
            proof {
                assert(a@.skip(i as int).len() == 0);
                assert(b@.skip(i as int).len() != 0);
            }
            return true;
        }
        let ca = a.get_char(i);
        let cb = b.get_char(i);
        if ca != cb {
            proof {
                assert(a@.skip(i as int)[0] == ca);
                assert(b@.skip(i as int)[0] == cb);
            }
            return (ca as u32) < (cb as u32);
        }
        proof {
            lemma_lex_lt_skip(a@, b@, i as int);
        }
        i = i + 1;
    }
}

/// Lexicographic "greater or equal", the comparison package version
/// selection is stated with.
pub open spec fn lex_ge(a: Seq<char>, b: Seq<char>) -> bool {
    !lex_lt(a, b)
}

/// Whether two string slices hold the same characters.
pub fn str_eq(a: &str, b: &str) -> (r: bool)
    ensures
        r == (a@ == b@),
{
    let sa = String::from_str(a);
    let sb = String::from_str(b);
    sa == sb
}

/// Relies on `String::push`: appends exactly the given character.
pub assume_specification[ String::push ](s: &mut String, c: char)
    ensures
        final(s)@ == old(s)@.push(c),
;

/// The hex digit, in lowercase, for a value below sixteen.
pub open spec fn hex_digit(n: int) -> char {
    if n == 0 { '0' } else if n == 1 { '1' } else if n == 2 { '2' }
    else if n == 3 { '3' } else if n == 4 { '4' } else if n == 5 { '5' }
    else if n == 6 { '6' } else if n == 7 { '7' } else if n == 8 { '8' }
    else if n == 9 { '9' } else if n == 10 { 'a' } else if n == 11 { 'b' }
    else if n == 12 { 'c' } else if n == 13 { 'd' } else if n == 14 { 'e' }
    else { 'f' }
}

/// Lowercase hex encoding of a byte sequence, two digits per byte.
pub open spec fn hex_of(bytes: Seq<u8>) -> Seq<char>
    decreases bytes.len(),
{
    if bytes.len() == 0 {
        Seq::empty()
    } else {
        seq![hex_digit(bytes[0] as int / 16), hex_digit(bytes[0] as int % 16)]
            + hex_of(bytes.drop_first())
    }
}

/// Hex encoding yields two characters per byte.
pub proof fn lemma_hex_of_len(bytes: Seq<u8>)
    ensures
        hex_of(bytes).len() == 2 * bytes.len(),
    decreases bytes.len(),
{
    if bytes.len() != 0 {
        lemma_hex_of_len(bytes.drop_first());
    }
}

fn hex_digit_char(n: u8) -> (c: char)
    requires
        n < 16,
    ensures
        c == hex_digit(n as int),
{
    if n == 0 { '0' } else if n == 1 { '1' } else if n == 2 { '2' }
    else if n == 3 { '3' } else if n == 4 { '4' } else if n == 5 { '5' }
    else if n == 6 { '6' } else if n == 7 { '7' } else if n == 8 { '8' }
    else if n == 9 { '9' } else if n == 10 { 'a' } else if n == 11 { 'b' }
    else if n == 12 { 'c' } else if n == 13 { 'd' } else if n == 14 { 'e' }
    else { 'f' }
}

/// Encode bytes as lowercase hex, two digits per byte.
pub fn to_hex(data: &Vec<u8>) -> (r: String)
    ensures
        r@ == hex_of(data@),
{
    let mut out = String::new();
    let mut i: usize = 0;
    proof {
        assert(data@.skip(0) =~= data@);
    }
    while i < data.len()
        invariant
            i <= data@.len(),
            hex_of(data@) == out@ + hex_of(data@.skip(i as int)),
        decreases data@.len() - i,
    {
        let b = data[i];
        let hi = b / 16;
        let lo = b % 16;
        out.push(hex_digit_char(hi));
        out.push(hex_digit_char(lo));
        proof {
            let rest = data@.skip(i as int);
            assert(rest[0] == data@[i as int]);
            assert(rest.drop_first() =~= data@.skip(i as int + 1));
            assert(hex_of(rest) == seq![
                hex_digit(rest[0] as int / 16),
                hex_digit(rest[0] as int % 16),
            ] + hex_of(rest.drop_first()));
        }
        i = i + 1;
    }
    proof {
        assert(data@.skip(data@.len() as int) =~= Seq::<u8>::empty());
        assert(hex_of(data@) =~= out@);
    }
    out
}

/// The sequence with leading and trailing ASCII whitespace removed.
pub open spec fn trim_spec(s: Seq<char>) -> Seq<char>
    decreases s.len(),
{
    if s.len() == 0 {
        s
    } else if is_space(s[0]) {
        trim_spec(s.drop_first())
    } else if is_space(s.last()) {
        trim_spec(s.drop_last())
    } else {
        s
    }
}

/// Remove leading and trailing ASCII whitespace.
pub fn trim(s: &str) -> (r: String)
    ensures
        r@ == trim_spec(s@),
{
    let len = s.unicode_len();
    let mut start: usize = 0;
    let mut end: usize = len;
    proof {
        assert(s@.subrange(0, len as int) =~= s@);
    }
    while start < end
        invariant_except_break
            start <= end <= len,
            len == s@.len(),
            trim_spec(s@) == trim_spec(s@.subrange(start as int, end as int)),
        ensures
            start <= end <= len,
            len == s@.len(),
            trim_spec(s@) == s@.subrange(start as int, end as int),
        decreases end - start,
    {
        let c = s.get_char(start);
        if c == ' ' || c == '\t' || c == '\r' || c == '\n' {
            proof {
                let cur = s@.subrange(start as int, end as int);
                assert(cur[0] == s@[start as int]);
                assert(cur.drop_first() =~= s@.subrange(start as int + 1, end as int));
            }
            start = start + 1;
        } else {
            let c2 = s.get_char(end - 1);
            if c2 == ' ' || c2 == '\t' || c2 == '\r' || c2 == '\n' {
                proof {
                    let cur = s@.subrange(start as int, end as int);
                    assert(cur[0] == s@[start as int]);
                    assert(cur.last() == s@[end as int - 1]);
                    assert(cur.drop_last() =~= s@.subrange(start as int, end as int - 1));
                }
                end = end - 1;
            } else {
                proof {
                    let cur = s@.subrange(start as int, end as int);
                    assert(cur[0] == s@[start as int]);
                    assert(cur.last() == s@[end as int - 1]);
                    assert(trim_spec(cur) == cur);
                }
                break;
            }
        }
    }
    let piece = s.substring_char(start, end);
    piece.to_owned()
}

/// The sequence with trailing `/` characters removed.
pub open spec fn trim_trailing_slashes(s: Seq<char>) -> Seq<char>
    decreases s.len(),
{
    if s.len() != 0 && s.last() == '/' {
        trim_trailing_slashes(s.drop_last())
    } else {
        s
    }
}

/// Remove trailing `/` characters.
pub fn trim_end_slashes(s: &str) -> (r: String)
    ensures
        r@ == trim_trailing_slashes(s@),
{
    let len = s.unicode_len();
    let mut end: usize = len;
    proof {
        assert(s@.subrange(0, len as int) =~= s@);
    }
    while end > 0
        invariant_except_break
            end <= len,
            len == s@.len(),
            trim_trailing_slashes(s@) == trim_trailing_slashes(s@.subrange(0, end as int)),
        ensures
            end <= len,
            len == s@.len(),
            trim_trailing_slashes(s@) == s@.subrange(0, end as int),
        decreases end,
    {
        let c = s.get_char(end - 1);
        if c == '/' {
            proof {
                let cur = s@.subrange(0, end as int);
                assert(cur.last() == s@[end as int - 1]);
                assert(cur.drop_last() =~= s@.subrange(0, end as int - 1));
            }
            end = end - 1;
        } else {
            proof {
                let cur = s@.subrange(0, end as int);
                assert(cur.last() == s@[end as int - 1]);
            }
            break;
        }
    }
    let piece = s.substring_char(0, end);
    piece.to_owned()
}

/// A lowercase hex digit.
pub open spec fn is_lower_hex(c: char) -> bool {
    ('0' <= c && c <= '9') || ('a' <= c && c <= 'f')
}

/// Whether the string is a well-formed lowercase-hex SHA-256 digest:
/// exactly 64 lowercase hex digits.
pub fn is_valid_sha256_hex(s: &str) -> (r: bool)
    ensures
        r == (s@.len() == 64 && forall|i: int| 0 <= i < s@.len() ==> is_lower_hex(#[trigger] s@[i])),
{
    let len = s.unicode_len();
    if len != 64 {
        return false;
    }
    let mut i: usize = 0;
    while i < len
        invariant
            i <= len,
            len == s@.len(),
            forall|j: int| 0 <= j < i ==> is_lower_hex(#[trigger] s@[j]),
        decreases len - i,
    {
        let c = s.get_char(i);
        if !(('0' <= c && c <= '9') || ('a' <= c && c <= 'f')) {
            return false;
        }
        i = i + 1;
    }
    true
}

/// Every character of the sequence satisfies `is_name_char`.
pub open spec fn all_name_chars(s: Seq<char>) -> bool {
    forall|i: int| 0 <= i < s.len() ==> is_name_char(#[trigger] s[i])
}

/// Whether the string is a well-formed package name: non-empty and made
/// of name characters only.
pub fn is_valid_name(s: &str) -> (r: bool)
    ensures
        r == (s@.len() > 0 && all_name_chars(s@)),
{
    let len = s.unicode_len();
    if len == 0 {
        return false;
    }
    let mut i: usize = 0;
    while i < len
        invariant
            i <= len,
            len == s@.len(),
            forall|j: int| 0 <= j < i ==> is_name_char(#[trigger] s@[j]),
        decreases len - i,
    {
        let c = s.get_char(i);
        if !(('a' <= c && c <= 'z') || ('A' <= c && c <= 'Z') || ('0' <= c && c <= '9')
            || c == '.' || c == '_' || c == '-')
        {
            return false;
        }
        i = i + 1;
    }
    true
}

} // verus!
