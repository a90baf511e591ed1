//! Verified character-level string helpers: equality, conversion between
//! strings and character vectors, ASCII lowering, trimming and decimal
//! parsing. Two small trusted wrappers cover the std functions that vstd
//! leaves unspecified.
use vstd::prelude::*;
use vstd::string::StrSliceExecFns;
use vstd::utf8::decode_utf8;
use vstd::utf8::valid_utf8;

verus! {

/// Relies on std's `String::push`: appends exactly one character.
#[verifier::external_body]
pub fn push_char(s: &mut String, c: char)
    ensures
        final(s)@ == old(s)@.push(c),
{
    s.push(c);
}

/// Relies on std's `String::from_utf8`: succeeds exactly on valid UTF-8
/// input and returns its decoding (vstd's `decode_utf8` is the reference
/// model of that decoding).
#[verifier::external_body]
pub fn bytes_to_string(b: Vec<u8>) -> (r: Option<String>)
    ensures
        r is Some <==> valid_utf8(b@),
        r matches Some(s) ==> s@ == decode_utf8(b@),
{
    String::from_utf8(b).ok()
}

/// Character-for-character string equality.
pub fn str_eq(a: &str, b: &str) -> (r: bool)
    ensures
        r == (a@ == b@),
{
    let alen = a.unicode_len();
    let blen = b.unicode_len();
    if alen != blen {
        return false;
    }
    let mut i: usize = 0;
    while i < alen
        invariant
            alen == a@.len(),
            alen == b@.len(),
            0 <= i <= alen,
            forall|j: int| 0 <= j < i ==> a@[j] == b@[j],
        decreases alen - i,
    {
        if a.get_char(i) != b.get_char(i) {
            return false;
        }
        i += 1;
    }
    proof {
        assert(a@ =~= b@);
    }
    true
}

/// The characters of `s`, in order, as a vector.
pub fn str_to_chars(s: &str) -> (r: Vec<char>)
    ensures
        r@ == s@,
{
    let len = s.unicode_len();
    let mut r: Vec<char> = Vec::new();
    let mut i: usize = 0;
    while i < len
        invariant
            len == s@.len(),
            0 <= i <= len,
            r@ == s@.take(i as int),
        decreases len - i,
    {
        r.push(s.get_char(i));
        proof {
            assert(r@ =~= s@.take(i + 1 as int));
        }
        i += 1;
    }
    proof {
        assert(s@.take(len as int) =~= s@);
    }
    r
}

/// The characters of `v`, in order, as a string.
pub fn chars_to_string(v: &Vec<char>) -> (r: String)
    ensures
        r@ == v@,
{
    let mut r = String::new();
    let mut i: usize = 0;
    while i < v.len()
        invariant
            0 <= i <= v@.len(),
            r@ == v@.take(i as int),
        decreases v@.len() - i,
    {
        push_char(&mut r, v[i]);
        proof {
            assert(r@ =~= v@.take(i + 1 as int));
        }
        i += 1;
    }
    proof {
        assert(v@.take(v@.len() as int) =~= v@);
    }
    r
}

/// An upper-case ASCII letter lowered; every other character unchanged.
pub open spec fn spec_lower_char(c: char) -> char {
    if 65 <= (c as u32) && (c as u32) <= 90 {
        ((c as u32) + 32) as char
    } else {
        c
    }
}

/// `s` with its upper-case ASCII letters lowered.
pub open spec fn spec_lower(s: Seq<char>) -> Seq<char> {
    s.map_values(|c: char| spec_lower_char(c))
}

/// Lower the upper-case ASCII letters of one character.
pub fn lower_char(c: char) -> (r: char)
    ensures
        r == spec_lower_char(c),
{
    let u = c as u32;
    if 65 <= u && u <= 90 {
        (((u + 32) as u8) as char)
    } else {
        c
    }
}

/// Lower the upper-case ASCII letters of a character vector.
pub fn lower_chars(v: &Vec<char>) -> (r: Vec<char>)
    ensures
        r@ == spec_lower(v@),
{
    let mut r: Vec<char> = Vec::new();
    let mut i: usize = 0;
    while i < v.len()
        invariant
            0 <= i <= v@.len(),
            r@ == spec_lower(v@).take(i as int),
        decreases v@.len() - i,
    {
        r.push(lower_char(v[i]));
        proof {
            assert(r@ =~= spec_lower(v@).take(i + 1 as int));
        }
        i += 1;
    }
    proof {
        assert(spec_lower(v@).take(v@.len() as int) =~= spec_lower(v@));
    }
    r
}

/// ASCII whitespace, the characters trimmed from header names.
pub open spec fn spec_is_space(c: char) -> bool {
    c == ' ' || c == '\t' || c == '\r' || c == '\n'
}

/// Is `c` ASCII whitespace?
pub fn is_space(c: char) -> (r: bool)
    ensures
        r == spec_is_space(c),
{
    c == ' ' || c == '\t' || c == '\r' || c == '\n'
}

/// The longest prefix of `s` made of whitespace.
pub open spec fn spec_leading_spaces(s: Seq<char>) -> int
    decreases s.len(),
{
    if s.len() == 0 || !spec_is_space(s[0]) {
        0
    } else {
        1 + spec_leading_spaces(s.drop_first())
    }
}

/// `s` without leading and trailing ASCII whitespace.
pub open spec fn spec_trim(s: Seq<char>) -> Seq<char> {
    let front = spec_leading_spaces(s);
    let rest = s.skip(front);
    let back = spec_leading_spaces(rest.reverse());
    rest.take(rest.len() - back)
}

/// Trim leading and trailing ASCII whitespace from a character vector.
pub fn trim_chars(v: &Vec<char>) -> (r: Vec<char>)
    ensures
        r@ == spec_trim(v@),
{
    let mut start: usize = 0;
    while start < v.len() && is_space(v[start])
        invariant
            0 <= start <= v@.len(),
            forall|j: int| 0 <= j < start ==> spec_is_space(v@[j]),
        decreases v@.len() - start,
    {
        start += 1;
    }
    proof {
        lemma_leading_spaces_bound(v@, start as int);
    }
    let mut end: usize = v.len();
    while end > start && is_space(v[end - 1])
        invariant
            start <= end <= v@.len(),
            forall|j: int| end <= j < v@.len() ==> spec_is_space(v@[j]),
            !(start < v@.len() && spec_is_space(v@[start as int])) || start < end || start == end,
        decreases end,
    {
        end -= 1;
    }
    let mut r: Vec<char> = Vec::new();
    let mut i: usize = start;
    while i < end
        invariant
            start <= i <= end <= v@.len(),
            r@ == v@.subrange(start as int, i as int),
        decreases end - i,
    {
        r.push(v[i]);
        proof {
            assert(r@ =~= v@.subrange(start as int, i + 1 as int));
        }
        i += 1;
    }
    proof {
        let s = v@;
        let front = spec_leading_spaces(s);
        assert(front == start as int) by {
            lemma_leading_spaces_bound(s, start as int);
            if start < s.len() {
                lemma_leading_spaces_char(s, start as int);
            } else {
                lemma_leading_spaces_at_most(s);
            }
        }
        let rest = s.skip(front);
        let back = spec_leading_spaces(rest.reverse());
        assert(back == rest.len() - (end - start)) by {
            lemma_leading_spaces_bound(rest.reverse(), rest.len() - (end - start));
            if end > start {
                assert(!spec_is_space(rest.reverse()[rest.len() - (end - start)])) by {
                    assert(rest.reverse()[rest.len() - (end - start)] == s[end - 1]);
                }
                lemma_leading_spaces_char(rest.reverse(), rest.len() - (end - start));
            } else {
                lemma_leading_spaces_at_most(rest.reverse());
            }
        }
        assert(r@ =~= rest.take(rest.len() - back));
    }
    r
}

/// If the first `k` characters are whitespace, at least `k` are counted.
proof fn lemma_leading_spaces_bound(s: Seq<char>, k: int)
    requires
        0 <= k <= s.len(),
        forall|j: int| 0 <= j < k ==> spec_is_space(s[j]),
    ensures
        spec_leading_spaces(s) >= k,
    decreases k,
{
    if k > 0 {
        assert(spec_is_space(s[0]));
        assert forall|j: int| 0 <= j < k - 1 implies spec_is_space(s.drop_first()[j]) by {
            assert(s.drop_first()[j] == s[j + 1]);
        }
        lemma_leading_spaces_bound(s.drop_first(), k - 1);
    } else {
        lemma_leading_spaces_at_most(s);
    }
}

/// The count stops at the first non-whitespace character.
proof fn lemma_leading_spaces_char(s: Seq<char>, k: int)
    requires
        0 <= k < s.len(),
        forall|j: int| 0 <= j < k ==> spec_is_space(s[j]),
        !spec_is_space(s[k]),
    ensures
        spec_leading_spaces(s) == k,
    decreases k,
{
    if k > 0 {
        assert(spec_is_space(s[0]));
        assert forall|j: int| 0 <= j < k - 1 implies spec_is_space(s.drop_first()[j]) by {
            assert(s.drop_first()[j] == s[j + 1]);
        }
        assert(s.drop_first()[k - 1] == s[k as int]);
        lemma_leading_spaces_char(s.drop_first(), k - 1);
    }
}

/// The count never exceeds the length.
proof fn lemma_leading_spaces_at_most(s: Seq<char>)
    ensures
        0 <= spec_leading_spaces(s) <= s.len(),
    decreases s.len(),
{
    if s.len() > 0 && spec_is_space(s[0]) {
        lemma_leading_spaces_at_most(s.drop_first());
    }
}

/// Is `c` a decimal digit?
pub open spec fn spec_is_digit(c: char) -> bool {
    48 <= (c as u32) && (c as u32) <= 57
}

/// The value of a decimal digit.
pub open spec fn spec_digit_val(c: char) -> nat {
    ((c as u32) - 48) as nat
}

/// The value of a digit string, most significant digit first.
pub open spec fn spec_dec_value(s: Seq<char>) -> nat
    decreases s.len(),
{
    if s.len() == 0 {
        0
    } else {
        spec_dec_value(s.drop_last()) * 10 + spec_digit_val(s.last())
    }
}

/// What parsing a decimal string yields: its value, if the string is
/// nonempty, all digits, and the value fits in a `u64`.
pub open spec fn spec_parse_u64(s: Seq<char>) -> Option<u64> {
    if s.len() > 0 && (forall|j: int| 0 <= j < s.len() ==> spec_is_digit(s[j]))
        && spec_dec_value(s) <= u64::MAX {
        Some(spec_dec_value(s) as u64)
    } else {
        None
    }
}

/// Appending digits never decreases the value.
proof fn lemma_dec_value_mono(s: Seq<char>, i: int, j: int)
    requires
        0 <= i <= j <= s.len(),
    ensures
        spec_dec_value(s.take(i)) <= spec_dec_value(s.take(j)),
    decreases j - i,
{
    if i < j {
        lemma_dec_value_mono(s, i, j - 1);
        assert(s.take(j).drop_last() =~= s.take(j - 1));
        assert(spec_dec_value(s.take(j)) == spec_dec_value(s.take(j - 1)) * 10 + spec_digit_val(
            s.take(j).last(),
        ));
    }
}

/// Parse a decimal `u64`, rejecting empty input, non-digit characters and
/// overflow.
pub fn parse_u64(v: &Vec<char>) -> (r: Option<u64>)
    ensures
        r == spec_parse_u64(v@),
{
    if v.len() == 0 {
        return None;
    }
    let mut acc: u64 = 0;
    let mut i: usize = 0;
    while i < v.len()
        invariant
            0 < v@.len(),
            0 <= i <= v@.len(),
            forall|j: int| 0 <= j < i ==> spec_is_digit(v@[j]),
            acc == spec_dec_value(v@.take(i as int)),
        decreases v@.len() - i,
    {
        let c = v[i];
        let u = c as u32;
        if u < 48 || u > 57 {
            proof {
                assert(!spec_is_digit(v@[i as int]));
            }
            return None;
        }
        proof {
            assert(spec_is_digit(v@[i as int]));
        }
        let d = (u - 48) as u64;
        let wide: u128 = (acc as u128) * 10 + (d as u128);
        proof {
            assert(v@.take(i + 1 as int).drop_last() =~= v@.take(i as int));
            assert(spec_dec_value(v@.take(i + 1 as int)) == acc * 10 + d);
        }
        if wide > u64::MAX as u128 {
            proof {
                lemma_dec_value_mono(v@, i + 1 as int, v@.len() as int);
                assert(v@.take(v@.len() as int) =~= v@);
            }
            return None;
        }
        acc = wide as u64;
        i += 1;
    }
    proof {
        assert(v@.take(v@.len() as int) =~= v@);
    }
    Some(acc)
}

} // verus!
