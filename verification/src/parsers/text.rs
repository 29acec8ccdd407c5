use vstd::prelude::*;
use vstd::std_specs::iter::IteratorSpec;

verus! {

broadcast use vstd::string::group_string_axioms;

/// The number of bytes of the UTF-8 encoding of `c`.
pub open spec fn char_width(c: char) -> nat {
    if (c as u32) < 0x80 {
        1
    } else if (c as u32) < 0x800 {
        2
    } else if (c as u32) < 0x10000 {
        3
    } else {
        4
    }
}

/// The number of bytes of the UTF-8 encoding of `s`.
pub open spec fn byte_len(s: Seq<char>) -> nat
    decreases s.len(),
{
    if s.len() == 0 {
        0
    } else {
        byte_len(s.drop_last()) + char_width(s.last())
    }
}

/// The number of bytes of the UTF-8 encoding of `c`.
pub fn len_utf8(c: char) -> (n: usize)
    ensures
        n == char_width(c),
        1 <= n <= 4,
{
    let u = c as u32;
    if u < 0x80 {
        1
    } else if u < 0x800 {
        2
    } else if u < 0x10000 {
        3
    } else {
        4
    }
}

/// The byte length grows by at least one with each character.
pub proof fn lemma_byte_len_prefix(s: Seq<char>, i: int, j: int)
    requires
        0 <= i <= j <= s.len(),
    ensures
        byte_len(s.take(i)) + (j - i) <= byte_len(s.take(j)),
        byte_len(s.take(j)) <= byte_len(s),
    decreases j - i,
{
    lemma_byte_len_take_bound(s, j);
    if i < j {
        lemma_byte_len_prefix(s, i, j - 1);
        assert(s.take(j).drop_last() =~= s.take(j - 1));
    }
}

/// A prefix is no longer in bytes than the whole.
pub proof fn lemma_byte_len_take_bound(s: Seq<char>, j: int)
    requires
        0 <= j <= s.len(),
    ensures
        byte_len(s.take(j)) <= byte_len(s),
    decreases s.len() - j,
{
    if j < s.len() {
        lemma_byte_len_take_bound(s, j + 1);
        assert(s.take(j + 1).drop_last() =~= s.take(j));
    } else {
        assert(s.take(j) =~= s);
    }
}

/// The byte length of a concatenation is the sum of the byte lengths.
pub proof fn lemma_byte_len_concat(a: Seq<char>, b: Seq<char>)
    ensures
        byte_len(a + b) == byte_len(a) + byte_len(b),
    decreases b.len(),
{
    if b.len() == 0 {
        assert(a + b =~= a);
    } else {
        lemma_byte_len_concat(a, b.drop_last());
        assert((a + b).drop_last() =~= a + b.drop_last());
    }
}

/// The byte length of `s` extended by one character.
pub proof fn lemma_byte_len_push(s: Seq<char>, c: char)
    ensures
        byte_len(s.push(c)) == byte_len(s) + char_width(c),
{
    assert(s.push(c).drop_last() =~= s);
}

/// The characters of `s`.
pub fn str_chars(s: &str) -> (v: Vec<char>)
    ensures
        v@ == s@,
{
    let mut it = s.chars();
    let mut v: Vec<char> = Vec::new();
    loop
        invariant_except_break
            it.remaining() == s@.skip(v.len() as int),
            v@ == s@.take(v.len() as int),
            v.len() <= s@.len(),
        ensures
            v@ == s@,
        decreases s@.len() - v.len(),
    {
        match it.next() {
            Some(c) => {
                proof {
                    assert(s@.skip(v.len() as int)[0] == c);
                    assert(s@.skip(v.len() as int).drop_first() =~= s@.skip(v.len() + 1));
                }
                v.push(c);
                assert(v@ =~= s@.take(v.len() as int));
            },
            None => {
                assert(s@.take(v.len() as int) =~= s@);
                break;
            },
        }
    }
    v
}

/// Appends `c` to `s` (`String::push`).
#[verifier::external_body]
pub fn push_char(s: &mut String, c: char)
    ensures
        final(s)@ == old(s)@.push(c),
{
    s.push(c);
}

/// Appends the characters of `s` to `out`.
pub fn push_str(out: &mut String, s: &str)
    ensures
        final(out)@ == old(out)@ + s@,
{
    let chars = str_chars(s);
    let mut i: usize = 0;
    while i < chars.len()
        invariant
            i <= chars@.len(),
            chars@ == s@,
            out@ == old(out)@ + chars@.take(i as int),
        decreases chars.len() - i,
    {
        push_char(out, chars[i]);
        i = i + 1;
        proof {
            assert(out@ =~= old(out)@ + chars@.take(i as int));
        }
    }
    proof {
        assert(chars@.take(i as int) =~= chars@);
    }
}

/// A string holding the characters of `chars`.
pub fn string_from_chars(chars: &[char]) -> (s: String)
    ensures
        s@ == chars@,
{
    let mut s = String::new();
    let mut i: usize = 0;
    while i < chars.len()
        invariant
            i <= chars.len(),
            s@ == chars@.take(i as int),
        decreases chars.len() - i,
    {
        push_char(&mut s, chars[i]);
        i = i + 1;
        assert(s@ =~= chars@.take(i as int));
    }
    assert(chars@.take(i as int) =~= chars@);
    s
}

/// Whether `c` has the Unicode Alphabetic property (`char::is_alphabetic`).
pub uninterp spec fn is_alphabetic_spec(c: char) -> bool;

/// Whether `c` is alphabetic or numeric in Unicode (`char::is_alphanumeric`).
pub uninterp spec fn is_alphanumeric_spec(c: char) -> bool;

/// Whether `c` has the Unicode White_Space property (`char::is_whitespace`).
pub uninterp spec fn is_whitespace_spec(c: char) -> bool;

/// An ASCII letter.
pub open spec fn is_ascii_letter(c: char) -> bool {
    ('a' <= c && c <= 'z') || ('A' <= c && c <= 'Z')
}

/// An ASCII decimal digit.
pub open spec fn is_ascii_digit(c: char) -> bool {
    '0' <= c && c <= '9'
}

/// `char::is_alphabetic`: the Unicode Alphabetic property, which among ASCII
/// characters holds exactly of the letters.
#[verifier::external_body]
pub fn is_alphabetic(c: char) -> (r: bool)
    ensures
        r == is_alphabetic_spec(c),
        (c as u32) < 128 ==> (r <==> is_ascii_letter(c)),
{
    c.is_alphabetic()
}

/// `char::is_alphanumeric`: alphabetic or numeric in Unicode, which among ASCII
/// characters holds exactly of the letters and decimal digits.
#[verifier::external_body]
pub fn is_alphanumeric(c: char) -> (r: bool)
    ensures
        r == is_alphanumeric_spec(c),
        (c as u32) < 128 ==> (r <==> (is_ascii_letter(c) || is_ascii_digit(c))),
{
    c.is_alphanumeric()
}

/// `char::is_whitespace`: the Unicode White_Space property, which among ASCII
/// characters holds exactly of tab, line feed, vertical tab, form feed,
/// carriage return and space.
#[verifier::external_body]
pub fn is_whitespace(c: char) -> (r: bool)
    ensures
        r == is_whitespace_spec(c),
        (c as u32) < 128 ==> (r <==> (c == '\t' || c == '\n' || c == '\x0B' || c == '\x0C' || c
            == '\r' || c == ' ')),
{
    c.is_whitespace()
}

} // verus!
