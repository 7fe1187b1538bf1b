//! The few texts that the calculator's rules single out, as predicates over
//! sequences of characters, and the executable tests and edits that decide or
//! produce them on a `String`.

use vstd::prelude::*;
use vstd::string::*;

verus! {

/// The text `-`: a sign that still waits for its digits.
pub open spec fn is_minus(d: Seq<char>) -> bool {
    d.len() == 1 && d[0] == '-'
}

/// The text `.`.
pub open spec fn is_dot(d: Seq<char>) -> bool {
    d.len() == 1 && d[0] == '.'
}

/// The text `0`.
pub open spec fn is_zero(d: Seq<char>) -> bool {
    d.len() == 1 && d[0] == '0'
}

/// The text `0.`.
pub open spec fn is_zero_dot(d: Seq<char>) -> bool {
    d.len() == 2 && d[0] == '0' && d[1] == '.'
}

/// The text `-0.`.
pub open spec fn is_minus_zero_dot(d: Seq<char>) -> bool {
    d.len() == 3 && d[0] == '-' && d[1] == '0' && d[2] == '.'
}

/// Whether the text ends in `.`.
pub open spec fn ends_with_dot(d: Seq<char>) -> bool {
    d.len() > 0 && d.last() == '.'
}

/// Whether the text takes more than one byte in UTF-8: it has two characters
/// or more, or its one character lies outside ASCII.
pub open spec fn longer_than_one_byte(d: Seq<char>) -> bool {
    d.len() >= 2 || (d.len() == 1 && d[0] > '\u{7f}')
}

/// A character takes one byte in UTF-8 just when it lies within ASCII, and
/// at least one byte in any case.
proof fn lemma_bytes_of_char(c: char)
    ensures
        vstd::utf8::encode_scalar(c as u32).len() >= 1,
        vstd::utf8::encode_scalar(c as u32).len() == 1 <==> c <= '\u{7f}',
{
}

/// [`longer_than_one_byte`] says what its name says: the text is longer than
/// one byte just when its encoding in UTF-8 is.
pub proof fn lemma_longer_than_one_byte(d: Seq<char>)
    ensures
        longer_than_one_byte(d) <==> vstd::utf8::encode_utf8(d).len() > 1,
{
    if d.len() > 0 {
        let rest = d.drop_first();
        lemma_bytes_of_char(d[0]);
        if rest.len() > 0 {
            lemma_bytes_of_char(rest[0]);
            assert(vstd::utf8::encode_utf8(rest).len() >= 1);
        } else {
            assert(vstd::utf8::encode_utf8(rest).len() == 0);
        }
    }
}

/// Whether `s` and `lit` hold the same characters.
pub fn same_text(s: &String, lit: &str) -> (b: bool)
    ensures
        b == (s@ == lit@),
{
    let other = lit.to_owned();
    *s == other
}

/// Whether `s` is the text `-`.
pub fn text_is_minus(s: &String) -> (b: bool)
    ensures
        b == is_minus(s@),
{
    proof {
        reveal_strlit("-");
        if is_minus(s@) {
            assert(s@ =~= "-"@);
        }
    }
    same_text(s, "-")
}

/// Whether `s` is the text `.`.
pub fn text_is_dot(s: &String) -> (b: bool)
    ensures
        b == is_dot(s@),
{
    proof {
        reveal_strlit(".");
        if is_dot(s@) {
            assert(s@ =~= "."@);
        }
    }
    same_text(s, ".")
}

/// Whether `s` is the text `0`.
pub fn text_is_zero(s: &String) -> (b: bool)
    ensures
        b == is_zero(s@),
{
    proof {
        reveal_strlit("0");
        if is_zero(s@) {
            assert(s@ =~= "0"@);
        }
    }
    same_text(s, "0")
}

/// Whether `s` is the text `0.`.
pub fn text_is_zero_dot(s: &String) -> (b: bool)
    ensures
        b == is_zero_dot(s@),
{
    proof {
        reveal_strlit("0.");
        if is_zero_dot(s@) {
            assert(s@ =~= "0."@);
        }
    }
    same_text(s, "0.")
}

/// Whether `s` is the text `-0.`.
pub fn text_is_minus_zero_dot(s: &String) -> (b: bool)
    ensures
        b == is_minus_zero_dot(s@),
{
    proof {
        reveal_strlit("-0.");
        if is_minus_zero_dot(s@) {
            assert(s@ =~= "-0."@);
        }
    }
    same_text(s, "-0.")
}

/// Whether the character `c` occurs in `s`.
pub fn text_contains(s: &String, c: char) -> (b: bool)
    ensures
        b == s@.contains(c),
{
    let t = s.as_str();
    let n: usize = t.unicode_len();
    let mut i: usize = 0;
    while i < n
        invariant
            t@ == s@,
            n == s@.len(),
            i <= n,
            forall|k: int| 0 <= k < i ==> s@[k] != c,
        decreases n - i,
    {
        if t.get_char(i) == c {
            return true;
        }
        i += 1;
    }
    false
}

/// Whether `s` ends in `.`.
pub fn text_ends_with_dot(s: &String) -> (b: bool)
    ensures
        b == ends_with_dot(s@),
{
    let t = s.as_str();
    let n: usize = t.unicode_len();
    n > 0 && t.get_char(n - 1) == '.'
}

/// Whether `s` takes more than one byte.
pub fn text_longer_than_one_byte(s: &String) -> (b: bool)
    ensures
        b == longer_than_one_byte(s@),
{
    let t = s.as_str();
    let n: usize = t.unicode_len();
    n >= 2 || (n == 1 && t.get_char(0) > '\u{7f}')
}

/// The text of `s` without its last `k` characters.
pub fn text_without_last(s: &String, k: usize) -> (r: String)
    requires
        k <= s@.len(),
    ensures
        r@ == s@.subrange(0, s@.len() - k),
{
    let t = s.as_str();
    let n: usize = t.unicode_len();
    t.substring_char(0, n - k).to_owned()
}

/// `s` followed by `tail`.
pub fn text_followed_by(s: String, tail: &str) -> (r: String)
    ensures
        r@ == s@ + tail@,
{
    s.concat(tail)
}

/// The text `0`.
pub fn text_zero() -> (r: String)
    ensures
        r@ == seq!['0'],
{
    proof {
        reveal_strlit("0");
        assert("0"@ =~= seq!['0']);
    }
    "0".to_owned()
}

/// The text `-`.
pub fn text_minus() -> (r: String)
    ensures
        r@ == seq!['-'],
{
    proof {
        reveal_strlit("-");
        assert("-"@ =~= seq!['-']);
    }
    "-".to_owned()
}

/// The text `0.`.
pub fn text_zero_dot() -> (r: String)
    ensures
        r@ == seq!['0', '.'],
{
    proof {
        reveal_strlit("0.");
        assert("0."@ =~= seq!['0', '.']);
    }
    "0.".to_owned()
}

/// The text `10`.
pub fn text_ten() -> (r: String)
    ensures
        r@ == seq!['1', '0'],
{
    proof {
        reveal_strlit("10");
        assert("10"@ =~= seq!['1', '0']);
    }
    "10".to_owned()
}

/// The text `100`.
pub fn text_hundred() -> (r: String)
    ensures
        r@ == seq!['1', '0', '0'],
{
    proof {
        reveal_strlit("100");
        assert("100"@ =~= seq!['1', '0', '0']);
    }
    "100".to_owned()
}

/// The text `-0.`.
pub fn text_minus_zero_dot() -> (r: String)
    ensures
        r@ == seq!['-', '0', '.'],
{
    proof {
        reveal_strlit("-0.");
        assert("-0."@ =~= seq!['-', '0', '.']);
    }
    "-0.".to_owned()
}

/// `s` followed by a decimal point.
pub fn text_with_dot(s: String) -> (r: String)
    ensures
        r@ == s@.push('.'),
{
    proof {
        reveal_strlit(".");
        assert(s@ + "."@ =~= s@.push('.'));
    }
    s.concat(".")
}

} // verus!
