use vstd::prelude::*;

verus! {

/// The characters with the Unicode `White_Space` property, which is what
/// `char::is_whitespace` tests and what `str::trim` removes.
pub open spec fn is_white_space(c: char) -> bool {
    let n = c as int;
    ||| 0x9 <= n <= 0xd
    ||| n == 0x20
    ||| n == 0x85
    ||| n == 0xa0
    ||| n == 0x1680
    ||| 0x2000 <= n <= 0x200a
    ||| n == 0x2028
    ||| n == 0x2029
    ||| n == 0x202f
    ||| n == 0x205f
    ||| n == 0x3000
}

/// `s` without its leading white space.
pub open spec fn trim_start_spec(s: Seq<char>) -> Seq<char>
    decreases s.len(),
{
    if s.len() > 0 && is_white_space(s[0]) {
        trim_start_spec(s.drop_first())
    } else {
        s
    }
}

/// `s` without its trailing white space.
pub open spec fn trim_end_spec(s: Seq<char>) -> Seq<char>
    decreases s.len(),
{
    if s.len() > 0 && is_white_space(s.last()) {
        trim_end_spec(s.drop_last())
    } else {
        s
    }
}

/// `s` without white space at either end.
pub open spec fn trim_spec(s: Seq<char>) -> Seq<char> {
    trim_end_spec(trim_start_spec(s))
}

/// Whether `c` is one of the ASCII digits `0` to `9`.
pub open spec fn is_ascii_digit(c: char) -> bool {
    '0' as int <= c as int <= '9' as int
}

/// The number that a string of ASCII digits writes in base ten.
pub open spec fn decimal_value(s: Seq<char>) -> int
    decreases s.len(),
{
    if s.len() == 0 {
        0
    } else {
        decimal_value(s.drop_last()) * 10 + (s.last() as int - '0' as int)
    }
}

/// The digits of an unsigned number in text: the text without one leading `+`.
pub open spec fn unsigned_digits(s: Seq<char>) -> Seq<char> {
    if s.len() > 0 && s[0] == '+' {
        s.drop_first()
    } else {
        s
    }
}

/// Whether `s` is an unsigned decimal number: an optional `+`, then at least
/// one digit and nothing but digits.
pub open spec fn is_unsigned_text(s: Seq<char>) -> bool {
    let d = unsigned_digits(s);
    &&& d.len() > 0
    &&& forall|i: int| 0 <= i < d.len() ==> is_ascii_digit(#[trigger] d[i])
}

/// The number that an unsigned decimal text writes.
pub open spec fn unsigned_value(s: Seq<char>) -> int {
    decimal_value(unsigned_digits(s))
}

/// A string of ASCII digits writes a number that is not negative.
pub proof fn lemma_decimal_value_nonneg(s: Seq<char>)
    requires
        forall|i: int| 0 <= i < s.len() ==> is_ascii_digit(#[trigger] s[i]),
    ensures
        decimal_value(s) >= 0,
    decreases s.len(),
{
    if s.len() > 0 {
        let p = s.drop_last();
        assert forall|i: int| 0 <= i < p.len() implies is_ascii_digit(#[trigger] p[i]) by {
            assert(p[i] == s[i]);
        }
        lemma_decimal_value_nonneg(p);
        assert(is_ascii_digit(s[s.len() - 1]));
    }
}

/// An unsigned decimal text writes a number that is not negative.
pub proof fn lemma_unsigned_value_nonneg(s: Seq<char>)
    requires
        is_unsigned_text(s),
    ensures
        unsigned_value(s) >= 0,
{
    lemma_decimal_value_nonneg(unsigned_digits(s));
}

/// `str::trim`: the text without leading and trailing white space.
#[verifier::external_body]
pub(crate) fn trim_str(s: &str) -> (r: &str)
    ensures
        r@ == trim_spec(s@),
{
    s.trim()
}

/// `str::trim_end`: the text without trailing white space.
#[verifier::external_body]
pub(crate) fn trim_end_str(s: &str) -> (r: &str)
    ensures
        r@ == trim_end_spec(s@),
{
    s.trim_end()
}

/// `str::parse::<u32>`: the number, where the text is an unsigned decimal
/// number that fits in a `u32`.
#[verifier::external_body]
pub(crate) fn parse_u32(s: &str) -> (r: Option<u32>)
    ensures
        r == (if is_unsigned_text(s@) && unsigned_value(s@) <= u32::MAX {
            Some(unsigned_value(s@) as u32)
        } else {
            None::<u32>
        }),
{
    s.parse::<u32>().ok()
}

/// `str::parse::<usize>`: the number, where the text is an unsigned decimal
/// number that fits in a `usize`.
#[verifier::external_body]
pub(crate) fn parse_usize(s: &str) -> (r: Option<usize>)
    ensures
        r == (if is_unsigned_text(s@) && unsigned_value(s@) <= usize::MAX {
            Some(unsigned_value(s@) as usize)
        } else {
            None::<usize>
        }),
{
    s.parse::<usize>().ok()
}

/// A copy of `s` without white space at either end.
pub fn trimmed(s: &str) -> (r: String)
    ensures
        r@ == trim_spec(s@),
{
    trim_str(s).to_owned()
}

/// A copy of `s` without trailing white space.
pub fn trimmed_end(s: &str) -> (r: String)
    ensures
        r@ == trim_end_spec(s@),
{
    trim_end_str(s).to_owned()
}

} // verus!
