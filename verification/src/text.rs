//! Text primitives: Unicode white space, trimming and decimal integers.

use vstd::prelude::*;

verus! {

/// Whether `c` has the Unicode `White_Space` property (PropList.txt).
pub open spec fn is_white_space(c: char) -> bool {
    let u = c as int;
    ||| 0x09 <= u <= 0x0D
    ||| u == 0x20
    ||| u == 0x85
    ||| u == 0xA0
    ||| u == 0x1680
    ||| 0x2000 <= u <= 0x200A
    ||| u == 0x2028
    ||| u == 0x2029
    ||| u == 0x202F
    ||| u == 0x205F
    ||| u == 0x3000
}

/// `s` without its leading and trailing white space.
pub open spec fn trimmed(s: Seq<char>) -> Seq<char>
    decreases s.len(),
{
    if s.len() > 0 && is_white_space(s[0]) {
        trimmed(s.drop_first())
    } else if s.len() > 0 && is_white_space(s.last()) {
        trimmed(s.drop_last())
    } else {
        s
    }
}

/// Whether every character of `s` is white space (so also when `s` is empty).
pub open spec fn is_blank(s: Seq<char>) -> bool {
    forall|i: int| 0 <= i < s.len() ==> is_white_space(#[trigger] s[i])
}

/// Trimming leaves nothing exactly when the text is blank.
pub proof fn lemma_trimmed_empty_iff_blank(s: Seq<char>)
    ensures
        (trimmed(s).len() == 0) == is_blank(s),
    decreases s.len(),
{
    if s.len() > 0 && is_white_space(s[0]) {
        let t = s.drop_first();
        lemma_trimmed_empty_iff_blank(t);
        if is_blank(t) {
            assert forall|i: int| 0 <= i < s.len() implies is_white_space(#[trigger] s[i]) by {
                if i > 0 {
                    assert(s[i] == t[i - 1]);
                }
            }
        }
        if is_blank(s) {
            assert forall|i: int| 0 <= i < t.len() implies is_white_space(#[trigger] t[i]) by {
                assert(t[i] == s[i + 1]);
            }
        }
    } else if s.len() > 0 && is_white_space(s.last()) {
        let t = s.drop_last();
        lemma_trimmed_empty_iff_blank(t);
        if is_blank(t) {
            assert forall|i: int| 0 <= i < s.len() implies is_white_space(#[trigger] s[i]) by {
                if i < s.len() - 1 {
                    assert(s[i] == t[i]);
                }
            }
        }
        if is_blank(s) {
            assert forall|i: int| 0 <= i < t.len() implies is_white_space(#[trigger] t[i]) by {
                assert(t[i] == s[i]);
            }
        }
    } else if s.len() > 0 {
        assert(!is_white_space(s[0]));
    }
}

/// `str::trim` of std: removes leading and trailing white space, white space
/// being the characters with the Unicode `White_Space` property. The
/// contract claims that the result is `trimmed` of the input.
#[verifier::external_body]
pub(crate) fn trim(s: &str) -> (r: &str)
    ensures
        r@ == trimmed(s@),
{
    s.trim()
}

/// The value of a non-empty run of ASCII decimal digits.
pub open spec fn decimal_value(digits: Seq<char>) -> int
    decreases digits.len(),
{
    if digits.len() == 0 {
        0
    } else {
        decimal_value(digits.drop_last()) * 10 + (digits.last() as int - '0' as int)
    }
}

/// Whether `digits` is a non-empty run of ASCII decimal digits.
pub open spec fn is_decimal_digits(digits: Seq<char>) -> bool {
    &&& digits.len() > 0
    &&& forall|i: int|
        0 <= i < digits.len() ==> '0' as int <= #[trigger] digits[i] as int <= '9' as int
}

/// The `i64` that decimal text denotes: an optional `+` or `-` sign, then one
/// or more ASCII digits, and nothing else; `None` when the text has another
/// form or its value lies outside the range of `i64`.
pub open spec fn parse_i64(s: Seq<char>) -> Option<i64> {
    let signed = s.len() > 0 && (s[0] == '-' || s[0] == '+');
    let negative = s.len() > 0 && s[0] == '-';
    let digits = if signed {
        s.drop_first()
    } else {
        s
    };
    if is_decimal_digits(digits) {
        let v = if negative {
            -decimal_value(digits)
        } else {
            decimal_value(digits)
        };
        if i64::MIN <= v <= i64::MAX {
            Some(v as i64)
        } else {
            None
        }
    } else {
        None
    }
}

/// `<i64 as FromStr>::from_str` of std (`str::parse::<i64>`), its error
/// mapped to `None`. Its documentation: the text is an optional `+` or `-`
/// sign followed by decimal digits only; other text, empty text and values
/// out of range are errors. The contract claims exactly `parse_i64`.
#[verifier::external_body]
pub(crate) fn parse_decimal_i64(s: &str) -> (r: Option<i64>)
    ensures
        r == parse_i64(s@),
{
    s.parse::<i64>().ok()
}

/// The space, tab, line feed, vertical tab, form feed and carriage return are
/// white space; no printable ASCII character (`!` to `~`) is.
pub proof fn lemma_ascii_white_space(c: char)
    ensures
        c == ' ' || c == '\t' || c == '\n' || c == '\r' || c as int == 0x0B || c as int == 0x0C
            ==> is_white_space(c),
        0x21 <= c as int <= 0x7E ==> !is_white_space(c),
{
}

/// A single ASCII digit denotes its own value.
pub proof fn lemma_parse_single_digit(c: char)
    requires
        '0' as int <= c as int <= '9' as int,
    ensures
        parse_i64(seq![c]) == Some((c as int - '0' as int) as i64),
{
    let s = seq![c];
    assert(s.drop_last() =~= Seq::<char>::empty());
    assert(decimal_value(Seq::<char>::empty()) == 0);
    assert(decimal_value(s) == c as int - '0' as int);
    assert(s[0] == c);
    assert(is_decimal_digits(s));
}

/// Appending a digit to decimal digits multiplies the value by ten and adds
/// the digit; the text is refused once the value leaves the range of `i64`.
pub proof fn lemma_parse_append_digit(digits: Seq<char>, c: char)
    requires
        is_decimal_digits(digits),
        parse_i64(digits) is Some,
        '0' as int <= c as int <= '9' as int,
    ensures
        ({
            let v = parse_i64(digits).unwrap() * 10 + (c as int - '0' as int);
            &&& v <= i64::MAX ==> parse_i64(digits.push(c)) == Some(v as i64)
            &&& v > i64::MAX ==> parse_i64(digits.push(c)) is None
        }),
{
    let t = digits.push(c);
    assert(t.drop_last() =~= digits);
    assert(t[0] == digits[0]);
    assert('0' as int <= digits[0] as int);
    assert(is_decimal_digits(t)) by {
        assert forall|i: int| 0 <= i < t.len() implies '0' as int <= #[trigger] t[i] as int
            <= '9' as int by {
            if i < digits.len() {
                assert(t[i] == digits[i]);
            }
        }
    }
    assert(decimal_value(digits) >= 0) by {
        lemma_decimal_value_nonneg(digits);
    }
}

proof fn lemma_decimal_value_nonneg(digits: Seq<char>)
    requires
        forall|i: int| 0 <= i < digits.len() ==> '0' as int <= #[trigger] digits[i] as int,
    ensures
        decimal_value(digits) >= 0,
    decreases digits.len(),
{
    if digits.len() > 0 {
        let d = digits.drop_last();
        assert forall|i: int| 0 <= i < d.len() implies '0' as int <= #[trigger] d[i] as int by {
            assert(d[i] == digits[i]);
        }
        lemma_decimal_value_nonneg(d);
        assert(digits[digits.len() - 1] == digits.last());
    }
}

/// A leading `+` leaves the value of decimal text unchanged, and a leading
/// `-` negates it.
pub proof fn lemma_parse_sign(digits: Seq<char>)
    requires
        is_decimal_digits(digits),
        parse_i64(digits) is Some,
    ensures
        parse_i64(seq!['+'] + digits) == parse_i64(digits),
        parse_i64(seq!['-'] + digits) == Some((-parse_i64(digits).unwrap()) as i64),
{
    assert((seq!['+'] + digits).drop_first() =~= digits);
    assert((seq!['-'] + digits).drop_first() =~= digits);
    assert('0' as int <= digits[0] as int);
    lemma_decimal_value_nonneg(digits);
}

} // verus!
