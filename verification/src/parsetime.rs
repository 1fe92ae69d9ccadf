//! Durations on the command line: a decimal number with an optional unit,
//! `s`, `m`, `h` or `d`, read as a number of seconds.

use vstd::prelude::*;
use vstd::utf8::{encode_scalar, encode_utf8};

verus! {

/// Why a string is not a duration.
#[derive(Debug, Clone, Copy, PartialEq, Eq, Structural)]
pub enum ParseError {
    /// The string holds no character at all.
    EmptyString,
    /// The string holds a unit and nothing before it.
    NoDigits,
    /// `value`, which starts at byte `index` of the string, cannot stand there.
    InvalidCharacter { index: usize, value: char },
}

/// What `char::is_numeric` answers for a character beyond ASCII: whether
/// Unicode puts it in one of its number categories.
pub uninterp spec fn numeric_beyond_ascii(c: char) -> bool;

/// Whether `c` is numeric: one of the digits `0` to `9` among the ASCII
/// characters, and what Unicode says of any other character.
pub open spec fn numeric(c: char) -> bool {
    if c as u32 <= 0x7f {
        '0' <= c <= '9'
    } else {
        numeric_beyond_ascii(c)
    }
}

/// `char::is_numeric`: whether the character is in one of Unicode's number
/// categories. Of the ASCII characters the digits `0` to `9` are, and no
/// other; of a character beyond them the answer depends on it alone.
#[verifier::external_body]
fn is_numeric(c: char) -> (answer: bool)
    ensures
        c as u32 <= 0x7f ==> answer == ('0' <= c <= '9'),
        c as u32 > 0x7f ==> answer == numeric_beyond_ascii(c),
{
    c.is_numeric()
}

/// The number of seconds in the unit that `c` names, if it names one.
pub open spec fn unit_seconds(c: char) -> Option<nat> {
    if c == 's' {
        Some(1nat)
    } else if c == 'm' {
        Some(60nat)
    } else if c == 'h' {
        Some(3600nat)
    } else if c == 'd' {
        Some(86400nat)
    } else {
        None
    }
}

/// The length of the longest prefix of `s` made of numeric characters.
pub open spec fn numeric_prefix_len(s: Seq<char>) -> nat
    decreases s.len(),
{
    if s.len() > 0 && numeric(s[0]) {
        1 + numeric_prefix_len(s.drop_first())
    } else {
        0
    }
}

/// The byte at which character `i` of `s` starts in the UTF-8 form of `s`.
pub open spec fn byte_offset(s: Seq<char>, i: int) -> nat {
    encode_utf8(s.take(i)).len()
}

/// Whether `c` is one of the digits `0` to `9`.
pub open spec fn is_decimal_digit(c: char) -> bool {
    '0' <= c <= '9'
}

/// Whether each of `digits` is one of the digits `0` to `9`.
pub open spec fn all_decimal_digits(digits: Seq<char>) -> bool {
    forall|j: int| 0 <= j < digits.len() ==> is_decimal_digit(#[trigger] digits[j])
}

/// The number that the decimal digits `digits` write.
pub open spec fn decimal(digits: Seq<char>) -> nat
    decreases digits.len(),
{
    if digits.len() == 0 {
        0
    } else {
        (10 * decimal(digits.drop_last()) + (digits.last() as u32 - '0' as u32)) as nat
    }
}

/// The seconds in one unit of `s`, whose numeric prefix has `k` characters:
/// those of the unit that follows the prefix, and 1 where none follows.
pub open spec fn seconds_per_unit(s: Seq<char>, k: int) -> nat {
    if 0 <= k < s.len() && unit_seconds(s[k]) is Some {
        unit_seconds(s[k])->0
    } else {
        1
    }
}

/// What a string means as a duration.
///
/// A duration is one or more numeric characters, then at most one unit.
/// The first character that breaks this shape is reported with the byte at
/// which it starts. The value is the number times the seconds of its unit.
pub open spec fn parsed_time(s: Seq<char>) -> Result<nat, ParseError> {
    let k = numeric_prefix_len(s) as int;
    if s.len() == 0 {
        Err(ParseError::EmptyString)
    } else if k < s.len() && unit_seconds(s[k]) is None {
        Err(ParseError::InvalidCharacter { index: byte_offset(s, k) as usize, value: s[k] })
    } else if k + 1 < s.len() {
        Err(ParseError::InvalidCharacter { index: byte_offset(s, k + 1) as usize, value: s[k + 1] })
    } else if k == 0 {
        Err(ParseError::NoDigits)
    } else {
        Ok(decimal(s.take(k)) * seconds_per_unit(s, k))
    }
}

/// Whether the duration that `s` writes can be handed out as a `usize`: its
/// digits are `0` to `9` and its number of seconds is within the type. A
/// string that is no duration fits, since its error can be handed out.
pub open spec fn time_fits(s: Seq<char>) -> bool {
    parsed_time(s) matches Ok(seconds) ==> {
        &&& all_decimal_digits(s.take(numeric_prefix_len(s) as int))
        &&& seconds <= usize::MAX
    }
}

/// If the first `k` characters of `s` are numeric and the next one, if there
/// is one, is not, then `k` is the length of the numeric prefix.
pub proof fn lemma_numeric_prefix(s: Seq<char>, k: int)
    requires
        0 <= k <= s.len(),
        forall|j: int| 0 <= j < k ==> numeric(#[trigger] s[j]),
        k < s.len() ==> !numeric(s[k]),
    ensures
        numeric_prefix_len(s) == k,
    decreases k,
{
    if k > 0 {
        let rest = s.drop_first();
        assert forall|j: int| 0 <= j < k - 1 implies numeric(#[trigger] rest[j]) by {
            assert(rest[j] == s[j + 1]);
        }
        lemma_numeric_prefix(rest, k - 1);
    }
}

/// Appending one character appends its encoding.
proof fn lemma_encode_push(chars: Seq<char>, c: char)
    ensures
        encode_utf8(chars.push(c)) == encode_utf8(chars) + encode_scalar(c as u32),
    decreases chars.len(),
{
    let longer = chars.push(c);
    if chars.len() == 0 {
        assert(longer.drop_first() =~= Seq::<char>::empty());
        assert(encode_utf8(longer.drop_first()) =~= Seq::<u8>::empty());
        assert(encode_utf8(longer) =~= encode_scalar(c as u32));
        assert(encode_utf8(chars) =~= Seq::<u8>::empty());
    } else {
        assert(longer.drop_first() =~= chars.drop_first().push(c));
        lemma_encode_push(chars.drop_first(), c);
        assert(encode_utf8(longer) =~= encode_utf8(chars) + encode_scalar(c as u32));
    }
}

/// How the byte offsets before and after character `i` relate.
proof fn lemma_offset_step(s: Seq<char>, i: int)
    requires
        0 <= i < s.len(),
    ensures
        byte_offset(s, i + 1) == byte_offset(s, i) + encode_scalar(s[i] as u32).len(),
        encode_utf8(s.skip(i)).len() == encode_scalar(s[i] as u32).len() + encode_utf8(
            s.skip(i + 1),
        ).len(),
{
    assert(s.take(i + 1) =~= s.take(i).push(s[i]));
    lemma_encode_push(s.take(i), s[i]);
    assert(s.skip(i).drop_first() =~= s.skip(i + 1));
    assert(s.skip(i)[0] == s[i]);
}

/// The number of bytes that `c` takes in UTF-8.
fn utf8_width(c: char) -> (width: usize)
    ensures
        width == encode_scalar(c as u32).len(),
        1 <= width <= 4,
{
    let code = c as u32;
    if code < 0x80 {
        1
    } else if code < 0x800 {
        2
    } else if code < 0x10000 {
        3
    } else {
        4
    }
}

/// What one pass over a well-shaped string finds.
struct Scan {
    /// The number that the digits write, unless one of them is no decimal
    /// digit or the number is beyond `usize`.
    value: Option<usize>,
    /// The seconds in one unit.
    multiplier: usize,
}

/// Reads `input` once, front to back.
fn scan(input: &str) -> (found: Result<Scan, ParseError>)
    ensures
        found matches Err(e) ==> parsed_time(input@) == Err::<nat, ParseError>(e),
        found matches Ok(scan) ==> {
            let k = numeric_prefix_len(input@) as int;
            &&& parsed_time(input@) is Ok
            &&& scan.multiplier == seconds_per_unit(input@, k)
            &&& scan.value matches Some(v) ==> all_decimal_digits(input@.take(k)) && v == decimal(
                input@.take(k),
            )
            &&& scan.value is None ==> !all_decimal_digits(input@.take(k)) || decimal(
                input@.take(k),
            ) > usize::MAX
        },
{
    let total = input.as_bytes().len();
    let ghost s = input@;
    if total == 0 {
        assert(s.len() == 0) by {
            if s.len() > 0 {
                assert(encode_scalar(s[0] as u32).len() > 0);
            }
        }
        return Err(ParseError::EmptyString);
    }
    assert(s.len() > 0);
    let mut offset: usize = 0;
    let mut value: Option<usize> = Some(0);
    let mut multiplier: Option<usize> = None;
    assert(s.take(0) =~= Seq::<char>::empty());
    assert(s.skip(0) =~= s);
    for c in it: input.chars()
        invariant
            it.seq() == s,
            s == input@,
            offset == byte_offset(s, it.index() as int),
            offset + encode_utf8(s.skip(it.index() as int)).len() == total,
            multiplier is None ==> {
                &&& forall|j: int| 0 <= j < it.index() ==> numeric(#[trigger] s[j])
                &&& value matches Some(v) ==> all_decimal_digits(s.take(it.index() as int)) && v
                    == decimal(s.take(it.index() as int))
                &&& value is None ==> !all_decimal_digits(s.take(it.index() as int)) || decimal(
                    s.take(it.index() as int),
                ) > usize::MAX
            },
            multiplier matches Some(m) ==> {
                let k = it.index() - 1;
                &&& k >= 0
                &&& numeric_prefix_len(s) == k
                &&& unit_seconds(s[k]) == Some(m as nat)
                &&& value matches Some(v) ==> all_decimal_digits(s.take(k)) && v == decimal(
                    s.take(k),
                )
                &&& value is None ==> !all_decimal_digits(s.take(k)) || decimal(s.take(k))
                    > usize::MAX
            },
    {
        let ghost i = it.index() as int;
        assert(c == s[i]);
        proof {
            lemma_offset_step(s, i);
        }
        if multiplier.is_some() {
            return Err(ParseError::InvalidCharacter { index: offset, value: c });
        }
        if is_numeric(c) {
            proof {
                assert(s.take(i + 1).drop_last() =~= s.take(i));
                assert(s.take(i + 1).last() == c);
                if all_decimal_digits(s.take(i + 1)) {
                    assert forall|j: int| 0 <= j < i implies is_decimal_digit(
                        #[trigger] s.take(i)[j],
                    ) by {
                        assert(s.take(i)[j] == s.take(i + 1)[j]);
                    }
                    assert(is_decimal_digit(s.take(i + 1)[i]));
                }
            }
            if c >= '0' && c <= '9' {
                let d = (c as u32 - '0' as u32) as usize;
                value =
                match value {
                    Some(v) => match v.checked_mul(10) {
                        Some(tens) => tens.checked_add(d),
                        None => None,
                    },
                    None => None,
                };
            } else {
                value = None;
            }
        } else {
            proof {
                lemma_numeric_prefix(s, i);
            }
            if c == 's' {
                multiplier = Some(1);
            } else if c == 'm' {
                multiplier = Some(60);
            } else if c == 'h' {
                multiplier = Some(3600);
            } else if c == 'd' {
                multiplier = Some(86400);
            } else {
                return Err(ParseError::InvalidCharacter { index: offset, value: c });
            }
        }
        offset = offset + utf8_width(c);
    }
    match multiplier {
        Some(m) => {
            if total == 1 {
                assert(s.len() == 1) by {
                    if s.len() > 1 {
                        lemma_offset_step(s, 0);
                        lemma_offset_step(s, 1);
                    }
                }
                return Err(ParseError::NoDigits);
            }
            assert(s.len() > 1) by {
                if s.len() == 1 {
                    assert(s.take(1) =~= s);
                    assert(s.skip(1) =~= Seq::<char>::empty());
                }
            }
            Ok(Scan { value, multiplier: m })
        },
        None => {
            proof {
                lemma_numeric_prefix(s, s.len() as int);
                assert(s.take(s.len() as int) =~= s);
            }
            Ok(Scan { value, multiplier: 1 })
        },
    }
}

/// Whether `parse_time` can be called on `input`.
pub fn time_is_representable(input: &str) -> (fits: bool)
    ensures
        fits == time_fits(input@),
{
    match scan(input) {
        Err(_) => true,
        Ok(found) => match found.value {
            None => {
                assert(!time_fits(input@)) by {
                    let k = numeric_prefix_len(input@) as int;
                    let number = decimal(input@.take(k));
                    let unit = seconds_per_unit(input@, k);
                    assert(unit >= 1);
                    assert(number * unit >= number) by (nonlinear_arith)
                        requires
                            unit >= 1,
                            number >= 0,
                    ;
                }
                false
            },
            Some(v) => v.checked_mul(found.multiplier).is_some(),
        },
    }
}

/// Parses a duration into a number of seconds.
///
/// `"3600"`, `"60m"` and `"1h"` are all an hour; `"1d"` is a day. A string
/// that is no duration gives the error that says why.
pub fn parse_time(input: &str) -> (result: Result<usize, ParseError>)
    requires
        time_fits(input@),
    ensures
        result matches Ok(seconds) ==> parsed_time(input@) == Ok::<nat, ParseError>(seconds as nat),
        result matches Err(e) ==> parsed_time(input@) == Err::<nat, ParseError>(e),
{
    match scan(input) {
        Err(e) => Err(e),
        Ok(found) => {
            proof {
                let k = numeric_prefix_len(input@) as int;
                let number = decimal(input@.take(k));
                let unit = seconds_per_unit(input@, k);
                assert(parsed_time(input@) == Ok::<nat, ParseError>(number * unit));
                assert(unit >= 1);
                assert(number * unit >= number) by (nonlinear_arith)
                    requires
                        unit >= 1,
                        number >= 0,
                ;
            }
            let number = found.value.unwrap();
            Ok(number * found.multiplier)
        },
    }
}

/// Parses a duration where it can be handed out, and says `None` where the
/// string is a duration that `usize` cannot hold or that is written with
/// other digits than `0` to `9`.
pub fn try_parse_time(input: &str) -> (result: Option<Result<usize, ParseError>>)
    ensures
        result is Some <==> time_fits(input@),
        result matches Some(Ok(seconds)) ==> parsed_time(input@) == Ok::<nat, ParseError>(
            seconds as nat,
        ),
        result matches Some(Err(e)) ==> parsed_time(input@) == Err::<nat, ParseError>(e),
{
    if time_is_representable(input) {
        Some(parse_time(input))
    } else {
        None
    }
}

} // verus!
