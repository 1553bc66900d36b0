//! Text helpers: UTF-8 conversions, comparisons and decimal numbers.
use vstd::prelude::*;
use vstd::slice::slice_subrange;
use vstd::utf8::*;

verus! {

/// Why a byte string is not UTF-8.
#[derive(Debug, Clone, Copy, PartialEq, Eq, Structural)]
pub struct Utf8Error {
    /// Length of the longest prefix that is UTF-8.
    pub valid_up_to: usize,
    /// Length of the invalid sequence behind that prefix, or `None` where the
    /// input ends inside a sequence.
    pub error_len: Option<usize>,
}

/// `end` is the length of the longest prefix of `bytes` that is UTF-8.
pub open spec fn longest_valid_prefix(bytes: Seq<u8>, end: int) -> bool {
    &&& 0 <= end <= bytes.len()
    &&& valid_utf8(bytes.take(end))
    &&& forall|longer: int| end < longer <= bytes.len() ==> !valid_utf8(#[trigger] bytes.take(longer))
}

/// What [`std::str::Utf8Error::error_len`] tells of a byte string that
/// [`std::str::from_utf8`] rejects.
pub uninterp spec fn utf8_error_len(bytes: Seq<u8>) -> Option<usize>;

/// What [`String::from_utf8_lossy`] makes of a byte string.
pub uninterp spec fn lossy_utf8(bytes: Seq<u8>) -> Seq<char>;

/// [`std::str::from_utf8`]: accepts exactly the UTF-8 byte strings and decodes
/// them. A rejection names the longest prefix that is UTF-8, and what
/// `error_len` returns.
#[verifier::external_body]
pub(crate) fn checked_utf8(bytes: &[u8]) -> (text: Result<&str, Utf8Error>)
    ensures
        text is Ok <==> valid_utf8(bytes@),
        text matches Ok(text) ==> text@ == decode_utf8(bytes@),
        text matches Err(error) ==> longest_valid_prefix(bytes@, error.valid_up_to as int)
            && error.error_len == utf8_error_len(bytes@),
{
    match std::str::from_utf8(bytes) {
        Ok(text) => Ok(text),
        Err(error) => Err(Utf8Error { valid_up_to: error.valid_up_to(), error_len: error.error_len() }),
    }
}

/// [`String::from_utf8_lossy`]: a function of the bytes, which decodes them
/// where they are UTF-8.
#[verifier::external_body]
pub(crate) fn lossy_text(bytes: &[u8]) -> (text: String)
    ensures
        text@ == lossy_utf8(bytes@),
        valid_utf8(bytes@) ==> text@ == decode_utf8(bytes@),
{
    String::from_utf8_lossy(bytes).into_owned()
}

/// The length of the longest prefix of `bytes` that is UTF-8.
pub open spec fn valid_prefix_len(bytes: Seq<u8>) -> int {
    choose|end: int| longest_valid_prefix(bytes, end)
}

/// How a byte string that is not UTF-8 is rejected.
pub open spec fn utf8_error(bytes: Seq<u8>) -> Utf8Error {
    Utf8Error {
        valid_up_to: valid_prefix_len(bytes) as usize,
        error_len: utf8_error_len(bytes),
    }
}

/// Decodes a UTF-8 byte string.
pub fn utf8_text(bytes: &[u8]) -> (text: Result<String, Utf8Error>)
    ensures
        valid_utf8(bytes@) ==> text is Ok && text->Ok_0@ == decode_utf8(bytes@),
        !valid_utf8(bytes@) ==> text == Err::<String, _>(utf8_error(bytes@)),
{
    match checked_utf8(bytes) {
        Ok(text) => Ok(text.to_owned()),
        Err(error) => {
            proof {
                let end = valid_prefix_len(bytes@);
                assert(longest_valid_prefix(bytes@, error.valid_up_to as int));
                assert(longest_valid_prefix(bytes@, end));
                assert(end == error.valid_up_to);
            }
            Err(error)
        },
    }
}

/// The bytes of `buffer` before its first NUL, or all of them.
pub open spec fn before_nul(buffer: Seq<u8>) -> Seq<u8>
    decreases buffer.len(),
{
    if buffer.len() == 0 || buffer[0] == 0 {
        Seq::empty()
    } else {
        seq![buffer[0]] + before_nul(buffer.skip(1))
    }
}

/// `before_nul` is the prefix that ends at the first NUL.
pub proof fn lemma_before_nul(buffer: Seq<u8>, end: int)
    requires
        0 <= end <= buffer.len(),
        forall|i: int| 0 <= i < end ==> buffer[i] != 0,
        end == buffer.len() || buffer[end] == 0,
    ensures
        before_nul(buffer) == buffer.take(end),
    decreases end,
{
    if end > 0 {
        lemma_before_nul(buffer.skip(1), end - 1);
        assert(seq![buffer[0]] + buffer.skip(1).take(end - 1) =~= buffer.take(end));
    } else {
        assert(buffer.take(0) =~= Seq::empty());
    }
}

/// The index of the first NUL of `buffer`, or its length.
pub fn nul_position(buffer: &[u8]) -> (end: usize)
    ensures
        end <= buffer@.len(),
        forall|i: int| 0 <= i < end ==> buffer@[i] != 0,
        end == buffer@.len() || buffer@[end as int] == 0,
        before_nul(buffer@) == buffer@.take(end as int),
{
    let mut end: usize = 0;
    while end < buffer.len() && buffer[end] != 0
        invariant
            end <= buffer@.len(),
            forall|i: int| 0 <= i < end ==> buffer@[i] != 0,
        decreases buffer@.len() - end,
    {
        end = end + 1;
    }
    proof {
        lemma_before_nul(buffer@, end as int);
    }
    end
}

/// The text that a NUL-terminated buffer holds. Bytes that are not UTF-8 are
/// replaced.
pub fn c_text(buffer: &[u8]) -> (text: String)
    ensures
        text@ == lossy_utf8(before_nul(buffer@)),
        valid_utf8(before_nul(buffer@)) ==> text@ == decode_utf8(before_nul(buffer@)),
{
    let end: usize = nul_position(buffer);
    proof {
        assert(buffer@.subrange(0, end as int) =~= buffer@.take(end as int));
    }
    lossy_text(slice_subrange(buffer, 0, end))
}

/// Whether two byte strings are equal.
pub fn bytes_eq(left: &[u8], right: &[u8]) -> (equal: bool)
    ensures
        equal == (left@ == right@),
{
    if left.len() != right.len() {
        return false;
    }
    let mut at: usize = 0;
    while at < left.len()
        invariant
            at <= left@.len() == right@.len(),
            forall|i: int| 0 <= i < at ==> left@[i] == right@[i],
        decreases left@.len() - at,
    {
        if left[at] != right[at] {
            return false;
        }
        at = at + 1;
    }
    assert(left@ =~= right@);
    true
}

/// Whether two texts are equal.
pub fn str_eq(left: &str, right: &str) -> (equal: bool)
    ensures
        equal == (left@ == right@),
{
    proof {
        encode_utf8_decode_utf8(left@);
        encode_utf8_decode_utf8(right@);
    }
    bytes_eq(left.as_bytes(), right.as_bytes())
}

/// The number of a character, that of the small letter for an ASCII capital.
pub open spec fn folded(c: char) -> int {
    if 'A' <= c <= 'Z' {
        c as int + 32
    } else {
        c as int
    }
}

/// Whether two texts are equal up to the case of ASCII letters.
pub open spec fn equal_up_to_case(left: Seq<char>, right: Seq<char>) -> bool {
    &&& left.len() == right.len()
    &&& forall|i: int|
        0 <= i < left.len() ==> folded(#[trigger] left[i]) == folded(#[trigger] right[i])
}

fn fold(c: char) -> (number: u32)
    ensures
        number == folded(c),
{
    if 'A' <= c && c <= 'Z' {
        c as u32 + 32
    } else {
        c as u32
    }
}

/// Whether two texts are equal up to the case of ASCII letters.
pub fn eq_ignore_case(left: &str, right: &str) -> (equal: bool)
    ensures
        equal == equal_up_to_case(left@, right@),
{
    let total: usize = left.unicode_len();
    if total != right.unicode_len() {
        return false;
    }
    let mut at: usize = 0;
    while at < total
        invariant
            at <= total == left@.len() == right@.len(),
            forall|i: int|
                0 <= i < at ==> folded(#[trigger] left@[i]) == folded(#[trigger] right@[i]),
        decreases total - at,
    {
        if fold(left.get_char(at)) != fold(right.get_char(at)) {
            return false;
        }
        at = at + 1;
    }
    true
}

/// Whether `text` begins with `prefix`.
pub open spec fn has_prefix(text: Seq<char>, prefix: Seq<char>) -> bool {
    prefix.len() <= text.len() && text.take(prefix.len() as int) == prefix
}

/// What follows `prefix` in `text`, if `text` begins with it.
pub open spec fn stripped(text: Seq<char>, prefix: Seq<char>) -> Option<Seq<char>> {
    if has_prefix(text, prefix) {
        Some(text.skip(prefix.len() as int))
    } else {
        None
    }
}

/// The text behind `prefix`, if `text` begins with it.
pub fn strip_prefix<'a>(text: &'a str, prefix: &str) -> (rest: Option<&'a str>)
    ensures
        match stripped(text@, prefix@) {
            Some(expected) => rest is Some && rest->Some_0@ == expected,
            None => rest is None,
        },
{
    let total: usize = text.unicode_len();
    let head: usize = prefix.unicode_len();
    if total < head {
        return None;
    }
    let front = text.substring_char(0, head);
    assert(front@ =~= text@.take(head as int));
    if !str_eq(front, prefix) {
        return None;
    }
    let rest = text.substring_char(head, total);
    assert(rest@ =~= text@.skip(head as int));
    Some(rest)
}

/// The index of the first `wanted` in `text`, or its length.
pub open spec fn index_of_char(text: Seq<char>, wanted: char) -> int
    decreases text.len(),
{
    if text.len() == 0 || text[0] == wanted {
        0
    } else {
        1 + index_of_char(text.skip(1), wanted)
    }
}

/// `index_of_char` is where the first occurrence stands.
pub proof fn lemma_index_of_char(text: Seq<char>, wanted: char, at: int)
    requires
        0 <= at <= text.len(),
        forall|i: int| 0 <= i < at ==> text[i] != wanted,
        at == text.len() || text[at] == wanted,
    ensures
        index_of_char(text, wanted) == at,
    decreases at,
{
    if at > 0 {
        lemma_index_of_char(text.skip(1), wanted, at - 1);
    }
}

/// `index_of_char` lies in the text, or at its end where there is no occurrence.
pub proof fn lemma_index_of_char_within(text: Seq<char>, wanted: char)
    ensures
        0 <= index_of_char(text, wanted) <= text.len(),
        forall|i: int| 0 <= i < index_of_char(text, wanted) ==> text[i] != wanted,
        index_of_char(text, wanted) < text.len() ==> text[index_of_char(text, wanted)] == wanted,
    decreases text.len(),
{
    if text.len() > 0 && text[0] != wanted {
        let rest = text.skip(1);
        lemma_index_of_char_within(rest, wanted);
        assert forall|i: int| 0 <= i < index_of_char(text, wanted) implies text[i] != wanted by {
            if i > 0 {
                assert(rest[i - 1] == text[i]);
            }
        }
    }
}

/// The parts of `text` before and behind its first `separator`.
pub fn split_once<'a>(text: &'a str, separator: char) -> (parts: Option<(&'a str, &'a str)>)
    ensures
        ({
            let at = index_of_char(text@, separator);
            &&& 0 <= at <= text@.len()
            &&& parts is None <==> at == text@.len()
            &&& parts matches Some(parts) ==> parts.0@ == text@.take(at) && parts.1@ == text@.skip(
                at + 1,
            )
        }),
{
    let total: usize = text.unicode_len();
    let mut at: usize = 0;
    while at < total && text.get_char(at) != separator
        invariant
            at <= total == text@.len(),
            forall|i: int| 0 <= i < at ==> text@[i] != separator,
        decreases total - at,
    {
        at = at + 1;
    }
    proof {
        lemma_index_of_char(text@, separator, at as int);
    }
    if at == total {
        return None;
    }
    let before = text.substring_char(0, at);
    let behind = text.substring_char(at + 1, total);
    assert(before@ =~= text@.take(at as int));
    assert(behind@ =~= text@.skip(at + 1));
    Some((before, behind))
}

/// Whether a character is a decimal digit.
pub open spec fn is_digit(c: char) -> bool {
    '0' <= c <= '9'
}

/// The number that a string of decimal digits stands for.
pub open spec fn digits_value(digits: Seq<char>) -> nat
    decreases digits.len(),
{
    if digits.len() == 0 {
        0
    } else {
        digits_value(digits.drop_last()) * 10 + (digits.last() as nat - '0' as nat) as nat
    }
}

/// The digits of a number behind its optional plus sign.
pub open spec fn unsigned_digits(text: Seq<char>) -> Seq<char> {
    if text.len() > 0 && text[0] == '+' {
        text.skip(1)
    } else {
        text
    }
}

/// The number that `text` stands for, if it is an optional plus sign followed
/// by one or more decimal digits and the number is at most `max`.
pub open spec fn parsed_number(text: Seq<char>, max: nat) -> Option<nat> {
    let digits = unsigned_digits(text);
    if digits.len() > 0 && (forall|i: int| 0 <= i < digits.len() ==> is_digit(#[trigger] digits[i]))
        && digits_value(digits) <= max {
        Some(digits_value(digits))
    } else {
        None
    }
}

proof fn lemma_digits_prefix(digits: Seq<char>, len: int)
    requires
        0 <= len <= digits.len(),
    ensures
        digits_value(digits.take(len)) <= digits_value(digits),
    decreases digits.len() - len,
{
    if len < digits.len() {
        let longer = digits.take(len + 1);
        assert(longer.drop_last() =~= digits.take(len));
        lemma_digits_prefix(digits, len + 1);
    } else {
        assert(digits.take(len) =~= digits);
    }
}

fn parse_number(text: &str, max: u64) -> (number: Option<u64>)
    requires
        max <= 0xffff_ffff,
    ensures
        match parsed_number(text@, max as nat) {
            Some(expected) => number is Some && number->Some_0 == expected,
            None => number is None,
        },
{
    let ghost digits = unsigned_digits(text@);
    if !text.is_ascii() {
        proof {
            let i = choose|i: int| 0 <= i < text@.len() && !('\0' <= #[trigger] text@[i] <= '\u{7f}');
            assert(!is_digit(text@[i]));
            if digits == text@ {
                assert(!is_digit(digits[i]));
            } else {
                assert(!is_digit(digits[i - 1]));
            }
        }
        return None;
    }
    let bytes = text.as_bytes();
    proof {
        is_ascii_chars_encode_utf8(text@);
    }
    let mut at: usize = 0;
    if bytes.len() > 0 && bytes[0] == 0x2b {
        at = 1;
    }
    if at == bytes.len() {
        return None;
    }
    let ghost first = at as int;
    assert(digits =~= text@.skip(first));
    let mut value: u64 = 0;
    assert(digits.take(0) =~= Seq::empty());
    while at < bytes.len()
        invariant
            0 <= first <= at <= bytes@.len(),
            bytes@ == encode_utf8(text@),
            bytes@.len() == text@.len(),
            forall|i: int| 0 <= i < text@.len() ==> #[trigger] text@[i] as u8 == bytes@[i],
            forall|i: int| 0 <= i < text@.len() ==> '\0' <= #[trigger] text@[i] <= '\u{7f}',
            digits == unsigned_digits(text@),
            digits == text@.skip(first),
            max <= 0xffff_ffff,
            value <= max,
            value == digits_value(digits.take(at - first)),
            forall|i: int| 0 <= i < at - first ==> is_digit(#[trigger] digits[i]),
        decreases bytes@.len() - at,
    {
        let byte: u8 = bytes[at];
        assert(text@[at as int] as u8 == byte);
        assert(digits[at - first] == text@[at as int]);
        if byte < 0x30 || byte > 0x39 {
            assert(!is_digit(digits[at - first]));
            return None;
        }
        proof {
            let longer = digits.take(at + 1 - first);
            assert(longer.drop_last() =~= digits.take(at - first));
        }
        value = value * 10 + (byte - 0x30) as u64;
        at = at + 1;
        if value > max {
            proof {
                lemma_digits_prefix(digits, at - first);
            }
            return None;
        }
    }
    assert(digits.take(at - first) =~= digits);
    Some(value)
}

/// Reads an unsigned 32-bit decimal number.
pub fn parse_u32(text: &str) -> (number: Option<u32>)
    ensures
        match parsed_number(text@, u32::MAX as nat) {
            Some(expected) => number is Some && number->Some_0 == expected,
            None => number is None,
        },
{
    match parse_number(text, u32::MAX as u64) {
        Some(value) => Some(value as u32),
        None => None,
    }
}

/// Reads an unsigned 16-bit decimal number.
pub fn parse_u16(text: &str) -> (number: Option<u16>)
    ensures
        match parsed_number(text@, u16::MAX as nat) {
            Some(expected) => number is Some && number->Some_0 == expected,
            None => number is None,
        },
{
    match parse_number(text, u16::MAX as u64) {
        Some(value) => Some(value as u16),
        None => None,
    }
}

/// The character of a decimal digit.
pub open spec fn digit_char(digit: nat) -> char {
    ('0' as nat + digit) as char
}

/// The decimal digits of a number, without leading zeros.
pub open spec fn nat_text(value: nat) -> Seq<char>
    decreases value,
{
    if value < 10 {
        seq![digit_char(value)]
    } else {
        nat_text(value / 10).push(digit_char(value % 10))
    }
}

/// The decimal form of an integer, with a minus sign where it is negative.
pub open spec fn int_text(value: int) -> Seq<char> {
    if value < 0 {
        seq!['-'] + nat_text((-value) as nat)
    } else {
        nat_text(value as nat)
    }
}

fn digit_text(digit: u64) -> (text: &'static str)
    requires
        digit < 10,
    ensures
        text@ == seq![digit_char(digit as nat)],
{
    proof {
        reveal_strlit("0");
        reveal_strlit("1");
        reveal_strlit("2");
        reveal_strlit("3");
        reveal_strlit("4");
        reveal_strlit("5");
        reveal_strlit("6");
        reveal_strlit("7");
        reveal_strlit("8");
        reveal_strlit("9");
    }
    let text = match digit {
        0 => "0",
        1 => "1",
        2 => "2",
        3 => "3",
        4 => "4",
        5 => "5",
        6 => "6",
        7 => "7",
        8 => "8",
        _ => "9",
    };
    assert(text@ =~= seq![digit_char(digit as nat)]);
    text
}

/// Writes an unsigned number in decimal.
pub fn decimal(value: u64) -> (text: String)
    ensures
        text@ == nat_text(value as nat),
    decreases value,
{
    if value < 10 {
        digit_text(value).to_owned()
    } else {
        let mut text = decimal(value / 10);
        text.append(digit_text(value % 10));
        assert(text@ =~= nat_text(value as nat));
        text
    }
}

/// Writes a signed number in decimal.
pub fn signed_decimal(value: i32) -> (text: String)
    ensures
        text@ == int_text(value as int),
{
    if value < 0 {
        let magnitude: u64 = (-(value as i64)) as u64;
        let mut text = "-".to_owned();
        text.append(decimal(magnitude).as_str());
        proof {
            reveal_strlit("-");
        }
        assert(text@ =~= int_text(value as int));
        text
    } else {
        decimal(value as u64)
    }
}

/// A number that was written in decimal is read back as itself, by a reader
/// that goes up to it.
pub proof fn law_decimal_round_trip(value: nat, max: nat)
    requires
        value <= max,
    ensures
        parsed_number(nat_text(value), max) == Some(value),
{
    lemma_nat_text(value);
}

proof fn lemma_nat_text(value: nat)
    ensures
        nat_text(value).len() > 0,
        forall|i: int| 0 <= i < nat_text(value).len() ==> is_digit(#[trigger] nat_text(value)[i]),
        digits_value(nat_text(value)) == value,
    decreases value,
{
    if value >= 10 {
        lemma_nat_text(value / 10);
        assert(nat_text(value).drop_last() =~= nat_text(value / 10));
    } else {
        assert(nat_text(value).drop_last() =~= Seq::empty());
        assert(digits_value(Seq::empty()) == 0);
    }
}

/// A number may have one plus sign in front, and that changes nothing.
pub proof fn law_plus_sign_changes_nothing(digits: Seq<char>, max: nat)
    requires
        digits.len() == 0 || digits[0] != '+',
    ensures
        parsed_number(seq!['+'] + digits, max) == parsed_number(digits, max),
{
    assert((seq!['+'] + digits).skip(1) =~= digits);
}

/// One more digit makes a number ten times as large and adds the digit to it. A
/// number beyond the limit is refused, and one digit alone is its own value.
pub proof fn law_digits_are_decimal(digits: Seq<char>, digit: char, max: nat)
    requires
        '0' <= digit <= '9',
    ensures
        digit as int - 48 <= max ==> parsed_number(seq![digit], max) == Some(
            (digit as int - 48) as nat,
        ),
        digit as int - 48 > max ==> parsed_number(seq![digit], max) is None,
        parsed_number(digits, max) matches Some(value) ==> parsed_number(digits.push(digit), max)
            == (if value * 10 + (digit as int - 48) <= max {
            Some((value * 10 + (digit as int - 48)) as nat)
        } else {
            None
        }),
        parsed_number(digits.push(digit), max) is Some ==> digits.len() == 0 || digits == seq!['+']
            || parsed_number(digits, max) is Some,
{
    let longer = digits.push(digit);
    assert(seq![digit].drop_last() =~= Seq::empty());
    assert(digits_value(Seq::empty()) == 0);
    let before = unsigned_digits(digits);
    if digits.len() > 0 {
        assert(longer[0] == digits[0]);
        let now = unsigned_digits(longer);
        assert(now =~= before.push(digit));
        assert(now.drop_last() =~= before);
        if parsed_number(digits, max) is Some {
            assert forall|i: int| 0 <= i < now.len() implies is_digit(#[trigger] now[i]) by {
                if i < before.len() {
                    assert(now[i] == before[i]);
                }
            }
        }
        if parsed_number(longer, max) is Some {
            assert forall|i: int| 0 <= i < before.len() implies is_digit(#[trigger] before[i]) by {
                assert(now[i] == before[i]);
            }
            if before.len() == 0 {
                assert(digits =~= seq!['+']);
            }
        }
    }
}

/// A text with anything but decimal digits behind the optional plus sign is no
/// number, and neither is one without any digit.
pub proof fn law_only_digits_make_a_number(text: Seq<char>, at: int, max: nat)
    requires
        0 <= at < text.len(),
        text[at] < '0' || text[at] > '9',
        at > 0 || text[at] != '+',
    ensures
        parsed_number(text, max) is None,
        parsed_number(Seq::empty(), max) is None,
        parsed_number(seq!['+'], max) is None,
{
    let digits = unsigned_digits(text);
    if text[0] == '+' {
        assert(digits[at - 1] == text[at]);
    } else {
        assert(digits[at] == text[at]);
    }
    assert(!is_digit(text[at]));
}

/// Two texts are equal up to case exactly where they are as long and differ in
/// no character but an ASCII capital and its small letter.
pub proof fn law_case_of_ascii_letters(left: Seq<char>, right: Seq<char>)
    ensures
        equal_up_to_case(left, right) <==> left.len() == right.len() && forall|i: int|
            0 <= i < left.len() ==> {
                ||| #[trigger] left[i] == #[trigger] right[i]
                ||| ('A' <= left[i] <= 'Z' && right[i] as int == left[i] as int + 32)
                ||| ('A' <= right[i] <= 'Z' && left[i] as int == right[i] as int + 32)
            },
{
    if left.len() == right.len() {
        assert forall|i: int| 0 <= i < left.len() implies (folded(#[trigger] left[i]) == folded(
            #[trigger] right[i],
        )) == {
            ||| left[i] == right[i]
            ||| ('A' <= left[i] <= 'Z' && right[i] as int == left[i] as int + 32)
            ||| ('A' <= right[i] <= 'Z' && left[i] as int == right[i] as int + 32)
        } by {}
    }
}

/// The text of an integer is a minus sign where it is negative, and digits that
/// read back as its magnitude, without a zero in front of others.
pub proof fn law_integer_text(value: int)
    ensures
        ({
            let magnitude = if value < 0 {
                -value
            } else {
                value
            } as nat;
            let digits = if value < 0 {
                int_text(value).skip(1)
            } else {
                int_text(value)
            };
            &&& value < 0 ==> int_text(value).len() > 0 && int_text(value)[0] == '-'
            &&& parsed_number(digits, magnitude) == Some(magnitude)
            &&& digits.len() > 0 && '0' <= digits[0] <= '9'
            &&& digits.len() > 1 ==> digits[0] != '0'
        }),
{
    let magnitude = if value < 0 {
        -value
    } else {
        value
    } as nat;
    law_decimal_round_trip(magnitude, magnitude);
    lemma_nat_text(magnitude);
    lemma_no_leading_zero(magnitude);
    assert(is_digit(nat_text(magnitude)[0]));
    if value < 0 {
        assert(int_text(value).skip(1) =~= nat_text(magnitude));
    }
}

proof fn lemma_no_leading_zero(value: nat)
    ensures
        nat_text(value).len() > 0,
        value > 0 ==> nat_text(value)[0] != '0',
        value == 0 ==> nat_text(value).len() == 1,
    decreases value,
{
    if value >= 10 {
        lemma_no_leading_zero(value / 10);
    }
}

/// A byte string that is not UTF-8 is rejected with the length of its longest
/// prefix that is.
pub proof fn law_rejected_bytes(bytes: Seq<u8>, end: int)
    requires
        bytes.len() <= usize::MAX,
        0 <= end <= bytes.len(),
        valid_utf8(bytes.take(end)),
        forall|longer: int| end < longer <= bytes.len() ==> !valid_utf8(#[trigger] bytes.take(longer)),
    ensures
        utf8_error(bytes).valid_up_to == end,
        utf8_error(bytes).error_len == utf8_error_len(bytes),
{
    assert(longest_valid_prefix(bytes, end));
    let chosen = valid_prefix_len(bytes);
    assert(longest_valid_prefix(bytes, chosen));
    assert(chosen == end);
}

} // verus!
