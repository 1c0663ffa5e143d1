//! The progress line that is shown each time a level's rounds are
//! complete.

use vstd::prelude::*;
use vstd::string::StringExecFns;

use crate::controller::Progress;
use crate::wire::{be_bytes, encode_value};

verus! {

/// The lower-case hexadecimal digit of a value below sixteen.
pub open spec fn hex_digit(nibble: int) -> char {
    seq!['0', '1', '2', '3', '4', '5', '6', '7', '8', '9', 'a', 'b', 'c', 'd', 'e', 'f'][nibble]
}

/// Two hexadecimal digits per byte, the high half of each byte first.
pub open spec fn hex_run(bytes: Seq<u8>) -> Seq<char>
    decreases bytes.len(),
{
    if bytes.len() == 0 {
        Seq::empty()
    } else {
        hex_run(bytes.drop_last()).push(hex_digit(bytes.last() as int / 16)).push(
            hex_digit(bytes.last() as int % 16),
        )
    }
}

/// Sixteen bytes in the hyphenated form of a UUID: hexadecimal digits in
/// groups of 8, 4, 4, 4 and 12.
pub open spec fn hyphenated(bytes: Seq<u8>) -> Seq<char> {
    hex_run(bytes.subrange(0, 4)).push('-') + hex_run(bytes.subrange(4, 6)).push('-') + hex_run(
        bytes.subrange(6, 8),
    ).push('-') + hex_run(bytes.subrange(8, 10)).push('-') + hex_run(bytes.subrange(10, 16))
}

/// The decimal digit of a value below ten.
pub open spec fn decimal_digit(digit: int) -> char {
    seq!['0', '1', '2', '3', '4', '5', '6', '7', '8', '9'][digit]
}

/// A number in decimal, without sign or leading zeros.
pub open spec fn decimal(value: nat) -> Seq<char>
    decreases value,
{
    if value < 10 {
        seq![decimal_digit(value as int)]
    } else {
        decimal(value / 10).push(decimal_digit(value as int % 10))
    }
}

/// Each byte as the character with that code point.
pub open spec fn as_chars(bytes: Seq<u8>) -> Seq<char> {
    Seq::new(bytes.len(), |i: int| bytes[i] as char)
}

/// The text of a list of characters in the debugging format of the
/// standard library: in square brackets, separated by commas, each
/// character quoted and escaped.
pub uninterp spec fn char_list_text(chars: Seq<char>) -> Seq<char>;

/// The progress line made of its four parts.
pub open spec fn line_of(
    level: Seq<char>,
    pivot: Seq<char>,
    uuid: Seq<char>,
    chars: Seq<char>,
) -> Seq<char> {
    "middle "@ + level + " : "@ + pivot + " : "@ + uuid + "  : "@ + chars
}

/// The progress line of a state of the search: the level and the pivot in
/// decimal, then the sixteen bytes of the pivot as a UUID and as a list of
/// characters.
pub open spec fn progress_text(progress: Progress) -> Seq<char> {
    let bytes = be_bytes(progress.pivot as nat, 16);
    line_of(
        decimal(progress.level as nat),
        decimal(progress.pivot as nat),
        hyphenated(bytes),
        char_list_text(as_chars(bytes)),
    )
}

/// Calls `uuid::Uuid::from_bytes` and formats the result with `{:?}`.
///
/// Trusted: a `Uuid` prints itself with `{:?}` in hyphenated lower-case
/// form, two hexadecimal digits per byte, with a hyphen after the fourth,
/// sixth, eighth and tenth byte.
#[verifier::external_body]
fn uuid_text(bytes: [u8; 16]) -> (text: String)
    ensures
        text@ == hyphenated(bytes@),
{
    format!("{:?}", uuid::Uuid::from_bytes(bytes))
}

/// The characters of a run of decimal digits that is held least
/// significant digit first, read from its most significant end.
spec fn digits_read_back(digits: Seq<u8>) -> Seq<char>
    decreases digits.len(),
{
    if digits.len() == 0 {
        Seq::empty()
    } else {
        seq![decimal_digit(digits.last() as int)] + digits_read_back(digits.drop_last())
    }
}

/// The text of one decimal digit.
fn digit_text(digit: u8) -> (text: &'static str)
    requires
        digit < 10,
    ensures
        text@ == seq![decimal_digit(digit as int)],
{
    proof {
        reveal_strlit("0");
        reveal_strlit("1");
        reveal_strlit("2");
        reveal_strlit("3");
        reveal_strlit("4");
        reveal_strlit("5");
        reveal_strlit("6");
        reveal_strlit("7");
        reveal_strlit("8");
        reveal_strlit("9");
    }
    let text = match digit {
        0 => "0",
        1 => "1",
        2 => "2",
        3 => "3",
        4 => "4",
        5 => "5",
        6 => "6",
        7 => "7",
        8 => "8",
        _ => "9",
    };
    assert(text@ =~= seq![decimal_digit(digit as int)]);
    text
}

/// Writes a number in decimal.
pub fn decimal_text(value: u128) -> (text: String)
    ensures
        text@ == decimal(value as nat),
{
    let mut digits: Vec<u8> = Vec::new();
    let mut rest: u128 = value;
    while rest >= 10
        invariant
            forall|i: int| 0 <= i < digits@.len() ==> #[trigger] digits@[i] < 10,
            decimal(value as nat) == decimal(rest as nat) + digits_read_back(digits@),
        decreases rest,
    {
        let ghost before = digits@;
        let digit = (rest % 10) as u8;
        digits.push(digit);
        proof {
            assert(digits@.drop_last() =~= before);
            assert(decimal(rest as nat) == decimal(rest as nat / 10).push(
                decimal_digit(rest as int % 10),
            ));
            assert(decimal(rest as nat) + digits_read_back(before) =~= decimal(rest as nat / 10)
                + digits_read_back(digits@));
        }
        rest = rest / 10;
    }
    let mut text = String::from_str(digit_text(rest as u8));
    let mut left: usize = digits.len();
    assert(digits@.subrange(0, left as int) =~= digits@);
    while left > 0
        invariant
            left <= digits@.len(),
            forall|i: int| 0 <= i < digits@.len() ==> #[trigger] digits@[i] < 10,
            decimal(value as nat) == text@ + digits_read_back(digits@.subrange(0, left as int)),
        decreases left,
    {
        let ghost ahead = digits@.subrange(0, left as int);
        let ghost written = text@;
        left -= 1;
        text.append(digit_text(digits[left]));
        proof {
            assert(ahead.drop_last() =~= digits@.subrange(0, left as int));
            assert(written + digits_read_back(ahead) =~= text@ + digits_read_back(
                digits@.subrange(0, left as int),
            ));
        }
    }
    assert(text@ + Seq::<char>::empty() =~= text@);
    text
}

/// Formats a list of characters with `{:?}`.
///
/// Trusted: the text depends on the characters alone.
#[verifier::external_body]
fn chars_text(chars: &Vec<char>) -> (text: String)
    ensures
        text@ == char_list_text(chars@),
{
    format!("{:?}", chars)
}

/// Turns bytes into the characters with their code points.
pub fn bytes_as_chars(bytes: &[u8; 16]) -> (chars: Vec<char>)
    ensures
        chars@ == as_chars(bytes@),
{
    let mut chars: Vec<char> = Vec::new();
    let mut i: usize = 0;
    while i < 16
        invariant
            i <= 16,
            chars@ == as_chars(bytes@.subrange(0, i as int)),
        decreases 16 - i,
    {
        chars.push(bytes[i] as char);
        assert(chars@ =~= as_chars(bytes@.subrange(0, i + 1)));
        i += 1;
    }
    assert(bytes@.subrange(0, 16) =~= bytes@);
    chars
}

/// Puts the four parts of a progress line together.
pub fn format_line(level: &str, pivot: &str, uuid: &str, chars: &str) -> (line: String)
    ensures
        line@ == line_of(level@, pivot@, uuid@, chars@),
{
    let mut line = String::from_str("middle ");
    line.append(level);
    line.append(" : ");
    line.append(pivot);
    line.append(" : ");
    line.append(uuid);
    line.append("  : ");
    line.append(chars);
    line
}

/// Renders the progress line of a state of the search.
pub fn progress_line(progress: Progress) -> (line: String)
    ensures
        line@ == progress_text(progress),
{
    let bytes = encode_value(progress.pivot);
    let chars = bytes_as_chars(&bytes);
    let level = decimal_text(progress.level as u128);
    let pivot = decimal_text(progress.pivot);
    let uuid = uuid_text(bytes);
    let listed = chars_text(&chars);
    format_line(level.as_str(), pivot.as_str(), uuid.as_str(), listed.as_str())
}

} // verus!
