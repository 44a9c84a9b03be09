//! Text: decimal numbers, hexadecimal digits, percent-encoding.
use vstd::prelude::*;

verus! {

/// The decimal digit `d` as a character.
pub open spec fn digit(d: int) -> char {
    (('0' as u32) + d) as char
}

/// The decimal notation of a natural number, without leading zeros.
pub open spec fn decimal_nat(n: nat) -> Seq<char>
    decreases n,
{
    if n < 10 {
        seq![digit(n as int)]
    } else {
        decimal_nat(n / 10).push(digit((n % 10) as int))
    }
}

/// The decimal notation of an integer.
pub open spec fn decimal(n: int) -> Seq<char> {
    if n < 0 {
        seq!['-'] + decimal_nat((-n) as nat)
    } else {
        decimal_nat(n as nat)
    }
}

fn digit_text(d: u64) -> (text: &'static str)
    requires
        d < 10,
    ensures
        text@ == seq![digit(d as int)],
{
    proof {
        reveal_strlit("0");
        reveal_strlit("1");
        reveal_strlit("2");
        reveal_strlit("3");
        reveal_strlit("4");
        reveal_strlit("5");
        reveal_strlit("6");
        reveal_strlit("7");
        reveal_strlit("8");
        reveal_strlit("9");
    }
    let text: &'static str = match d {
        0 => "0",
        1 => "1",
        2 => "2",
        3 => "3",
        4 => "4",
        5 => "5",
        6 => "6",
        7 => "7",
        8 => "8",
        _ => "9",
    };
    assert(text@ =~= seq![digit(d as int)]);
    text
}

/// A natural number in decimal notation.
pub fn nat_text(n: u64) -> (text: String)
    ensures
        text@ == decimal_nat(n as nat),
    decreases n,
{
    if n < 10 {
        digit_text(n).to_owned()
    } else {
        let mut text = nat_text(n / 10);
        let ghost prefix = text@;
        text.append(digit_text(n % 10));
        assert(text@ =~= prefix.push(digit((n % 10) as int)));
        text
    }
}

/// An integer in decimal notation.
pub fn int_text(n: i64) -> (text: String)
    ensures
        text@ == decimal(n as int),
{
    if n < 0 {
        let magnitude: u64 = (-(n as i128)) as u64;
        let mut text = "-".to_owned();
        text.append(nat_text(magnitude).as_str());
        proof {
            reveal_strlit("-");
        }
        assert("-"@ =~= seq!['-']);
        text
    } else {
        nat_text(n as u64)
    }
}

/// Whether `byte` is an ASCII letter or digit.
pub open spec fn is_alphanumeric(byte: u8) -> bool {
    ||| 0x30 <= byte <= 0x39
    ||| 0x41 <= byte <= 0x5a
    ||| 0x61 <= byte <= 0x7a
}

/// The hexadecimal digit `d` in lower case.
pub open spec fn hex_digit(d: int) -> char {
    if d < 10 {
        digit(d)
    } else {
        (('a' as u32) + d - 10) as char
    }
}

/// The hexadecimal digit `d` in upper case.
pub open spec fn upper_hex_digit(d: int) -> char {
    if d < 10 {
        digit(d)
    } else {
        (('A' as u32) + d - 10) as char
    }
}

/// Two lower-case hexadecimal digits for each byte.
pub open spec fn hex_text(bytes: Seq<u8>) -> Seq<char> {
    Seq::new(
        2 * bytes.len(),
        |i: int| hex_digit(if i % 2 == 0 { bytes[i / 2] / 16 } else { bytes[i / 2] % 16 } as int),
    )
}

/// What a hexadecimal digit of either case stands for, if `c` is one.
pub open spec fn hex_value(c: char) -> Option<int> {
    if '0' <= c <= '9' {
        Some(c as u32 - '0' as u32)
    } else if 'a' <= c <= 'f' {
        Some(c as u32 - 'a' as u32 + 10)
    } else if 'A' <= c <= 'F' {
        Some(c as u32 - 'A' as u32 + 10)
    } else {
        None
    }
}

/// Whether `text` spells `count` bytes in hexadecimal.
pub open spec fn is_hex(text: Seq<char>, count: nat) -> bool {
    &&& text.len() == 2 * count
    &&& forall|i: int| 0 <= i < text.len() ==> hex_value(#[trigger] text[i]) is Some
}

/// The bytes that a hexadecimal text spells.
pub open spec fn hex_bytes(text: Seq<char>) -> Seq<u8> {
    Seq::new(
        text.len() / 2,
        |i: int| (16 * hex_value(text[2 * i])->0 + hex_value(text[2 * i + 1])->0) as u8,
    )
}

/// Reading the hexadecimal form of a byte string gives the byte string back.
pub proof fn lemma_hex_round_trip(bytes: Seq<u8>)
    ensures
        is_hex(hex_text(bytes), bytes.len()),
        hex_bytes(hex_text(bytes)) == bytes,
{
    let text = hex_text(bytes);
    assert forall|d: int| 0 <= d < 16 implies #[trigger] hex_value(hex_digit(d)) == Some(d) by {}
    assert forall|i: int| 0 <= i < text.len() implies hex_value(#[trigger] text[i]) is Some by {
        let d = if i % 2 == 0 { bytes[i / 2] / 16 } else { bytes[i / 2] % 16 } as int;
        assert(hex_value(hex_digit(d)) == Some(d));
    }
    assert forall|i: int| 0 <= i < bytes.len() implies #[trigger] hex_bytes(text)[i]
        == bytes[i] by {
        assert(text[2 * i] == hex_digit((bytes[i] / 16) as int));
        assert(text[2 * i + 1] == hex_digit((bytes[i] % 16) as int));
        assert(hex_value(hex_digit((bytes[i] / 16) as int)) == Some((bytes[i] / 16) as int));
        assert(hex_value(hex_digit((bytes[i] % 16) as int)) == Some((bytes[i] % 16) as int));
    }
    assert(hex_bytes(text) =~= bytes);
}

/// A letter or digit stands for itself; any other byte becomes a percent sign
/// and two upper-case hexadecimal digits.
pub open spec fn percent_byte(byte: u8) -> Seq<char> {
    if is_alphanumeric(byte) {
        seq![byte as char]
    } else {
        seq!['%', upper_hex_digit((byte / 16) as int), upper_hex_digit((byte % 16) as int)]
    }
}

/// The percent-encoding of a byte string.
pub open spec fn percent_text(bytes: Seq<u8>) -> Seq<char>
    decreases bytes.len(),
{
    if bytes.len() == 0 {
        seq![]
    } else {
        percent_text(bytes.drop_last()) + percent_byte(bytes.last())
    }
}

/// A byte string of letters and digits is its own percent-encoding.
pub proof fn lemma_percent_alphanumeric(bytes: Seq<u8>)
    requires
        forall|i: int| 0 <= i < bytes.len() ==> is_alphanumeric(#[trigger] bytes[i]),
    ensures
        percent_text(bytes) == Seq::new(bytes.len(), |i: int| bytes[i] as char),
    decreases bytes.len(),
{
    if bytes.len() > 0 {
        lemma_percent_alphanumeric(bytes.drop_last());
        assert(is_alphanumeric(bytes[bytes.len() - 1]));
    }
    assert(percent_text(bytes) =~= Seq::new(bytes.len(), |i: int| bytes[i] as char));
}

/// Whether `part` stands in `text` at position `at`.
pub open spec fn occurs_at(text: Seq<char>, part: Seq<char>, at: int) -> bool {
    &&& 0 <= at
    &&& at + part.len() <= text.len()
    &&& text.subrange(at, at + part.len()) == part
}

/// What `hex::decode_to_slice` fails with.
#[verifier::external_type_specification]
#[verifier::external_body]
pub struct ExFromHexError(hex::FromHexError);

/// Calls `hex::encode`, which writes each byte as two lower-case digits.
#[verifier::external_body]
pub(crate) fn hex_encode(bytes: &[u8]) -> (text: String)
    ensures
        text@ == hex_text(bytes@),
{
    hex::encode(bytes)
}

/// Calls `hex::decode_to_slice`, which succeeds if the text consists of two
/// digits, of either case, for each byte of `out`, and then fills `out` with
/// what they spell. After a failure nothing is said of the contents of `out`.
#[verifier::external_body]
pub(crate) fn hex_decode_to_slice(text: &str, out: &mut [u8]) -> (result: Result<
    (),
    hex::FromHexError,
>)
    ensures
        result is Ok <==> is_hex(text@, old(out)@.len()),
        result is Ok ==> final(out)@ == hex_bytes(text@),
{
    hex::decode_to_slice(text, out)
}

/// Calls `percent_encoding::percent_encode` with the set `NON_ALPHANUMERIC`,
/// which leaves letters and digits and encodes every other byte.
#[verifier::external_body]
pub(crate) fn percent_encode(bytes: &[u8]) -> (text: String)
    ensures
        text@ == percent_text(bytes@),
{
    percent_encoding::percent_encode(bytes, percent_encoding::NON_ALPHANUMERIC).to_string()
}

/// Calls `str::split_once`, which splits a text at the first occurrence of a
/// delimiter and returns what stands before it and after it.
#[verifier::external_body]
pub(crate) fn split_once<'a>(text: &'a str, delimiter: &str) -> (parts: Option<(&'a str, &'a str)>)
    ensures
        match parts {
            Some((before, after)) => {
                &&& text@ == before@ + delimiter@ + after@
                &&& forall|i: int|
                    i < before@.len() ==> !#[trigger] occurs_at(text@, delimiter@, i)
            },
            None => forall|i: int| !#[trigger] occurs_at(text@, delimiter@, i),
        },
{
    text.split_once(delimiter)
}

/// The number that a text of decimal digits spells.
pub open spec fn decimal_value(text: Seq<char>) -> int
    decreases text.len(),
{
    if text.len() == 0 {
        0
    } else {
        10 * decimal_value(text.drop_last()) + (text.last() as u32 - '0' as u32)
    }
}

/// The decimal notation of a number is read back as the number. It consists of
/// digits and begins with a zero only if it is nothing else.
pub proof fn law_decimal_reads_back(n: nat)
    ensures
        decimal_value(decimal_nat(n)) == n,
        decimal_nat(n).len() > 0,
        forall|i: int| 0 <= i < decimal_nat(n).len() ==> '0' <= #[trigger] decimal_nat(n)[i] <= '9',
        decimal_nat(n)[0] == '0' ==> n == 0 && decimal_nat(n).len() == 1,
    decreases n,
{
    let text = decimal_nat(n);
    if n < 10 {
        assert(text.drop_last() =~= seq![]);
        assert(decimal_value(text.drop_last()) == 0);
    } else {
        law_decimal_reads_back(n / 10);
        assert(text.drop_last() =~= decimal_nat(n / 10));
    }
}

/// A negative number is a minus sign and its magnitude; any other is its
/// magnitude alone.
pub proof fn law_decimal_has_sign(n: int)
    ensures
        n >= 0 ==> decimal_value(decimal(n)) == n && decimal(n)[0] != '-',
        n < 0 ==> decimal(n)[0] == '-' && decimal_value(decimal(n).skip(1)) == -n,
        n < 0 ==> decimal(n).len() > 1 && decimal(n)[1] != '0',
{
    if n < 0 {
        law_decimal_reads_back((-n) as nat);
        assert(decimal(n).skip(1) =~= decimal_nat((-n) as nat));
    } else {
        law_decimal_reads_back(n as nat);
    }
}

/// A hexadecimal digit is written in lower case and read in either case, and no
/// other character is read as one.
pub proof fn law_hex_digits(d: int, c: char)
    requires
        0 <= d < 16,
    ensures
        hex_digit(d) == "0123456789abcdef"@[d],
        upper_hex_digit(d) == "0123456789ABCDEF"@[d],
        hex_value("0123456789abcdef"@[d]) == Some(d),
        hex_value("0123456789ABCDEF"@[d]) == Some(d),
        hex_value(c) matches Some(v) ==> 0 <= v < 16 && (c == "0123456789abcdef"@[v] || c
            == "0123456789ABCDEF"@[v]),
{
    reveal_strlit("0123456789abcdef");
    reveal_strlit("0123456789ABCDEF");
}

/// A text in hexadecimal has two digits for each byte, the first one counting
/// sixteen times as much, and is read so.
pub proof fn law_hex_is_positional(bytes: Seq<u8>, text: Seq<char>, i: int)
    ensures
        0 <= i < bytes.len() ==> {
            &&& hex_text(bytes).len() == 2 * bytes.len()
            &&& 16 * hex_value(hex_text(bytes)[2 * i])->0 + hex_value(
                hex_text(bytes)[2 * i + 1],
            )->0 == bytes[i]
        },
        0 <= 2 * i && 2 * i + 1 < text.len() && hex_value(text[2 * i]) is Some && hex_value(
            text[2 * i + 1],
        ) is Some ==> hex_bytes(text)[i] == 16 * hex_value(text[2 * i])->0 + hex_value(
            text[2 * i + 1],
        )->0,
{
    if 0 <= i < bytes.len() {
        assert(hex_text(bytes)[2 * i] == hex_digit((bytes[i] / 16) as int));
        assert(hex_text(bytes)[2 * i + 1] == hex_digit((bytes[i] % 16) as int));
        law_hex_digits((bytes[i] / 16) as int, 'x');
        law_hex_digits((bytes[i] % 16) as int, 'x');
        reveal_strlit("0123456789abcdef");
    }
}

/// Percent-encoding goes byte by byte: a letter or digit stands for itself, and
/// any other byte is a percent sign and two digits from which it can be read.
pub proof fn law_percent_goes_by_bytes(a: Seq<u8>, b: Seq<u8>, byte: u8)
    ensures
        percent_text(a + b) == percent_text(a) + percent_text(b),
        is_alphanumeric(byte) ==> percent_text(seq![byte]) == seq![byte as char],
        !is_alphanumeric(byte) ==> {
            let text = percent_text(seq![byte]);
            &&& text.len() == 3
            &&& text[0] == '%'
            &&& 16 * hex_value(text[1])->0 + hex_value(text[2])->0 == byte
            &&& "0123456789ABCDEF"@.contains(text[1])
            &&& "0123456789ABCDEF"@.contains(text[2])
        },
    decreases b.len(),
{
    reveal_with_fuel(percent_text, 2);
    assert(seq![byte].drop_last() =~= seq![]);
    if b.len() == 0 {
        assert(a + b =~= a);
        assert(percent_text(a) + percent_text(b) =~= percent_text(a));
    } else {
        law_percent_goes_by_bytes(a, b.drop_last(), byte);
        assert((a + b).drop_last() =~= a + b.drop_last());
        assert(percent_text(a + b) =~= percent_text(a) + percent_text(b));
    }
    let high = (byte / 16) as int;
    let low = (byte % 16) as int;
    law_hex_digits(high, 'x');
    law_hex_digits(low, 'x');
    reveal_strlit("0123456789ABCDEF");
    assert("0123456789ABCDEF"@[high] == upper_hex_digit(high));
    assert("0123456789ABCDEF"@[low] == upper_hex_digit(low));
    assert(percent_text(seq![byte]) =~= percent_byte(byte));
}

/// The letters and digits are those of ASCII, in either case.
pub proof fn law_alphanumeric(byte: u8)
    ensures
        is_alphanumeric(byte) <==> ('0' <= byte as char <= '9' || 'A' <= byte as char <= 'Z' || 'a'
            <= byte as char <= 'z'),
{
}

} // verus!
