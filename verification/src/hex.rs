use vstd::prelude::*;

verus! {

/// The lower-case hexadecimal digit for a value below 16.
pub open spec fn hex_digit(n: u8) -> char {
    match n {
        0u8 => '0',
        1u8 => '1',
        2u8 => '2',
        3u8 => '3',
        4u8 => '4',
        5u8 => '5',
        6u8 => '6',
        7u8 => '7',
        8u8 => '8',
        9u8 => '9',
        10u8 => 'a',
        11u8 => 'b',
        12u8 => 'c',
        13u8 => 'd',
        14u8 => 'e',
        _ => 'f',
    }
}

/// The value of a hexadecimal digit of either case; `None` for any other
/// character.
pub open spec fn hex_digit_value(c: char) -> Option<u8> {
    match c {
        '0' => Some(0u8),
        '1' => Some(1u8),
        '2' => Some(2u8),
        '3' => Some(3u8),
        '4' => Some(4u8),
        '5' => Some(5u8),
        '6' => Some(6u8),
        '7' => Some(7u8),
        '8' => Some(8u8),
        '9' => Some(9u8),
        'a' | 'A' => Some(10u8),
        'b' | 'B' => Some(11u8),
        'c' | 'C' => Some(12u8),
        'd' | 'D' => Some(13u8),
        'e' | 'E' => Some(14u8),
        'f' | 'F' => Some(15u8),
        _ => None,
    }
}

/// The `k`-th half byte of a byte string, the high half first.
pub open spec fn nibble_at(bytes: Seq<u8>, k: int) -> u8 {
    if k % 2 == 0 {
        bytes[k / 2] / 16
    } else {
        bytes[k / 2] % 16
    }
}

/// A byte string written as hexadecimal digits, two per byte.
pub open spec fn hex_of(bytes: Seq<u8>) -> Seq<char> {
    Seq::new(2 * bytes.len(), |k: int| hex_digit(nibble_at(bytes, k)))
}

/// Every character is a hexadecimal digit.
pub open spec fn is_hex(s: Seq<char>) -> bool {
    forall|i: int| 0 <= i < s.len() ==> hex_digit_value(#[trigger] s[i]) is Some
}

/// The byte that two hexadecimal digits spell.
pub open spec fn byte_of_digits(high: char, low: char) -> u8 {
    (16 * hex_digit_value(high)->Some_0 + hex_digit_value(low)->Some_0) as u8
}

/// The 32 bytes that 64 hexadecimal digits spell; `None` for any other
/// text.
pub open spec fn parse_hex(s: Seq<char>) -> Option<Seq<u8>> {
    if s.len() == 64 && is_hex(s) {
        Some(Seq::new(32, |i: int| byte_of_digits(s[2 * i], s[2 * i + 1])))
    } else {
        None
    }
}

/// Reading a digit that was written gives its value back.
pub proof fn lemma_digit_round_trip(n: u8)
    requires
        n < 16,
    ensures
        hex_digit_value(hex_digit(n)) == Some(n),
{
}

/// Parsing what was written gives the bytes back.
pub proof fn lemma_hex_round_trip(bytes: Seq<u8>)
    requires
        bytes.len() == 32,
    ensures
        parse_hex(hex_of(bytes)) == Some(bytes),
{
    let s = hex_of(bytes);
    assert forall|i: int| 0 <= i < s.len() implies hex_digit_value(#[trigger] s[i]) is Some by {
        lemma_digit_round_trip(nibble_at(bytes, i));
    }
    let parsed = parse_hex(s)->Some_0;
    assert forall|i: int| 0 <= i < 32 implies parsed[i] == bytes[i] by {
        lemma_digit_round_trip(nibble_at(bytes, 2 * i));
        lemma_digit_round_trip(nibble_at(bytes, 2 * i + 1));
        assert(nibble_at(bytes, 2 * i) == bytes[i] / 16);
        assert(nibble_at(bytes, 2 * i + 1) == bytes[i] % 16);
    }
    assert(parsed =~= bytes);
}

/// The digit for a value below 16, as a one-character string.
pub fn hex_digit_str(n: u8) -> (digit: &'static str)
    requires
        n < 16,
    ensures
        digit@ == seq![hex_digit(n)],
{
    proof {
        reveal_strlit("0");
        reveal_strlit("1");
        reveal_strlit("2");
        reveal_strlit("3");
        reveal_strlit("4");
        reveal_strlit("5");
        reveal_strlit("6");
        reveal_strlit("7");
        reveal_strlit("8");
        reveal_strlit("9");
        reveal_strlit("a");
        reveal_strlit("b");
        reveal_strlit("c");
        reveal_strlit("d");
        reveal_strlit("e");
        reveal_strlit("f");
    }
    let digit = match n {
        0u8 => "0",
        1u8 => "1",
        2u8 => "2",
        3u8 => "3",
        4u8 => "4",
        5u8 => "5",
        6u8 => "6",
        7u8 => "7",
        8u8 => "8",
        9u8 => "9",
        10u8 => "a",
        11u8 => "b",
        12u8 => "c",
        13u8 => "d",
        14u8 => "e",
        _ => "f",
    };
    assert(digit@ =~= seq![hex_digit(n)]);
    digit
}

/// The value of one hexadecimal digit.
pub fn digit_value(c: char) -> (value: Option<u8>)
    ensures
        value == hex_digit_value(c),
        value is Some ==> value->Some_0 < 16,
{
    match c {
        '0' => Some(0u8),
        '1' => Some(1u8),
        '2' => Some(2u8),
        '3' => Some(3u8),
        '4' => Some(4u8),
        '5' => Some(5u8),
        '6' => Some(6u8),
        '7' => Some(7u8),
        '8' => Some(8u8),
        '9' => Some(9u8),
        'a' | 'A' => Some(10u8),
        'b' | 'B' => Some(11u8),
        'c' | 'C' => Some(12u8),
        'd' | 'D' => Some(13u8),
        'e' | 'E' => Some(14u8),
        'f' | 'F' => Some(15u8),
        _ => None,
    }
}

} // verus!
