//! Numbers written into text, for names and for the readable form of events.
use vstd::prelude::*;

verus! {

/// `String::push`: the character is appended to the end of the string.
pub assume_specification[ String::push ](text: &mut String, ch: char)
    ensures
        final(text)@ == old(text)@.push(ch),
;

/// `String::push_str`: the slice is appended to the end of the string.
pub assume_specification[ String::push_str ](text: &mut String, more: &str)
    ensures
        final(text)@ == old(text)@ + more@,
;

/// The digit that stands for `value`, which is less than sixteen: `0` to `9`,
/// then `A` to `F`.
pub open spec fn digit(value: int) -> char {
    if value == 0 {
        '0'
    } else if value == 1 {
        '1'
    } else if value == 2 {
        '2'
    } else if value == 3 {
        '3'
    } else if value == 4 {
        '4'
    } else if value == 5 {
        '5'
    } else if value == 6 {
        '6'
    } else if value == 7 {
        '7'
    } else if value == 8 {
        '8'
    } else if value == 9 {
        '9'
    } else if value == 10 {
        'A'
    } else if value == 11 {
        'B'
    } else if value == 12 {
        'C'
    } else if value == 13 {
        'D'
    } else if value == 14 {
        'E'
    } else {
        'F'
    }
}

/// `number` in the decimal system, without leading zeroes.
pub open spec fn decimal(number: nat) -> Seq<char>
    decreases number,
{
    if number < 10 {
        seq![digit(number as int)]
    } else {
        decimal(number / 10).push(digit((number % 10) as int))
    }
}

/// `byte` in the hexadecimal system, in capitals and without a leading zero.
pub open spec fn upper_hex(byte: u8) -> Seq<char> {
    if byte < 16 {
        seq![digit(byte as int)]
    } else {
        seq![digit(byte as int / 16), digit(byte as int % 16)]
    }
}

/// The digit that stands for `value`.
pub fn digit_of(value: u8) -> (ch: char)
    requires
        value < 16,
    ensures
        ch == digit(value as int),
{
    if value == 0 {
        '0'
    } else if value == 1 {
        '1'
    } else if value == 2 {
        '2'
    } else if value == 3 {
        '3'
    } else if value == 4 {
        '4'
    } else if value == 5 {
        '5'
    } else if value == 6 {
        '6'
    } else if value == 7 {
        '7'
    } else if value == 8 {
        '8'
    } else if value == 9 {
        '9'
    } else if value == 10 {
        'A'
    } else if value == 11 {
        'B'
    } else if value == 12 {
        'C'
    } else if value == 13 {
        'D'
    } else if value == 14 {
        'E'
    } else {
        'F'
    }
}

/// Appends `number` in the decimal system to `text`.
pub fn push_decimal(text: &mut String, number: usize)
    ensures
        final(text)@ == old(text)@ + decimal(number as nat),
    decreases number,
{
    if number >= 10 {
        push_decimal(text, number / 10);
    }
    text.push(digit_of((number % 10) as u8));
}

/// Appends `byte` in the hexadecimal system to `text`.
pub fn push_upper_hex(text: &mut String, byte: u8)
    ensures
        final(text)@ == old(text)@ + upper_hex(byte),
{
    if byte >= 16 {
        text.push(digit_of(byte / 16));
    }
    text.push(digit_of(byte % 16));
}

/// `label`, a space, and `index` in the decimal system.
pub open spec fn numbered(label: Seq<char>, index: nat) -> Seq<char> {
    label + seq![' '] + decimal(index)
}

/// The name of the thing with the given index among those called `label`:
/// the label, a space and the index.
pub fn numbered_name(label: &str, index: usize) -> (name: String)
    ensures
        name@ == numbered(label@, index as nat),
{
    let mut name = String::new();
    name.push_str(label);
    name.push(' ');
    push_decimal(&mut name, index);
    name
}

} // verus!
