//! Errors that end the handling of a CTAPHID exchange.

use vstd::prelude::*;

verus! {

/// Why a CTAPHID exchange could not be handled; the connection is dropped.
#[derive(Clone, Copy, Debug, PartialEq, Eq, Structural)]
pub enum ServerError {
    /// The first packet of a message did not carry the initialization bit.
    UnexpectedContinuation,
    /// A continuation packet arrived on another channel.
    ChannelMismatch,
    /// A continuation packet carried the wrong sequence number.
    BadSequence { expected: u8, got: u8 },
    /// The command byte names no CTAPHID command.
    UnknownCommand(u8),
    /// The request does not fit in an application message.
    RequestTooLarge,
}

/// The character of the digit `d` (0 to 15): `0`-`9`, then `A`-`F`.
pub open spec fn digit_char(d: nat) -> char {
    if d < 10 {
        (48 + d) as char
    } else {
        (55 + d) as char
    }
}

/// The decimal digits of a byte, without leading zeros.
pub open spec fn decimal(v: u8) -> Seq<char> {
    if v < 10 {
        seq![digit_char(v as nat)]
    } else if v < 100 {
        seq![digit_char((v / 10) as nat), digit_char((v % 10) as nat)]
    } else {
        seq![
            digit_char((v / 100) as nat),
            digit_char((v / 10 % 10) as nat),
            digit_char((v % 10) as nat),
        ]
    }
}

/// The two upper-case hexadecimal digits of a byte.
pub open spec fn hex2(v: u8) -> Seq<char> {
    seq![digit_char((v / 16) as nat), digit_char((v % 16) as nat)]
}

/// The description of an error.
pub open spec fn message_text(e: ServerError) -> Seq<char> {
    match e {
        ServerError::UnexpectedContinuation => "Unexpected continuation packet"@,
        ServerError::ChannelMismatch => "CID mismatch"@,
        ServerError::BadSequence { expected, got } => "Bad seq: expected "@ + decimal(expected)
            + ", got "@ + decimal(got),
        ServerError::UnknownCommand(cmd) => "Unknown command: 0x"@ + hex2(cmd),
        ServerError::RequestTooLarge => "Request too large"@,
    }
}

/// Append the character of digit `d`.
fn push_digit(s: &mut String, d: u8)
    requires
        d < 16,
    ensures
        final(s)@ == old(s)@.push(digit_char(d as nat)),
{
    proof {
        reveal_strlit("0");
        reveal_strlit("1");
        reveal_strlit("2");
        reveal_strlit("3");
        reveal_strlit("4");
        reveal_strlit("5");
        reveal_strlit("6");
        reveal_strlit("7");
        reveal_strlit("8");
        reveal_strlit("9");
        reveal_strlit("A");
        reveal_strlit("B");
        reveal_strlit("C");
        reveal_strlit("D");
        reveal_strlit("E");
        reveal_strlit("F");
    }
    let ghost before = s@;
    match d {
        0 => s.append("0"),
        1 => s.append("1"),
        2 => s.append("2"),
        3 => s.append("3"),
        4 => s.append("4"),
        5 => s.append("5"),
        6 => s.append("6"),
        7 => s.append("7"),
        8 => s.append("8"),
        9 => s.append("9"),
        10 => s.append("A"),
        11 => s.append("B"),
        12 => s.append("C"),
        13 => s.append("D"),
        14 => s.append("E"),
        _ => s.append("F"),
    }
    assert(s@ =~= before.push(digit_char(d as nat)));
}

/// Append the decimal digits of `v`.
fn push_decimal(s: &mut String, v: u8)
    ensures
        final(s)@ == old(s)@ + decimal(v),
{
    let ghost before = s@;
    if v >= 100 {
        push_digit(s, v / 100);
    }
    if v >= 10 {
        push_digit(s, v / 10 % 10);
    }
    push_digit(s, v % 10);
    assert(s@ =~= before + decimal(v));
}

/// Append the two hexadecimal digits of `v`.
fn push_hex2(s: &mut String, v: u8)
    ensures
        final(s)@ == old(s)@ + hex2(v),
{
    let ghost before = s@;
    push_digit(s, v / 16);
    push_digit(s, v % 16);
    assert(s@ =~= before + hex2(v));
}

impl ServerError {
    /// The human-readable description of the error.
    pub fn message(&self) -> (s: String)
        ensures
            s@ == message_text(*self),
    {
        match self {
            ServerError::UnexpectedContinuation => "Unexpected continuation packet".to_string(),
            ServerError::ChannelMismatch => "CID mismatch".to_string(),
            ServerError::BadSequence { expected, got } => {
                let mut s = "Bad seq: expected ".to_string();
                push_decimal(&mut s, *expected);
                s.append(", got ");
                push_decimal(&mut s, *got);
                s
            },
            ServerError::UnknownCommand(cmd) => {
                let mut s = "Unknown command: 0x".to_string();
                push_hex2(&mut s, *cmd);
                s
            },
            ServerError::RequestTooLarge => "Request too large".to_string(),
        }
    }
}

} // verus!
