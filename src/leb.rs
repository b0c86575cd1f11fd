use vstd::prelude::*;

use crate::error::GhwParseError;
use crate::input::Input;

verus! {

/// Number of bytes in the group at the front of `s` that encodes one LEB128 number:
/// up to and including the first byte whose top bit is clear; `None` when `s` ends first.
pub open spec fn leb_group_len(s: Seq<u8>) -> Option<nat>
    decreases s.len(),
{
    if s.len() == 0 {
        None
    } else if s[0] < 128 {
        Some(1)
    } else {
        match leb_group_len(s.drop_first()) {
            Some(n) => Some(n + 1),
            None => None,
        }
    }
}

/// The 7-bit payloads of the first `n` bytes of `s`, least significant group first.
pub open spec fn leb_payload(s: Seq<u8>, n: nat) -> int
    decreases n,
{
    if n == 0 || s.len() == 0 {
        0
    } else {
        (s[0] % 128) + 128 * leb_payload(s.drop_first(), (n - 1) as nat)
    }
}

/// A payload is never negative.
pub proof fn lemma_payload_nonneg(s: Seq<u8>, n: nat)
    ensures
        leb_payload(s, n) >= 0,
    decreases n,
{
    if n > 0 && s.len() > 0 {
        lemma_payload_nonneg(s.drop_first(), (n - 1) as nat);
    }
}

/// `128` to the power `n`.
pub open spec fn pow128(n: nat) -> int
    decreases n,
{
    if n == 0 {
        1
    } else {
        128 * pow128((n - 1) as nat)
    }
}

/// The signed value of a group of `n` bytes: the payload, sign-extended from the bit
/// below the continuation bit of the last byte.
pub open spec fn leb_signed_value(s: Seq<u8>, n: nat) -> int {
    if n > 0 && s[n - 1] % 128 >= 64 {
        leb_payload(s, n) - pow128(n)
    } else {
        leb_payload(s, n)
    }
}

/// The outcome of reading an unsigned LEB128 number from the front of `s`: its value and the
/// number of bytes it took. A tenth byte may only be 0 or 1, else the value would not fit in 64 bits.
pub open spec fn uleb_read(s: Seq<u8>) -> Result<(int, nat), GhwParseError> {
    match leb_group_len(s) {
        None => Err(GhwParseError::UnexpectedEof),
        Some(n) => if n <= 9 {
            Ok((leb_payload(s, n), n))
        } else if s[9] <= 1 {
            Ok((leb_payload(s, 10), 10))
        } else {
            Err(GhwParseError::Leb128Overflow)
        },
    }
}

/// The outcome of reading a signed LEB128 number from the front of `s`. A tenth byte may only
/// be 0x00 or 0x7f, else the value would not fit in 64 bits.
pub open spec fn sleb_read(s: Seq<u8>) -> Result<(int, nat), GhwParseError> {
    match leb_group_len(s) {
        None => Err(GhwParseError::UnexpectedEof),
        Some(n) => if n <= 9 {
            Ok((leb_signed_value(s, n), n))
        } else if s[9] == 0 || s[9] == 0x7f {
            Ok((leb_signed_value(s, 10), 10))
        } else {
            Err(GhwParseError::Leb128Overflow)
        },
    }
}

/// Relies on `leb128::read::unsigned`: reads one unsigned LEB128 number from the front of
/// `bytes` and returns it with the number of bytes left behind it; a slice that ends early
/// gives its I/O error, a number that does not fit in 64 bits gives `Overflow`.
#[verifier::external_body]
fn leb_unsigned(bytes: &[u8]) -> (r: Result<(u64, usize), GhwParseError>)
    ensures
        match uleb_read(bytes@) {
            Ok((v, n)) => r matches Ok((x, rest)) && x == v && rest == bytes@.len() - n,
            Err(e) => r == Err::<(u64, usize), GhwParseError>(e),
        },
{
    let mut rest = bytes;
    match leb128::read::unsigned(&mut rest) {
        Ok(v) => Ok((v, rest.len())),
        Err(leb128::read::Error::Overflow) => Err(GhwParseError::Leb128Overflow),
        Err(leb128::read::Error::IoError(_)) => Err(GhwParseError::UnexpectedEof),
    }
}

/// Relies on `leb128::read::signed`: reads one signed LEB128 number from the front of
/// `bytes` and returns it with the number of bytes left behind it; a slice that ends early
/// gives its I/O error, a number that does not fit in 64 bits gives `Overflow`.
#[verifier::external_body]
fn leb_signed(bytes: &[u8]) -> (r: Result<(i64, usize), GhwParseError>)
    ensures
        match sleb_read(bytes@) {
            Ok((v, n)) => r matches Ok((x, rest)) && x == v && rest == bytes@.len() - n,
            Err(e) => r == Err::<(i64, usize), GhwParseError>(e),
        },
{
    let mut rest = bytes;
    match leb128::read::signed(&mut rest) {
        Ok(v) => Ok((v, rest.len())),
        Err(leb128::read::Error::Overflow) => Err(GhwParseError::Leb128Overflow),
        Err(leb128::read::Error::IoError(_)) => Err(GhwParseError::UnexpectedEof),
    }
}

/// Reads an unsigned LEB128 number at the read position.
pub fn read_unsigned(input: &mut Input) -> (r: Result<u64, GhwParseError>)
    requires
        old(input).wf(),
    ensures
        final(input).wf(),
        final(input).same_data(old(input)),
        match uleb_read(old(input).rest()) {
            Ok((v, n)) => r matches Ok(x) && x == v && final(input).pos == old(input).pos + n,
            Err(e) => r == Err::<u64, GhwParseError>(e),
        },
        r is Ok ==> final(input).pos >= old(input).pos,
{
    let len = input.data.len();
    let rest = &input.data.as_slice()[input.pos..len];
    match leb_unsigned(rest) {
        Ok((v, left)) => {
            input.pos = len - left;
            Ok(v)
        },
        Err(e) => Err(e),
    }
}

/// Reads a signed LEB128 number at the read position.
pub fn read_signed(input: &mut Input) -> (r: Result<i64, GhwParseError>)
    requires
        old(input).wf(),
    ensures
        final(input).wf(),
        final(input).same_data(old(input)),
        match sleb_read(old(input).rest()) {
            Ok((v, n)) => r matches Ok(x) && x == v && final(input).pos == old(input).pos + n,
            Err(e) => r == Err::<i64, GhwParseError>(e),
        },
        r is Ok ==> final(input).pos >= old(input).pos,
{
    let len = input.data.len();
    let rest = &input.data.as_slice()[input.pos..len];
    match leb_signed(rest) {
        Ok((v, left)) => {
            input.pos = len - left;
            Ok(v)
        },
        Err(e) => Err(e),
    }
}

} // verus!
