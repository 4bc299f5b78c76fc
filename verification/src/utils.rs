//! Identifier and timestamp generation: hexadecimal and decimal rendering
//! of machine integers, fed from the system clock.

use vstd::prelude::*;
use crate::text::string_of;

verus! {

/// The character for one digit value below sixteen.
pub open spec fn spec_digit(d: int) -> char {
    if d == 0 {
        '0'
    } else if d == 1 {
        '1'
    } else if d == 2 {
        '2'
    } else if d == 3 {
        '3'
    } else if d == 4 {
        '4'
    } else if d == 5 {
        '5'
    } else if d == 6 {
        '6'
    } else if d == 7 {
        '7'
    } else if d == 8 {
        '8'
    } else if d == 9 {
        '9'
    } else if d == 10 {
        'a'
    } else if d == 11 {
        'b'
    } else if d == 12 {
        'c'
    } else if d == 13 {
        'd'
    } else if d == 14 {
        'e'
    } else {
        'f'
    }
}

/// Lowercase hexadecimal rendering, most significant digit first, no
/// leading zeros, a single `0` for zero.
pub open spec fn spec_hex(n: nat) -> Seq<char>
    decreases n,
{
    if n < 16 {
        seq![spec_digit(n as int)]
    } else {
        spec_hex(n / 16) + seq![spec_digit((n % 16) as int)]
    }
}

/// Decimal rendering, most significant digit first, no leading zeros,
/// a single `0` for zero.
pub open spec fn spec_dec(n: nat) -> Seq<char>
    decreases n,
{
    if n < 10 {
        seq![spec_digit(n as int)]
    } else {
        spec_dec(n / 10) + seq![spec_digit((n % 10) as int)]
    }
}

fn digit_char(d: u64) -> (c: char)
    requires
        d < 16,
    ensures
        c == spec_digit(d as int),
{
    if d == 0 {
        '0'
    } else if d == 1 {
        '1'
    } else if d == 2 {
        '2'
    } else if d == 3 {
        '3'
    } else if d == 4 {
        '4'
    } else if d == 5 {
        '5'
    } else if d == 6 {
        '6'
    } else if d == 7 {
        '7'
    } else if d == 8 {
        '8'
    } else if d == 9 {
        '9'
    } else if d == 10 {
        'a'
    } else if d == 11 {
        'b'
    } else if d == 12 {
        'c'
    } else if d == 13 {
        'd'
    } else if d == 14 {
        'e'
    } else {
        'f'
    }
}

fn hex_chars(n: u64) -> (r: Vec<char>)
    ensures
        r@ == spec_hex(n as nat),
    decreases n,
{
    if n < 16 {
        let mut v: Vec<char> = Vec::new();
        v.push(digit_char(n));
        proof {
            assert(v@ =~= spec_hex(n as nat));
        }
        v
    } else {
        let mut v = hex_chars(n / 16);
        v.push(digit_char(n % 16));
        proof {
            assert(v@ =~= spec_hex(n as nat));
        }
        v
    }
}

fn dec_chars(n: u64) -> (r: Vec<char>)
    ensures
        r@ == spec_dec(n as nat),
    decreases n,
{
    if n < 10 {
        let mut v: Vec<char> = Vec::new();
        v.push(digit_char(n));
        proof {
            assert(v@ =~= spec_dec(n as nat));
        }
        v
    } else {
        let mut v = dec_chars(n / 10);
        v.push(digit_char(n % 10));
        proof {
            assert(v@ =~= spec_dec(n as nat));
        }
        v
    }
}

/// The hexadecimal text of a machine integer.
pub fn u64_to_hex(n: u64) -> (r: String)
    ensures
        r@ == spec_hex(n as nat),
{
    let v = hex_chars(n);
    string_of(&v)
}

/// The decimal text of a machine integer.
pub fn u64_to_dec(n: u64) -> (r: String)
    ensures
        r@ == spec_dec(n as nat),
{
    let v = dec_chars(n);
    string_of(&v)
}

/// Relies on `std::time::SystemTime::now` and `duration_since(UNIX_EPOCH)`:
/// the duration since the epoch as whole seconds and the sub-second
/// nanoseconds, which `Duration` keeps below one billion. A clock before
/// the epoch reads as the epoch itself.
#[verifier::external_body]
fn unix_now() -> (r: (u64, u32))
    ensures
        r.1 < 1_000_000_000,
{
    match std::time::SystemTime::now().duration_since(std::time::UNIX_EPOCH) {
        Ok(d) => (d.as_secs(), d.subsec_nanos()),
        Err(_) => (0, 0),
    }
}

/// A fresh identifier: the clock's seconds and sub-second nanoseconds,
/// both in hexadecimal, run together. Not guaranteed unique under rapid
/// creation within one clock tick.
pub fn uuid_simple() -> (r: String)
    ensures
        exists|s: nat, ns: nat| ns < 1_000_000_000 && r@ == spec_hex(s) + spec_hex(ns),
{
    let (secs, nanos) = unix_now();
    let a = u64_to_hex(secs);
    let b = u64_to_hex(nanos as u64);
    let r = a.concat(b.as_str());
    proof {
        assert(r@ == spec_hex(secs as nat) + spec_hex(nanos as nat));
    }
    r
}

/// The current time as decimal seconds since the epoch.
pub fn timestamp_now() -> (r: String)
    ensures
        exists|s: nat| r@ == spec_dec(s),
{
    let (secs, _nanos) = unix_now();
    let r = u64_to_dec(secs);
    proof {
        assert(r@ == spec_dec(secs as nat));
    }
    r
}

} // verus!
