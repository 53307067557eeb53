//! Process-local identifier generation: a nanosecond timestamp rendered as
//! 32 lowercase hexadecimal digits, for naming temporary artifacts.

use vstd::prelude::*;
use vstd::string::StringExecFns;
use vstd::arithmetic::power2::pow2;
use crate::scoring::pow2_u128;

verus! {

/// The lowercase hexadecimal digit of a value below 16.
pub open spec fn hex_digit(d: nat) -> char {
    if d == 0 {
        '0'
    } else if d == 1 {
        '1'
    } else if d == 2 {
        '2'
    } else if d == 3 {
        '3'
    } else if d == 4 {
        '4'
    } else if d == 5 {
        '5'
    } else if d == 6 {
        '6'
    } else if d == 7 {
        '7'
    } else if d == 8 {
        '8'
    } else if d == 9 {
        '9'
    } else if d == 10 {
        'a'
    } else if d == 11 {
        'b'
    } else if d == 12 {
        'c'
    } else if d == 13 {
        'd'
    } else if d == 14 {
        'e'
    } else {
        'f'
    }
}

/// The 32 hexadecimal digits of a 128-bit value, most significant first.
pub open spec fn spec_hex32(n: u128) -> Seq<char> {
    Seq::new(32, |i: int| hex_digit(((n as nat) / pow2((4 * (31 - i)) as nat)) % 16))
}

/// Relies on std's SystemTime for the wall clock: nanoseconds since the
/// Unix epoch, or 0 when the clock reads earlier than the epoch. Nothing
/// can be promised of the value.
#[verifier::external_body]
fn now_unix_nanos() -> u128 {
    match std::time::SystemTime::now().duration_since(std::time::UNIX_EPOCH) {
        Ok(d) => d.as_nanos(),
        Err(_) => 0,
    }
}

fn hex_char_str(d: u8) -> (r: &'static str)
    requires
        d < 16,
    ensures
        r@ =~= seq![hex_digit(d as nat)],
{
    proof {
        reveal_strlit("0");
        reveal_strlit("1");
        reveal_strlit("2");
        reveal_strlit("3");
        reveal_strlit("4");
        reveal_strlit("5");
        reveal_strlit("6");
        reveal_strlit("7");
        reveal_strlit("8");
        reveal_strlit("9");
        reveal_strlit("a");
        reveal_strlit("b");
        reveal_strlit("c");
        reveal_strlit("d");
        reveal_strlit("e");
        reveal_strlit("f");
    }
    match d {
        0 => "0",
        1 => "1",
        2 => "2",
        3 => "3",
        4 => "4",
        5 => "5",
        6 => "6",
        7 => "7",
        8 => "8",
        9 => "9",
        10 => "a",
        11 => "b",
        12 => "c",
        13 => "d",
        14 => "e",
        _ => "f",
    }
}

/// Render a 128-bit value as 32 lowercase hexadecimal digits, most
/// significant first (zero-padded).
pub fn to_hex32(n: u128) -> (r: String)
    ensures
        r@ == spec_hex32(n),
{
    let mut out = String::new();
    let mut i: usize = 0;
    while i < 32
        invariant
            0 <= i <= 32,
            out@ == spec_hex32(n).take(i as int),
        decreases 32 - i,
    {
        let e: u64 = 4 * (31 - i as u64);
        let p = pow2_u128(e);
        proof {
            vstd::arithmetic::power2::lemma_pow2_pos(e as nat);
        }
        let d: u8 = ((n / p) % 16) as u8;
        let hs = hex_char_str(d);
        out.append(hs);
        proof {
            assert(spec_hex32(n)[i as int] == hex_digit(d as nat));
            assert(out@ =~= spec_hex32(n).take(i as int + 1));
        }
        i += 1;
    }
    proof {
        assert(spec_hex32(n).take(32) =~= spec_hex32(n));
    }
    out
}

/// A fresh 32-digit hexadecimal identifier drawn from the wall clock, for
/// naming temporary artifacts. The digits are some value's exact rendering;
/// which value depends on the clock.
pub fn uuid_v4() -> (r: String)
    ensures
        r@.len() == 32,
        exists|n: u128| r@ == spec_hex32(n),
{
    let n = now_unix_nanos();
    let r = to_hex32(n);
    proof {
        assert(r@ == spec_hex32(n));
    }
    r
}

} // verus!
