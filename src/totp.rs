//! Turning an HMAC digest into a decimal one-time code (RFC 4226 dynamic truncation).
use vstd::prelude::*;

use crate::text::{digits_value, push_char};
use vstd::arithmetic::div_mod::lemma_mod_breakdown;
use vstd::arithmetic::power::pow;

verus! {

/// The 31-bit value that dynamic truncation reads from a digest: the low four bits of the last
/// byte give an offset, and the four bytes there are read big-endian with the top bit cleared.
pub open spec fn truncated_value(hash: Seq<u8>) -> nat {
    let offset = (hash.last() & 0xfu8) as int;
    ((hash[offset] & 0x7fu8) as nat) * 0x1000000 + (hash[offset + 1] as nat) * 0x10000 + (hash[offset
        + 2] as nat) * 0x100 + (hash[offset + 3] as nat)
}

/// The ASCII digit for a value below ten.
pub open spec fn digit_char(d: nat) -> char {
    (48 + d) as char
}

/// The last `width` decimal digits of `v`, zero-padded on the left: `v` modulo `10^width`,
/// written in exactly `width` digits.
pub open spec fn padded_decimal(v: nat, width: nat) -> Seq<char>
    decreases width,
{
    if width == 0 {
        Seq::empty()
    } else {
        padded_decimal(v / 10, (width - 1) as nat).push(digit_char(v % 10))
    }
}

/// A string of decimal digits only.
pub open spec fn is_numeric(s: Seq<char>) -> bool {
    forall|i: int| 0 <= i < s.len() ==> '0' <= #[trigger] s[i] <= '9'
}

/// A zero-padded code is exactly `width` decimal digits long.
pub proof fn lemma_padded_decimal_shape(v: nat, width: nat)
    ensures
        padded_decimal(v, width).len() == width,
        is_numeric(padded_decimal(v, width)),
    decreases width,
{
    if width > 0 {
        lemma_padded_decimal_shape(v / 10, (width - 1) as nat);
        let s = padded_decimal(v, width);
        assert forall|i: int| 0 <= i < s.len() implies '0' <= #[trigger] s[i] <= '9' by {
            if i < width - 1 {
                assert(s[i] == padded_decimal(v / 10, (width - 1) as nat)[i]);
            }
        }
    }
}

/// A zero-padded code reads as `v` modulo `10^width`.
pub proof fn lemma_padded_decimal_value(v: nat, width: nat)
    ensures
        digits_value(padded_decimal(v, width)) == v % (pow(10, width) as nat),
    decreases width,
{
    reveal(pow);
    if width == 0 {
        assert(pow(10, 0) == 1);
    } else {
        lemma_padded_decimal_value(v / 10, (width - 1) as nat);
        let s = padded_decimal(v, width);
        let m = pow(10, (width - 1) as nat);
        vstd::arithmetic::power::lemma_pow_positive(10, (width - 1) as nat);
        assert(s.drop_last() =~= padded_decimal(v / 10, (width - 1) as nat));
        assert(s.last() as nat == 48 + v % 10);
        assert(digits_value(s) == digits_value(s.drop_last()) * 10 + (s.last() as nat - 48) as nat);
        lemma_mod_breakdown(v as int, 10, m);
        assert(pow(10, width) == 10 * m);
    }
}

fn push_padded_decimal(out: &mut String, v: u64, width: u32)
    ensures
        final(out)@ == old(out)@ + padded_decimal(v as nat, width as nat),
    decreases width,
{
    if width > 0 {
        push_padded_decimal(out, v / 10, width - 1);
        let d = (v % 10) as u8;
        let c = (48u8 + d) as char;
        proof {
            assert(old(out)@ + padded_decimal(v as nat, width as nat) =~= old(out)@
                + padded_decimal((v / 10) as nat, (width - 1) as nat) + seq![digit_char((v % 10) as nat)]);
        }
        push_char(out, c);
    } else {
        proof {
            assert(old(out)@ + padded_decimal(v as nat, 0) =~= old(out)@);
        }
    }
}

/// Formats the one-time code of a digest: dynamic truncation, then the last `digits` decimal
/// digits, zero-padded to `digits` characters.
pub fn totp_code_to_string(hash: &Vec<u8>, digits: u32) -> (r: String)
    requires
        hash@.len() >= 19,
    ensures
        r@ == padded_decimal(truncated_value(hash@), digits as nat),
        r@.len() == digits,
        is_numeric(r@),
        digits_value(r@) == truncated_value(hash@) % (pow(10, digits as nat) as nat),
{
    let last = hash[hash.len() - 1];
    let offset = (last & 0xf) as usize;
    assert(last & 0xfu8 <= 15) by (bit_vector);
    let mut code: u64 = (hash[offset] & 0x7f) as u64 * 0x1000000;
    code = code + hash[offset + 1] as u64 * 0x10000;
    code = code + hash[offset + 2] as u64 * 0x100;
    code = code + hash[offset + 3] as u64;
    let mut out = String::new();
    push_padded_decimal(&mut out, code, digits);
    proof {
        lemma_padded_decimal_shape(code as nat, digits as nat);
        lemma_padded_decimal_value(code as nat, digits as nat);
        assert(out@ =~= padded_decimal(code as nat, digits as nat));
    }
    out
}

/// The time step of a Unix time: whole intervals since the epoch.
pub fn time_counter(unix_secs: u64, interval: u32) -> (r: u64)
    requires
        interval > 0,
    ensures
        r == unix_secs / (interval as u64),
{
    unix_secs / interval as u64
}

/// The eight big-endian bytes of `v`.
pub open spec fn be_bytes(v: u64) -> Seq<u8> {
    Seq::new(8, |i: int| ((v >> ((56 - 8 * i) as u64)) & 0xffu64) as u8)
}

/// The HMAC message for a time step: the counter as eight big-endian bytes.
pub fn counter_message(counter: u64) -> (r: Vec<u8>)
    ensures
        r@ == be_bytes(counter),
{
    let mut r: Vec<u8> = Vec::new();
    let mut i: u64 = 0;
    while i < 8
        invariant
            i <= 8,
            r@ == be_bytes(counter).take(i as int),
        decreases 8 - i,
    {
        proof {
            assert(be_bytes(counter).take(i + 1) =~= be_bytes(counter).take(i as int).push(
                ((counter >> ((56 - 8 * i) as u64)) & 0xffu64) as u8,
            ));
        }
        r.push(((counter >> (56 - 8 * i)) & 0xff) as u8);
        i = i + 1;
    }
    proof {
        assert(be_bytes(counter).take(8) =~= be_bytes(counter));
    }
    r
}

/// One interval later the time step is the next one, so its message differs.
pub proof fn lemma_next_interval(unix_secs: u64, interval: u32)
    requires
        interval > 0,
        unix_secs + interval <= u64::MAX,
    ensures
        (unix_secs + interval) as u64 / (interval as u64) == unix_secs / (interval as u64) + 1,
        be_bytes(((unix_secs + interval) as u64 / (interval as u64)) as u64) != be_bytes(
            unix_secs / (interval as u64),
        ),
{
    let a = unix_secs / (interval as u64);
    let b = (unix_secs + interval) as u64 / (interval as u64);
    assert(b == a + 1) by (nonlinear_arith)
        requires
            interval > 0,
            a == unix_secs / (interval as u64),
            b == (unix_secs + interval) / (interval as int),
    ;
    lemma_be_bytes_injective(b, a);
}

/// Different counters give different messages.
pub proof fn lemma_be_bytes_injective(x: u64, y: u64)
    requires
        x != y,
    ensures
        be_bytes(x) != be_bytes(y),
{
    if be_bytes(x) == be_bytes(y) {
        assert(be_bytes(x)[0] == be_bytes(y)[0]);
        assert(be_bytes(x)[1] == be_bytes(y)[1]);
        assert(be_bytes(x)[2] == be_bytes(y)[2]);
        assert(be_bytes(x)[3] == be_bytes(y)[3]);
        assert(be_bytes(x)[4] == be_bytes(y)[4]);
        assert(be_bytes(x)[5] == be_bytes(y)[5]);
        assert(be_bytes(x)[6] == be_bytes(y)[6]);
        assert(be_bytes(x)[7] == be_bytes(y)[7]);
        assert(x == y) by (bit_vector)
            requires
                ((x >> 56u64) & 0xffu64) as u8 == ((y >> 56u64) & 0xffu64) as u8,
                ((x >> 48u64) & 0xffu64) as u8 == ((y >> 48u64) & 0xffu64) as u8,
                ((x >> 40u64) & 0xffu64) as u8 == ((y >> 40u64) & 0xffu64) as u8,
                ((x >> 32u64) & 0xffu64) as u8 == ((y >> 32u64) & 0xffu64) as u8,
                ((x >> 24u64) & 0xffu64) as u8 == ((y >> 24u64) & 0xffu64) as u8,
                ((x >> 16u64) & 0xffu64) as u8 == ((y >> 16u64) & 0xffu64) as u8,
                ((x >> 8u64) & 0xffu64) as u8 == ((y >> 8u64) & 0xffu64) as u8,
                ((x >> 0u64) & 0xffu64) as u8 == ((y >> 0u64) & 0xffu64) as u8,
        ;
    }
}

} // verus!
