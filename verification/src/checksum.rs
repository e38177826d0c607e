//! Fletcher-32 checksum of file contents, as the relay's peers compute it:
//! over the UTF-8 bytes, two bytes (little end first) per step, padded with a
//! zero byte when the length is odd, both sums taken modulo 0xFFFF.

use vstd::prelude::*;
use vstd::string::StringSliceAdditionalSpecFns;
use vstd::utf8::encode_utf8;

verus! {

/// Byte `i` of `b`, or the zero padding past its end.
pub open spec fn padded_byte(b: Seq<u8>, i: int) -> nat {
    if 0 <= i < b.len() {
        b[i] as nat
    } else {
        0
    }
}

/// The two running sums after the first `pairs` steps over `b`.
pub open spec fn fletcher_sums(b: Seq<u8>, pairs: nat) -> (nat, nat)
    decreases pairs,
{
    if pairs == 0 {
        (0, 0)
    } else {
        let prev = fletcher_sums(b, (pairs - 1) as nat);
        let i = 2 * (pairs - 1);
        let s1 = (prev.0 + padded_byte(b, i) + padded_byte(b, i + 1) * 256) % 65535;
        (s1, (s1 + prev.1) % 65535)
    }
}

/// The checksum of the bytes `b`: the second sum in the high half, the
/// first in the low half.
pub open spec fn fletcher32_bytes(b: Seq<u8>) -> nat {
    let sums = fletcher_sums(b, ((b.len() + 1) / 2) as nat);
    sums.1 * 65536 + sums.0
}

/// The checksum of a text: Fletcher-32 of its UTF-8 encoding.
pub open spec fn fletcher32_spec(text: Seq<char>) -> u32 {
    fletcher32_bytes(encode_utf8(text)) as u32
}

/// For up to four bytes: the first sum is the two little-endian byte pairs
/// added, the second adds the first pair once more, both modulo 0xFFFF, and
/// the second sum is the high half of the checksum.
pub proof fn lemma_fletcher32_short(b: Seq<u8>)
    requires
        b.len() <= 4,
    ensures
        ({
            let p1 = (padded_byte(b, 0) + padded_byte(b, 1) * 256) % 65535;
            let p2 = padded_byte(b, 2) + padded_byte(b, 3) * 256;
            let s1 = (p1 + p2) % 65535;
            let s2 = (s1 + p1) % 65535;
            &&& b.len() == 0 ==> fletcher32_bytes(b) == 0
            &&& (1 <= b.len() <= 2 ==> fletcher32_bytes(b) == p1 * 65536 + p1)
            &&& (3 <= b.len() <= 4 ==> fletcher32_bytes(b) == s2 * 65536 + s1)
        }),
{
    reveal_with_fuel(fletcher_sums, 3);
    let p1 = (padded_byte(b, 0) + padded_byte(b, 1) * 256) % 65535;
    assert(p1 % 65535 == p1);
    assert(fletcher_sums(b, 1) == (p1, p1));
}

/// Fletcher-32 of the UTF-8 encoding of `contents`.
pub fn fletcher32(contents: &str) -> (r: u32)
    ensures
        r == fletcher32_bytes(contents.spec_bytes()),
        r == fletcher32_spec(contents@),
        r % 65536 < 65535,
        r / 65536 < 65535,
{
    let b = contents.as_bytes();
    let n = b.len();
    let mut s1: u32 = 0;
    let mut s2: u32 = 0;
    let mut i: usize = 0;
    let ghost mut p: nat = 0;
    while i < n
        invariant
            b@ == contents.spec_bytes(),
            n == b@.len(),
            i <= n,
            i < n ==> i == 2 * p && p < (n + 1) / 2,
            i == n ==> p == (n + 1) / 2,
            (s1 as nat, s2 as nat) == fletcher_sums(b@, p),
            s1 < 65535,
            s2 < 65535,
        decreases n - i,
    {
        let c1: u32 = b[i] as u32;
        let c2: u32 = if i + 1 < n {
            b[i + 1] as u32
        } else {
            0
        };
        s1 = (s1 + c1 + c2 * 256) % 65535;
        s2 = (s1 + s2) % 65535;
        proof {
            p = p + 1;
        }
        if i + 1 < n {
            i = i + 2;
        } else {
            i = n;
        }
    }
    let r = s2 * 65536 + s1;
    proof {
        assert(r % 65536 == s1 && r / 65536 == s2) by (nonlinear_arith)
            requires
                r == s2 * 65536 + s1,
                s1 < 65535,
        ;
    }
    r
}

} // verus!
