//! Standard base64 (RFC 4648 alphabet, `=` padding), used for the
//! `Authorization: Basic` header.

use vstd::prelude::*;

use crate::text::push_char;

verus! {

/// The character that stands for the six-bit value `n`:
/// `A`–`Z`, `a`–`z`, `0`–`9`, `+`, `/`.
pub open spec fn alphabet(n: nat) -> char {
    if n < 26 {
        ((65 + n) as u8) as char
    } else if n < 52 {
        ((97 + (n - 26)) as u8) as char
    } else if n < 62 {
        ((48 + (n - 52)) as u8) as char
    } else if n == 62 {
        '+'
    } else {
        '/'
    }
}

/// The four characters that encode a group of one, two or three bytes:
/// the 24 bits of the group (missing bytes count as zero) cut into four
/// six-bit values, where a missing second or third byte turns the third or
/// fourth character into `=`.
pub open spec fn encode_group(g: Seq<u8>) -> Seq<char> {
    let b0 = g[0] as nat;
    let b1 = if g.len() > 1 { g[1] as nat } else { 0 };
    let b2 = if g.len() > 2 { g[2] as nat } else { 0 };
    let bits = b0 * 65536 + b1 * 256 + b2;
    seq![
        alphabet(bits / 262144),
        alphabet((bits / 4096) % 64),
        if g.len() > 1 { alphabet((bits / 64) % 64) } else { '=' },
        if g.len() > 2 { alphabet(bits % 64) } else { '=' },
    ]
}

/// The base64 encoding of `bytes`: each group of three bytes, the last one
/// possibly shorter, in order.
pub open spec fn base64(bytes: Seq<u8>) -> Seq<char>
    decreases bytes.len(),
{
    if bytes.len() == 0 {
        Seq::empty()
    } else if bytes.len() <= 3 {
        encode_group(bytes)
    } else {
        encode_group(bytes.take(3)) + base64(bytes.skip(3))
    }
}

/// The character for the six-bit value `n`.
fn alphabet_char(n: u32) -> (c: char)
    requires
        n < 64,
    ensures
        c == alphabet(n as nat),
{
    if n < 26 {
        (65u8 + n as u8) as char
    } else if n < 52 {
        (97u8 + (n - 26) as u8) as char
    } else if n < 62 {
        (48u8 + (n - 52) as u8) as char
    } else if n == 62 {
        '+'
    } else {
        '/'
    }
}

/// Base64-encode `input` with the standard alphabet and `=` padding.
pub fn base64_encode(input: &[u8]) -> (r: String)
    ensures
        r@ == base64(input@),
{
    let mut out = String::new();
    let len = input.len();
    let mut i: usize = 0;
    assert(input@.skip(0) =~= input@);
    assert(out@ + base64(input@) =~= base64(input@));
    while i < len
        invariant
            len == input@.len(),
            i <= len,
            base64(input@) == out@ + base64(input@.skip(i as int)),
        decreases len - i,
    {
        let ghost rest = input@.skip(i as int);
        let ghost before = out@;
        let n = len - i;
        let b0 = input[i] as u32;
        let b1 = if n > 1 {
            input[i + 1] as u32
        } else {
            0
        };
        let b2 = if n > 2 {
            input[i + 2] as u32
        } else {
            0
        };
        let bits = b0 * 65536 + b1 * 256 + b2;
        let c0 = alphabet_char(bits / 262144);
        let c1 = alphabet_char((bits / 4096) % 64);
        let c2 = if n > 1 {
            alphabet_char((bits / 64) % 64)
        } else {
            '='
        };
        let c3 = if n > 2 {
            alphabet_char(bits % 64)
        } else {
            '='
        };
        push_char(&mut out, c0);
        push_char(&mut out, c1);
        push_char(&mut out, c2);
        push_char(&mut out, c3);
        let next = if n <= 3 {
            len
        } else {
            i + 3
        };
        proof {
            let g = if n <= 3 { rest } else { rest.take(3) };
            assert(g[0] == input@[i as int]);
            assert(g.len() > 1 ==> g[1] == input@[i + 1]);
            assert(g.len() > 2 ==> g[2] == input@[i + 2]);
            assert(out@ == before + encode_group(g));
            if n <= 3 {
                assert(input@.skip(next as int) =~= Seq::<u8>::empty());
            } else {
                assert(rest.skip(3) =~= input@.skip(next as int));
            }
            assert(base64(rest) == encode_group(g) + base64(input@.skip(next as int)));
        }
        i = next;
    }
    assert(input@.skip(len as int) =~= Seq::<u8>::empty());
    out
}

/// The encoding has four characters for every started group of three bytes.
pub proof fn lemma_base64_len(bytes: Seq<u8>)
    ensures
        base64(bytes).len() == 4 * ((bytes.len() + 2) / 3),
    decreases bytes.len(),
{
    if bytes.len() > 3 {
        lemma_base64_len(bytes.skip(3));
    }
}

/// The six-bit value a character of the alphabet stands for (`/` and any
/// character outside the alphabet give 63).
pub open spec fn sextet(c: char) -> nat {
    let n = c as nat;
    if 65 <= n <= 90 {
        (n - 65) as nat
    } else if 97 <= n <= 122 {
        (n - 71) as nat
    } else if 48 <= n <= 57 {
        (n + 4) as nat
    } else if c == '+' {
        62
    } else {
        63
    }
}

/// The bytes encoded by a group of four characters: one byte when the third
/// character is `=`, two when only the fourth is, three otherwise; padding
/// characters count as zero bits.
pub open spec fn decode_group(q: Seq<char>) -> Seq<u8> {
    let s2 = if q[2] == '=' { 0 } else { sextet(q[2]) };
    let s3 = if q[3] == '=' { 0 } else { sextet(q[3]) };
    let bits = sextet(q[0]) * 262144 + sextet(q[1]) * 4096 + s2 * 64 + s3;
    let bytes = seq![(bits / 65536) as u8, ((bits / 256) % 256) as u8, (bits % 256) as u8];
    if q[2] == '=' {
        bytes.take(1)
    } else if q[3] == '=' {
        bytes.take(2)
    } else {
        bytes
    }
}

/// Base64 decoding: each group of four characters in order; an incomplete
/// trailing group is ignored.
pub open spec fn base64_decode(text: Seq<char>) -> Seq<u8>
    decreases text.len(),
{
    if text.len() < 4 {
        Seq::empty()
    } else {
        decode_group(text.take(4)) + base64_decode(text.skip(4))
    }
}

/// Each six-bit value reads back from its character.
proof fn lemma_sextet_alphabet(n: nat)
    requires
        n < 64,
    ensures
        sextet(alphabet(n)) == n,
        alphabet(n) != '=',
{
}

/// Cutting three bytes into four six-bit values and joining them again
/// gives the bytes back; a missing third byte leaves the last six-bit value
/// zero, missing second and third bytes the last two.
#[verifier::spinoff_prover]
proof fn lemma_group_bits(b0: nat, b1: nat, b2: nat)
    requires
        b0 < 256,
        b1 < 256,
        b2 < 256,
    ensures
        ({
            let bits = b0 * 65536 + b1 * 256 + b2;
            &&& (bits / 262144) * 262144 + ((bits / 4096) % 64) * 4096 + ((bits / 64) % 64) * 64
                + bits % 64 == bits
            &&& bits / 262144 < 64
            &&& bits / 65536 == b0
            &&& (bits / 256) % 256 == b1
            &&& bits % 256 == b2
            &&& b2 == 0 ==> bits % 64 == 0
            &&& b1 == 0 && b2 == 0 ==> (bits / 64) % 64 == 0
        }),
{
    let bits = b0 * 65536 + b1 * 256 + b2;
    assert(bits / 65536 == b0 && (bits / 256) % 256 == b1 && bits % 256 == b2) by (nonlinear_arith)
        requires
            b0 < 256,
            b1 < 256,
            b2 < 256,
            bits == b0 * 65536 + b1 * 256 + b2,
    ;
    assert((bits / 262144) * 262144 + ((bits / 4096) % 64) * 4096 + ((bits / 64) % 64) * 64 + bits
        % 64 == bits) by (nonlinear_arith)
        requires
            0 <= bits,
    ;
    assert(bits / 262144 < 64) by (nonlinear_arith)
        requires
            bits == b0 * 65536 + b1 * 256 + b2,
            b0 < 256,
            b1 < 256,
            b2 < 256,
    ;
    assert(b2 == 0 ==> bits % 64 == 0) by (nonlinear_arith)
        requires
            bits == b0 * 65536 + b1 * 256 + b2,
    ;
    assert(b1 == 0 && b2 == 0 ==> (bits / 64) % 64 == 0) by (nonlinear_arith)
        requires
            bits == b0 * 65536 + b1 * 256 + b2,
    ;
}

/// Decoding the four characters of an encoded group gives the group back.
#[verifier::spinoff_prover]
proof fn lemma_group_roundtrip(g: Seq<u8>)
    requires
        1 <= g.len() <= 3,
    ensures
        decode_group(encode_group(g)) == g,
{
    let b0 = g[0] as nat;
    let b1: nat = if g.len() > 1 { g[1] as nat } else { 0 };
    let b2: nat = if g.len() > 2 { g[2] as nat } else { 0 };
    let bits: nat = b0 * 65536 + b1 * 256 + b2;
    lemma_group_bits(b0, b1, b2);
    let s0 = bits / 262144;
    let s1 = (bits / 4096) % 64;
    let s2 = (bits / 64) % 64;
    let s3 = bits % 64;
    lemma_sextet_alphabet(s0);
    lemma_sextet_alphabet(s1);
    lemma_sextet_alphabet(s2);
    lemma_sextet_alphabet(s3);
    let q = encode_group(g);
    assert(sextet(q[0]) == s0 && sextet(q[1]) == s1);
    assert(q[2] == '=' <==> g.len() == 1);
    assert(q[3] == '=' <==> g.len() <= 2);
    let d2 = if q[2] == '=' { 0 } else { sextet(q[2]) };
    let d3 = if q[3] == '=' { 0 } else { sextet(q[3]) };
    assert(d2 == s2 && d3 == s3);
    assert(s0 * 262144 + s1 * 4096 + d2 * 64 + d3 == bits);
    assert(decode_group(q) =~= g);
}

/// Decoding a group of four characters followed by more text decodes the
/// group and then the rest.
proof fn lemma_decode_prepend(q: Seq<char>, rest: Seq<char>)
    requires
        q.len() == 4,
    ensures
        base64_decode(q + rest) == decode_group(q) + base64_decode(rest),
{
    let t = q + rest;
    assert(t.take(4) =~= q);
    assert(t.skip(4) =~= rest);
}

/// Decoding the encoding of any bytes gives the bytes back.
pub proof fn lemma_base64_roundtrip(bytes: Seq<u8>)
    ensures
        base64_decode(base64(bytes)) == bytes,
    decreases bytes.len(),
{
    if bytes.len() == 0 {
    } else if bytes.len() <= 3 {
        let q = encode_group(bytes);
        lemma_group_roundtrip(bytes);
        lemma_decode_prepend(q, Seq::empty());
        assert(q + Seq::<char>::empty() =~= q);
        assert(decode_group(q) + Seq::<u8>::empty() =~= decode_group(q));
    } else {
        let head = bytes.take(3);
        let rest = bytes.skip(3);
        lemma_group_roundtrip(head);
        lemma_base64_roundtrip(rest);
        lemma_decode_prepend(encode_group(head), base64(rest));
        assert(head + rest =~= bytes);
    }
}

} // verus!
