//! The non-standard SHA-1 variant used for legacy account password
//! hashes: the input is zero-padded without a length field, words are read
//! and written little-endian, and the message schedule sets each expanded
//! word to a single bit chosen by the XOR of earlier words.
use vstd::prelude::*;
use vstd::string::*;

use crate::sha1::rotl;
use crate::sha1::round_consts;
use crate::sha1::sha1_iv;
use crate::sha1::state_word;

verus! {

/// The input zero-padded to a whole number of 64-byte blocks.
pub open spec fn xpad(m: Seq<u8>) -> Seq<u8> {
    m + Seq::new(((64 - (m.len() % 64)) % 64) as nat, |i: int| 0u8)
}

/// The little-endian 32-bit word at byte offset `base`.
pub open spec fn le_word(p: Seq<u8>, base: int) -> u32 {
    (p[base] as u32) | ((p[base + 1] as u32) << 8) | ((p[base + 2] as u32) << 16) | ((p[base
        + 3] as u32) << 24)
}

/// Message-schedule word `t` of block `b`: beyond the first sixteen words
/// it is the single bit selected by the XOR of four earlier words.
pub open spec fn xsched_word(p: Seq<u8>, b: int, t: int) -> u32
    decreases t,
{
    if t < 16 {
        le_word(p, 64 * b + 4 * t)
    } else {
        1u32 << (((xsched_word(p, b, t - 3) ^ xsched_word(p, b, t - 8) ^ xsched_word(p, b, t - 14)
            ^ xsched_word(p, b, t - 16)) % 32) as u32)
    }
}

/// One compression round applied to the working state.
pub open spec fn xround_step(p: Seq<u8>, blk: int, t: int, st: (u32, u32, u32, u32, u32)) -> (
    u32,
    u32,
    u32,
    u32,
    u32,
) {
    let fk = round_consts(t, st.1, st.2, st.3);
    let tmp = rotl(st.0, 5).wrapping_add(fk.0).wrapping_add(st.4).wrapping_add(fk.1).wrapping_add(
        xsched_word(p, blk, t),
    );
    (tmp, st.0, rotl(st.1, 30), st.2, st.3)
}

/// The working state after the first `t` rounds of block `blk`.
pub open spec fn xrounds(p: Seq<u8>, blk: int, t: int, init: (u32, u32, u32, u32, u32)) -> (
    u32,
    u32,
    u32,
    u32,
    u32,
)
    decreases t,
{
    if t <= 0 {
        init
    } else {
        xround_step(p, blk, t - 1, xrounds(p, blk, t - 1, init))
    }
}

/// The chaining state advanced over one block.
pub open spec fn xcompress(p: Seq<u8>, blk: int, h: (u32, u32, u32, u32, u32)) -> (
    u32,
    u32,
    u32,
    u32,
    u32,
) {
    let f = xrounds(p, blk, 80, h);
    (
        h.0.wrapping_add(f.0),
        h.1.wrapping_add(f.1),
        h.2.wrapping_add(f.2),
        h.3.wrapping_add(f.3),
        h.4.wrapping_add(f.4),
    )
}

/// The chaining state after the first `b` blocks of `p`.
pub open spec fn xstate_after(p: Seq<u8>, b: int) -> (u32, u32, u32, u32, u32)
    decreases b,
{
    if b <= 0 {
        sha1_iv()
    } else {
        xcompress(p, b - 1, xstate_after(p, b - 1))
    }
}

/// The variant digest of `m`: twenty bytes, little-endian per state word.
pub open spec fn spec_xsha1(m: Seq<u8>) -> Seq<u8> {
    let p = xpad(m);
    let h = xstate_after(p, p.len() as int / 64);
    Seq::new(20, |i: int| (state_word(h, i / 4) >> ((8 * (i % 4)) as u32)) as u8)
}

proof fn lemma_xpad_multiple(len: nat)
    ensures
        (len + (64 - (len % 64)) % 64) % 64 == 0,
{
    vstd::arithmetic::div_mod::lemma_fundamental_div_mod(len as int, 64);
    let q = len as int / 64;
    let r = len as int % 64;
    if r == 0 {
        assert((64 * q) % 64 == 0) by (nonlinear_arith);
    } else {
        assert(len + (64 - r) == 64 * (q + 1));
        assert((64 * (q + 1)) % 64 == 0) by (nonlinear_arith);
    }
}

/// Computes the variant digest of `data`.
pub fn xsha1(data: &Vec<u8>) -> (r: Vec<u8>)
    ensures
        r@ == spec_xsha1(data@),
        r@.len() == 20,
{
    // Build the zero-padded message.
    let mut p: Vec<u8> = Vec::new();
    let mut ci: usize = 0;
    while ci < data.len()
        invariant
            ci <= data@.len(),
            p@ == data@.take(ci as int),
        decreases data@.len() - ci,
    {
        p.push(data[ci]);
        proof {
            assert(data@.take(ci + 1) =~= data@.take(ci as int).push(data@[ci as int]));
        }
        ci += 1;
    }
    assert(p@ =~= data@);
    let r64 = data.len() % 64;
    let zeros: usize = if r64 == 0 {
        0
    } else {
        64 - r64
    };
    assert(zeros == ((64 - (data@.len() % 64)) % 64) as nat);
    assert(p@ =~= data@ + Seq::new(0nat, |i: int| 0u8));
    let mut zi: usize = 0;
    while zi < zeros
        invariant
            zi <= zeros,
            zeros == ((64 - (data@.len() % 64)) % 64) as nat,
            p@ == data@ + Seq::new(zi as nat, |i: int| 0u8),
        decreases zeros - zi,
    {
        p.push(0);
        proof {
            assert(Seq::new((zi + 1) as nat, |i: int| 0u8) =~= Seq::new(
                zi as nat,
                |i: int| 0u8,
            ).push(0u8));
            assert(data@ + Seq::new((zi + 1) as nat, |i: int| 0u8) =~= (data@ + Seq::new(
                zi as nat,
                |i: int| 0u8,
            )).push(0u8));
        }
        zi += 1;
    }
    assert(p@ == xpad(data@));
    proof {
        lemma_xpad_multiple(data@.len());
    }
    assert(p@.len() % 64 == 0);
    // Compress each 64-byte block.
    let mut h0: u32 = 0x67452301;
    let mut h1: u32 = 0xEFCDAB89;
    let mut h2: u32 = 0x98BADCFE;
    let mut h3: u32 = 0x10325476;
    let mut h4: u32 = 0xC3D2E1F0;
    let mut off: usize = 0;
    let ghost mut blk: int = 0int;
    while off < p.len()
        invariant
            p@ == xpad(data@),
            p@.len() % 64 == 0,
            0 <= blk,
            off == 64 * blk,
            off <= p@.len(),
            (h0, h1, h2, h3, h4) == xstate_after(p@, blk),
        decreases p@.len() - off,
    {
        proof {
            vstd::arithmetic::div_mod::lemma_fundamental_div_mod(p@.len() as int, 64);
            assert(p@.len() == 64 * (p@.len() as int / 64));
        }
        assert(off + 64 <= p@.len());
        let mut w: Vec<u32> = Vec::new();
        let mut t: usize = 0;
        while t < 16
            invariant
                t <= 16,
                off + 64 <= p@.len(),
                off == 64 * blk,
                w@.len() == t,
                forall|i: int| 0 <= i < t ==> w@[i] == xsched_word(p@, blk, i),
            decreases 16 - t,
        {
            let base = off + 4 * t;
            let word: u32 = (p[base] as u32) | ((p[base + 1] as u32) << 8) | ((p[base
                + 2] as u32) << 16) | ((p[base + 3] as u32) << 24);
            assert(word == xsched_word(p@, blk, t as int));
            w.push(word);
            t += 1;
        }
        while t < 80
            invariant
                16 <= t <= 80,
                off + 64 <= p@.len(),
                off == 64 * blk,
                w@.len() == t,
                forall|i: int| 0 <= i < t ==> w@[i] == xsched_word(p@, blk, i),
            decreases 80 - t,
        {
            let x = w[t - 3] ^ w[t - 8] ^ w[t - 14] ^ w[t - 16];
            let word: u32 = 1u32 << (x % 32);
            assert(word == xsched_word(p@, blk, t as int));
            w.push(word);
            t += 1;
        }
        let mut a = h0;
        let mut b = h1;
        let mut c = h2;
        let mut d = h3;
        let mut e = h4;
        let mut rt: usize = 0;
        while rt < 80
            invariant
                rt <= 80,
                off + 64 <= p@.len(),
                off == 64 * blk,
                w@.len() == 80,
                forall|i: int| 0 <= i < 80 ==> w@[i] == xsched_word(p@, blk, i),
                (h0, h1, h2, h3, h4) == xstate_after(p@, blk),
                (a, b, c, d, e) == xrounds(p@, blk, rt as int, (h0, h1, h2, h3, h4)),
            decreases 80 - rt,
        {
            let fk: (u32, u32) = if rt < 20 {
                ((b & c) | ((!b) & d), 0x5A827999)
            } else if rt < 40 {
                (b ^ c ^ d, 0x6ED9EBA1)
            } else if rt < 60 {
                ((b & c) | (b & d) | (c & d), 0x8F1BBCDC)
            } else {
                (b ^ c ^ d, 0xCA62C1D6)
            };
            let tmp: u32 = ((a << 5u32) | (a >> 27u32)).wrapping_add(fk.0).wrapping_add(
                e,
            ).wrapping_add(fk.1).wrapping_add(w[rt]);
            e = d;
            d = c;
            c = (b << 30u32) | (b >> 2u32);
            b = a;
            a = tmp;
            rt += 1;
            assert((a, b, c, d, e) == xrounds(p@, blk, rt as int, (h0, h1, h2, h3, h4)));
        }
        h0 = h0.wrapping_add(a);
        h1 = h1.wrapping_add(b);
        h2 = h2.wrapping_add(c);
        h3 = h3.wrapping_add(d);
        h4 = h4.wrapping_add(e);
        off += 64;
        proof {
            blk = blk + 1;
        }
        assert((h0, h1, h2, h3, h4) == xstate_after(p@, blk));
    }
    proof {
        vstd::arithmetic::div_mod::lemma_fundamental_div_mod(p@.len() as int, 64);
        assert(p@.len() == 64 * (p@.len() as int / 64));
        assert(p@.len() as int / 64 == blk);
    }
    let ghost hfin = xstate_after(p@, p@.len() as int / 64);
    assert((h0, h1, h2, h3, h4) == hfin);
    // Serialize the digest.
    let mut out: Vec<u8> = Vec::new();
    let mut i: usize = 0;
    while i < 20
        invariant
            i <= 20,
            out@.len() == i,
            (h0, h1, h2, h3, h4) == hfin,
            forall|j: int|
                0 <= j < i ==> out@[j] == (state_word(hfin, j / 4) >> ((8 * (j % 4)) as u32)) as u8,
        decreases 20 - i,
    {
        let word: u32 = if i < 4 {
            h0
        } else if i < 8 {
            h1
        } else if i < 12 {
            h2
        } else if i < 16 {
            h3
        } else {
            h4
        };
        assert(word == state_word(hfin, i as int / 4));
        let sh: u32 = 8 * (i as u32 % 4);
        out.push((word >> sh) as u8);
        i += 1;
    }
    assert(out@ =~= spec_xsha1(data@));
    out
}

/// Hashes an account password with the variant digest, as the legacy
/// account system expects.
pub fn pvpgn_password_hash(password: String) -> (r: Vec<u8>)
    ensures
        r@ == spec_xsha1(vstd::utf8::encode_utf8(password@)),
        r@.len() == 20,
{
    let bytes = password.as_str().as_bytes_vec();
    xsha1(&bytes)
}

} // verus!
