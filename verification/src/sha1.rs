//! The SHA-1 digest, used to hash the token buffer of a decoded product
//! key.
use vstd::prelude::*;

verus! {

/// Left rotation of a 32-bit word by `n` bits.
pub open spec fn rotl(x: u32, n: u32) -> u32
    recommends
        0 < n < 32,
{
    (x << n) | (x >> ((32 - n) as u32))
}

/// Number of zero bytes inserted between the 0x80 marker and the length.
pub open spec fn pad_zero_count(len: nat) -> nat {
    let r = (len + 1) % 64;
    if r <= 56 {
        (56 - r) as nat
    } else {
        (120 - r) as nat
    }
}

/// Big-endian byte `i` (0 = most significant) of the message bit length.
pub open spec fn length_byte(len: nat, i: int) -> u8 {
    (((len * 8) as u64) >> ((8 * (7 - i)) as u64)) as u8
}

/// The padded message: data, a 0x80 marker, zeros up to 56 modulo 64,
/// then the bit length as eight big-endian bytes.
pub open spec fn sha1_padded(m: Seq<u8>) -> Seq<u8> {
    m.push(0x80u8) + Seq::new(pad_zero_count(m.len()), |i: int| 0u8) + Seq::new(
        8,
        |i: int| length_byte(m.len(), i),
    )
}

/// The big-endian 32-bit word at byte offset `base`.
pub open spec fn be_word(p: Seq<u8>, base: int) -> u32 {
    ((p[base] as u32) << 24) | ((p[base + 1] as u32) << 16) | ((p[base + 2] as u32) << 8) | (p[base
        + 3] as u32)
}

/// Message-schedule word `t` of block `b` of the padded message `p`.
pub open spec fn sched_word(p: Seq<u8>, b: int, t: int) -> u32
    decreases t,
{
    if t < 16 {
        be_word(p, 64 * b + 4 * t)
    } else {
        rotl(
            sched_word(p, b, t - 3) ^ sched_word(p, b, t - 8) ^ sched_word(p, b, t - 14)
                ^ sched_word(p, b, t - 16),
            1,
        )
    }
}

/// Round function and round constant for round `t`.
pub open spec fn round_consts(t: int, b: u32, c: u32, d: u32) -> (u32, u32) {
    if t < 20 {
        ((b & c) | ((!b) & d), 0x5A827999u32)
    } else if t < 40 {
        (b ^ c ^ d, 0x6ED9EBA1u32)
    } else if t < 60 {
        ((b & c) | (b & d) | (c & d), 0x8F1BBCDCu32)
    } else {
        (b ^ c ^ d, 0xCA62C1D6u32)
    }
}

/// One compression round applied to the working state.
pub open spec fn round_step(p: Seq<u8>, blk: int, t: int, st: (u32, u32, u32, u32, u32)) -> (
    u32,
    u32,
    u32,
    u32,
    u32,
) {
    let fk = round_consts(t, st.1, st.2, st.3);
    let tmp = rotl(st.0, 5).wrapping_add(fk.0).wrapping_add(st.4).wrapping_add(fk.1).wrapping_add(
        sched_word(p, blk, t),
    );
    (tmp, st.0, rotl(st.1, 30), st.2, st.3)
}

/// The working state after the first `t` rounds of block `blk`.
pub open spec fn rounds(p: Seq<u8>, blk: int, t: int, init: (u32, u32, u32, u32, u32)) -> (
    u32,
    u32,
    u32,
    u32,
    u32,
)
    decreases t,
{
    if t <= 0 {
        init
    } else {
        round_step(p, blk, t - 1, rounds(p, blk, t - 1, init))
    }
}

/// The initial chaining state.
pub open spec fn sha1_iv() -> (u32, u32, u32, u32, u32) {
    (0x67452301u32, 0xEFCDAB89u32, 0x98BADCFEu32, 0x10325476u32, 0xC3D2E1F0u32)
}

/// The chaining state advanced over one block.
pub open spec fn compress(p: Seq<u8>, blk: int, h: (u32, u32, u32, u32, u32)) -> (
    u32,
    u32,
    u32,
    u32,
    u32,
) {
    let f = rounds(p, blk, 80, h);
    (
        h.0.wrapping_add(f.0),
        h.1.wrapping_add(f.1),
        h.2.wrapping_add(f.2),
        h.3.wrapping_add(f.3),
        h.4.wrapping_add(f.4),
    )
}

/// The chaining state after the first `b` blocks of `p`.
pub open spec fn state_after(p: Seq<u8>, b: int) -> (u32, u32, u32, u32, u32)
    decreases b,
{
    if b <= 0 {
        sha1_iv()
    } else {
        compress(p, b - 1, state_after(p, b - 1))
    }
}

/// Word `k` of a chaining state.
pub open spec fn state_word(h: (u32, u32, u32, u32, u32), k: int) -> u32 {
    if k == 0 {
        h.0
    } else if k == 1 {
        h.1
    } else if k == 2 {
        h.2
    } else if k == 3 {
        h.3
    } else {
        h.4
    }
}

/// The SHA-1 digest of `m`: twenty bytes, big-endian per state word.
pub open spec fn spec_sha1(m: Seq<u8>) -> Seq<u8> {
    let p = sha1_padded(m);
    let h = state_after(p, p.len() as int / 64);
    Seq::new(20, |i: int| (state_word(h, i / 4) >> ((8 * (3 - (i % 4))) as u32)) as u8)
}

proof fn lemma_padded_len_multiple(len: nat)
    ensures
        (len + 1 + pad_zero_count(len) + 8) % 64 == 0,
{
    let x = (len + 1) as int;
    vstd::arithmetic::div_mod::lemma_fundamental_div_mod(x, 64);
    let q = x / 64;
    let r = x % 64;
    if r <= 56 {
        assert(x + (56 - r) + 8 == 64 * (q + 1));
        assert((64 * (q + 1)) % 64 == 0) by (nonlinear_arith);
    } else {
        assert(x + (120 - r) + 8 == 64 * (q + 2));
        assert((64 * (q + 2)) % 64 == 0) by (nonlinear_arith);
    }
}

/// Computes the SHA-1 digest of `data`.
pub fn sha1(data: &Vec<u8>) -> (r: Vec<u8>)
    requires
        data@.len() < 0x2000000000000000,
        data@.len() + 136 <= usize::MAX,
    ensures
        r@ == spec_sha1(data@),
        r@.len() == 20,
{
    // Build the padded message.
    let mut p: Vec<u8> = Vec::new();
    let mut ci: usize = 0;
    while ci < data.len()
        invariant
            ci <= data@.len(),
            p@ == data@.take(ci as int),
        decreases data@.len() - ci,
    {
        p.push(data[ci]);
        proof {
            assert(data@.take(ci + 1) =~= data@.take(ci as int).push(data@[ci as int]));
        }
        ci += 1;
    }
    assert(p@ =~= data@);
    p.push(0x80);
    let r64 = (data.len() + 1) % 64;
    let zeros: usize = if r64 <= 56 {
        56 - r64
    } else {
        120 - r64
    };
    assert(zeros == pad_zero_count(data@.len()));
    assert(p@ =~= data@.push(0x80u8) + Seq::new(0nat, |i: int| 0u8));
    let mut zi: usize = 0;
    while zi < zeros
        invariant
            zi <= zeros,
            zeros == pad_zero_count(data@.len()),
            data@.len() < 0x2000000000000000,
            p@ == data@.push(0x80u8) + Seq::new(zi as nat, |i: int| 0u8),
        decreases zeros - zi,
    {
        p.push(0);
        proof {
            assert(Seq::new((zi + 1) as nat, |i: int| 0u8) =~= Seq::new(
                zi as nat,
                |i: int| 0u8,
            ).push(0u8));
            assert(data@.push(0x80u8) + Seq::new((zi + 1) as nat, |i: int| 0u8) =~= (data@.push(
                0x80u8,
            ) + Seq::new(zi as nat, |i: int| 0u8)).push(0u8));
        }
        zi += 1;
    }
    let bitlen: u64 = (data.len() as u64) * 8;
    let ghost mid = data@.push(0x80u8) + Seq::new(pad_zero_count(data@.len()), |i: int| 0u8);
    let mut li: usize = 0;
    while li < 8
        invariant
            li <= 8,
            data@.len() < 0x2000000000000000,
            bitlen == (data@.len() * 8) as u64,
            mid == data@.push(0x80u8) + Seq::new(pad_zero_count(data@.len()), |i: int| 0u8),
            p@ == mid + Seq::new(li as nat, |i: int| length_byte(data@.len(), i)),
        decreases 8 - li,
    {
        let sh: u64 = 8 * (7 - li as u64);
        let byte: u8 = (bitlen >> sh) as u8;
        assert(byte == length_byte(data@.len(), li as int));
        p.push(byte);
        proof {
            assert(Seq::new((li + 1) as nat, |i: int| length_byte(data@.len(), i)) =~= Seq::new(
                li as nat,
                |i: int| length_byte(data@.len(), i),
            ).push(length_byte(data@.len(), li as int)));
            assert(mid + Seq::new((li + 1) as nat, |i: int| length_byte(data@.len(), i)) =~= (mid
                + Seq::new(li as nat, |i: int| length_byte(data@.len(), i))).push(
                length_byte(data@.len(), li as int),
            ));
        }
        li += 1;
    }
    assert(p@ == sha1_padded(data@));
    proof {
        lemma_padded_len_multiple(data@.len());
    }
    assert(p@.len() % 64 == 0);
    // Compress each 64-byte block.
    let mut h0: u32 = 0x67452301;
    let mut h1: u32 = 0xEFCDAB89;
    let mut h2: u32 = 0x98BADCFE;
    let mut h3: u32 = 0x10325476;
    let mut h4: u32 = 0xC3D2E1F0;
    let mut off: usize = 0;
    let ghost mut blk: int = 0int;
    while off + 64 <= p.len()
        invariant
            p@ == sha1_padded(data@),
            p@.len() % 64 == 0,
            data@.len() + 136 <= usize::MAX,
            p@.len() <= data@.len() + 72,
            0 <= blk,
            off == 64 * blk,
            off <= p@.len(),
            (h0, h1, h2, h3, h4) == state_after(p@, blk),
        decreases p@.len() - off,
    {
        let mut w: Vec<u32> = Vec::new();
        let mut t: usize = 0;
        while t < 16
            invariant
                t <= 16,
                off + 64 <= p@.len(),
                off == 64 * blk,
                w@.len() == t,
                forall|i: int| 0 <= i < t ==> w@[i] == sched_word(p@, blk, i),
            decreases 16 - t,
        {
            let base = off + 4 * t;
            let word: u32 = ((p[base] as u32) << 24) | ((p[base + 1] as u32) << 16) | ((p[base
                + 2] as u32) << 8) | (p[base + 3] as u32);
            assert(word == sched_word(p@, blk, t as int));
            w.push(word);
            t += 1;
        }
        while t < 80
            invariant
                16 <= t <= 80,
                off + 64 <= p@.len(),
                off == 64 * blk,
                w@.len() == t,
                forall|i: int| 0 <= i < t ==> w@[i] == sched_word(p@, blk, i),
            decreases 80 - t,
        {
            let x = w[t - 3] ^ w[t - 8] ^ w[t - 14] ^ w[t - 16];
            let word: u32 = (x << 1u32) | (x >> 31u32);
            assert(word == sched_word(p@, blk, t as int));
            w.push(word);
            t += 1;
        }
        let mut a = h0;
        let mut b = h1;
        let mut c = h2;
        let mut d = h3;
        let mut e = h4;
        let mut rt: usize = 0;
        while rt < 80
            invariant
                rt <= 80,
                off + 64 <= p@.len(),
                off == 64 * blk,
                w@.len() == 80,
                forall|i: int| 0 <= i < 80 ==> w@[i] == sched_word(p@, blk, i),
                (h0, h1, h2, h3, h4) == state_after(p@, blk),
                (a, b, c, d, e) == rounds(p@, blk, rt as int, (h0, h1, h2, h3, h4)),
            decreases 80 - rt,
        {
            let fk: (u32, u32) = if rt < 20 {
                ((b & c) | ((!b) & d), 0x5A827999)
            } else if rt < 40 {
                (b ^ c ^ d, 0x6ED9EBA1)
            } else if rt < 60 {
                ((b & c) | (b & d) | (c & d), 0x8F1BBCDC)
            } else {
                (b ^ c ^ d, 0xCA62C1D6)
            };
            let tmp: u32 = ((a << 5u32) | (a >> 27u32)).wrapping_add(fk.0).wrapping_add(
                e,
            ).wrapping_add(fk.1).wrapping_add(w[rt]);
            e = d;
            d = c;
            c = (b << 30u32) | (b >> 2u32);
            b = a;
            a = tmp;
            rt += 1;
            assert((a, b, c, d, e) == rounds(p@, blk, rt as int, (h0, h1, h2, h3, h4)));
        }
        h0 = h0.wrapping_add(a);
        h1 = h1.wrapping_add(b);
        h2 = h2.wrapping_add(c);
        h3 = h3.wrapping_add(d);
        h4 = h4.wrapping_add(e);
        off += 64;
        proof {
            blk = blk + 1;
        }
        assert((h0, h1, h2, h3, h4) == state_after(p@, blk));
    }
    proof {
        vstd::arithmetic::div_mod::lemma_fundamental_div_mod(p@.len() as int, 64);
        assert(p@.len() == 64 * (p@.len() as int / 64));
        assert(p@.len() as int / 64 == blk);
    }
    let ghost hfin = state_after(p@, p@.len() as int / 64);
    assert((h0, h1, h2, h3, h4) == hfin);
    // Serialize the digest.
    let mut out: Vec<u8> = Vec::new();
    let mut i: usize = 0;
    while i < 20
        invariant
            i <= 20,
            out@.len() == i,
            (h0, h1, h2, h3, h4) == hfin,
            forall|j: int|
                0 <= j < i ==> out@[j] == (state_word(hfin, j / 4) >> ((8 * (3 - (j % 4))) as u32))
                    as u8,
        decreases 20 - i,
    {
        let word: u32 = if i < 4 {
            h0
        } else if i < 8 {
            h1
        } else if i < 12 {
            h2
        } else if i < 16 {
            h3
        } else {
            h4
        };
        assert(word == state_word(hfin, i as int / 4));
        let sh: u32 = 8 * (3 - (i as u32 % 4));
        out.push((word >> sh) as u8);
        i += 1;
    }
    assert(out@ =~= spec_sha1(data@));
    out
}

} // verus!
