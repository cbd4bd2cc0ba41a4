//! Product-key decoding and key-info encoding.  A 26-character key is
//! scattered into a table of base-5 digits, accumulated into a 120-bit
//! value, bit-shuffled, and split into a product identifier, a public
//! value and an 80-bit private value; the key hash is the SHA-1 digest of
//! the token buffer built from those fields.
use vstd::prelude::*;
use vstd::string::*;

use crate::sha1::spec_sha1;
use crate::sha1::sha1;
use crate::AuthError;

verus! {

/// The length every supported product key must have.
pub const KEY_LENGTH: usize = 26;

/// The alphabet value of one key character; characters outside the key
/// alphabet count as zero.
pub open spec fn key_char_value(c: char) -> u8 {
    if c == '2' {
        1u8
    } else if c == '4' {
        2u8
    } else if c == '6' {
        3u8
    } else if c == '7' {
        4u8
    } else if c == '8' {
        5u8
    } else if c == '9' {
        6u8
    } else if c == 'B' || c == 'b' {
        7u8
    } else if c == 'C' || c == 'c' {
        8u8
    } else if c == 'D' || c == 'd' {
        9u8
    } else if c == 'E' || c == 'e' {
        10u8
    } else if c == 'F' || c == 'f' {
        11u8
    } else if c == 'G' || c == 'g' {
        12u8
    } else if c == 'H' || c == 'h' {
        13u8
    } else if c == 'J' || c == 'j' {
        14u8
    } else if c == 'K' || c == 'k' {
        15u8
    } else if c == 'M' || c == 'm' {
        16u8
    } else if c == 'N' || c == 'n' {
        17u8
    } else if c == 'P' || c == 'p' {
        18u8
    } else if c == 'Q' || c == 'q' {
        19u8
    } else if c == 'R' || c == 'r' {
        20u8
    } else if c == 'T' || c == 't' {
        21u8
    } else if c == 'V' || c == 'v' {
        22u8
    } else if c == 'W' || c == 'w' {
        23u8
    } else if c == 'X' || c == 'x' {
        24u8
    } else if c == 'Y' || c == 'y' {
        25u8
    } else if c == 'Z' || c == 'z' {
        26u8
    } else {
        0u8
    }
}

/// The digit table after the first `i` key characters have been
/// scattered: each character leaves its value split base-5 at two
/// stepping positions.
pub open spec fn scatter(key: Seq<char>, i: int) -> (int, int, Seq<u8>)
    decreases i,
{
    if i <= 0 {
        (0int, 0x21int, Seq::new(52, |j: int| 0u8))
    } else {
        let prev = scatter(key, i - 1);
        let v = key_char_value(key[i - 1]);
        let na = (prev.1 + 0x07B5) % 52;
        let nb = (na + 0x07B5) % 52;
        (na, nb, prev.2.update(na, v / 5).update(nb, v % 5))
    }
}

/// Multiplies the 128-bit little-endian word group by five and adds one
/// digit.
pub open spec fn mult5_digit(ws: (u32, u32, u32, u32), d: u8) -> (u32, u32, u32, u32) {
    let t0 = ((ws.0 as u64) * 5 + d) as u64;
    let t1 = ((ws.1 as u64) * 5 + (t0 >> 32u64)) as u64;
    let t2 = ((ws.2 as u64) * 5 + (t1 >> 32u64)) as u64;
    let t3 = ((ws.3 as u64) * 5 + (t2 >> 32u64)) as u64;
    (t0 as u32, t1 as u32, t2 as u32, t3 as u32)
}

/// The word group after the first `i` digits, most significant first
/// (digit table read from the end).
pub open spec fn accum(table: Seq<u8>, i: int) -> (u32, u32, u32, u32)
    decreases i,
{
    if i <= 0 {
        (0u32, 0u32, 0u32, 0u32)
    } else {
        mult5_digit(accum(table, i - 1), table[52 - i])
    }
}

/// Word `k` of a word group.
pub open spec fn wsel(ws: (u32, u32, u32, u32), k: int) -> u32 {
    if k == 0 {
        ws.0
    } else if k == 1 {
        ws.1
    } else if k == 2 {
        ws.2
    } else {
        ws.3
    }
}

/// Bit `j` of a word group.
pub open spec fn bit_of(ws: (u32, u32, u32, u32), j: int) -> bool {
    (wsel(ws, j / 32) >> ((j % 32) as u32)) & 1 == 1
}

/// The word group with bit `j` set.
pub open spec fn set_bit(ws: (u32, u32, u32, u32), j: int) -> (u32, u32, u32, u32) {
    let w = wsel(ws, j / 32) | (1u32 << ((j % 32) as u32));
    if j / 32 == 0 {
        (w, ws.1, ws.2, ws.3)
    } else if j / 32 == 1 {
        (ws.0, w, ws.2, ws.3)
    } else if j / 32 == 2 {
        (ws.0, ws.1, w, ws.3)
    } else {
        (ws.0, ws.1, ws.2, w)
    }
}

/// The first `j` bits of the shuffled value: output bit `j` takes input
/// bit `(j * 11) mod 120`.
pub open spec fn shuffle_acc(ws: (u32, u32, u32, u32), j: int) -> (u32, u32, u32, u32)
    decreases j,
{
    if j <= 0 {
        (0u32, 0u32, 0u32, 0u32)
    } else {
        let prev = shuffle_acc(ws, j - 1);
        if bit_of(ws, ((j - 1) * 11) % 120) {
            set_bit(prev, j - 1)
        } else {
            prev
        }
    }
}

/// The four little-endian bytes of a 32-bit value.
pub open spec fn le_bytes(x: u32) -> Seq<u8> {
    Seq::new(4, |i: int| (x >> ((8 * i) as u32)) as u8)
}

/// The four big-endian bytes of a 32-bit value.
pub open spec fn be_bytes(x: u32) -> Seq<u8> {
    Seq::new(4, |i: int| (x >> ((8 * (3 - i)) as u32)) as u8)
}

/// The shuffled 120-bit value of a key.
pub open spec fn key_value(key: Seq<char>) -> (u32, u32, u32, u32) {
    shuffle_acc(accum(scatter(key, 26).2, 52), 120)
}

/// The product identifier of a key: the top fourteen bits.
pub open spec fn spec_product(key: Seq<char>) -> u32 {
    (key_value(key).3 >> 10u32) & 0x3FFF
}

/// The public value of a key: the twenty-six bits below the product.
pub open spec fn spec_public_value(key: Seq<char>) -> u32 {
    (key_value(key).2 >> 16u32) | ((key_value(key).3 & 0x3FF) << 16u32)
}

/// The private value of a key: the low eighty bits, as ten little-endian
/// bytes.
pub open spec fn spec_private_bytes(key: Seq<char>) -> Seq<u8> {
    Seq::new(10, |i: int| (wsel(key_value(key), i / 4) >> ((8 * (i % 4)) as u32)) as u8)
}

/// The token buffer hashed into the key hash: client token, server
/// token, product and public value as little-endian words, then the
/// private value.
pub open spec fn spec_hash_input(key: Seq<char>, client_token: u32, server_token: u32) -> Seq<
    u8,
> {
    le_bytes(client_token) + le_bytes(server_token) + le_bytes(spec_product(key)) + le_bytes(
        spec_public_value(key),
    ) + spec_private_bytes(key)
}

/// The decoded fields of a key: public value, product identifier, and
/// the twenty-byte key hash.
pub open spec fn spec_decode(key: Seq<char>, client_token: u32, server_token: u32) -> (
    u32,
    u32,
    Seq<u8>,
) {
    (
        spec_public_value(key),
        spec_product(key),
        spec_sha1(spec_hash_input(key, client_token, server_token)),
    )
}

/// The 36-byte key-info record of a key: big-endian key length, product,
/// public value, four reserved zero bytes, then the key hash.
pub open spec fn spec_key_info(key: Seq<char>, client_token: u32, server_token: u32) -> Seq<u8> {
    be_bytes(26) + be_bytes(spec_product(key)) + be_bytes(spec_public_value(key)) + seq![
        0u8,
        0u8,
        0u8,
        0u8,
    ] + spec_sha1(spec_hash_input(key, client_token, server_token))
}

fn key_char_value_exec(c: char) -> (r: u8)
    ensures
        r == key_char_value(c),
{
    if c == '2' {
        1
    } else if c == '4' {
        2
    } else if c == '6' {
        3
    } else if c == '7' {
        4
    } else if c == '8' {
        5
    } else if c == '9' {
        6
    } else if c == 'B' || c == 'b' {
        7
    } else if c == 'C' || c == 'c' {
        8
    } else if c == 'D' || c == 'd' {
        9
    } else if c == 'E' || c == 'e' {
        10
    } else if c == 'F' || c == 'f' {
        11
    } else if c == 'G' || c == 'g' {
        12
    } else if c == 'H' || c == 'h' {
        13
    } else if c == 'J' || c == 'j' {
        14
    } else if c == 'K' || c == 'k' {
        15
    } else if c == 'M' || c == 'm' {
        16
    } else if c == 'N' || c == 'n' {
        17
    } else if c == 'P' || c == 'p' {
        18
    } else if c == 'Q' || c == 'q' {
        19
    } else if c == 'R' || c == 'r' {
        20
    } else if c == 'T' || c == 't' {
        21
    } else if c == 'V' || c == 'v' {
        22
    } else if c == 'W' || c == 'w' {
        23
    } else if c == 'X' || c == 'x' {
        24
    } else if c == 'Y' || c == 'y' {
        25
    } else if c == 'Z' || c == 'z' {
        26
    } else {
        0
    }
}

/// Appends the four little-endian bytes of `x`.
fn push_le32(v: &mut Vec<u8>, x: u32)
    ensures
        final(v)@ == old(v)@ + le_bytes(x),
{
    v.push(x as u8);
    v.push((x >> 8u32) as u8);
    v.push((x >> 16u32) as u8);
    v.push((x >> 24u32) as u8);
    assert(x >> 0u32 == x) by (bit_vector);
    assert(final(v)@ =~= old(v)@ + le_bytes(x));
}

/// Appends the four big-endian bytes of `x`.
fn push_be32(v: &mut Vec<u8>, x: u32)
    ensures
        final(v)@ == old(v)@ + be_bytes(x),
{
    v.push((x >> 24u32) as u8);
    v.push((x >> 16u32) as u8);
    v.push((x >> 8u32) as u8);
    v.push(x as u8);
    assert(x >> 0u32 == x) by (bit_vector);
    assert(final(v)@ =~= old(v)@ + be_bytes(x));
}

/// Decodes a product key with the given tokens, returning the public
/// value, the product identifier, and the twenty-byte key hash.  A key
/// whose length is not exactly 26 characters is rejected.
#[verifier::loop_isolation(false)]
pub fn keydecode_quick(cd_key: String, client_token: u32, server_token: u32) -> (r: Result<
    (u32, u32, Vec<u8>),
    AuthError,
>)
    ensures
        match r {
            Ok(t) => cd_key@.len() == 26 && t.0 == spec_decode(cd_key@, client_token, server_token).0
                && t.1 == spec_decode(cd_key@, client_token, server_token).1 && t.2@ == spec_decode(
                cd_key@,
                client_token,
                server_token,
            ).2 && t.2@.len() == 20,
            Err(e) => cd_key@.len() != 26 && e == AuthError::InvalidKeyFormat,
        },
{
    let s = cd_key.as_str();
    let n = s.unicode_len();
    if n != KEY_LENGTH {
        return Err(AuthError::InvalidKeyFormat);
    }
    // Scatter the key characters into the digit table.
    let mut table: Vec<u8> = Vec::new();
    let mut z: usize = 0;
    while z < 52
        invariant
            z <= 52,
            table@.len() == z,
            forall|j: int| 0 <= j < z ==> table@[j] == 0u8,
        decreases 52 - z,
    {
        table.push(0);
        z += 1;
    }
    assert(table@ =~= Seq::new(52, |j: int| 0u8));
    let mut a: usize = 0;
    let mut b: usize = 0x21;
    let mut i: usize = 0;
    assert((a as int, b as int, table@) == scatter(s@, 0));
    while i < 26
        invariant
            i <= 26,
            a < 52 || a == 0,
            b < 52 || b == 0x21,
            table@.len() == 52,
            (a as int, b as int, table@) == scatter(s@, i as int),
        decreases 26 - i,
    {
        let c = s.get_char(i);
        let v = key_char_value_exec(c);
        a = (b + 0x07B5) % 52;
        b = (a + 0x07B5) % 52;
        table.set(a, v / 5);
        table.set(b, v % 5);
        i += 1;
        assert((a as int, b as int, table@) == scatter(s@, i as int));
    }
    // Accumulate the base-5 digits into a 120-bit value.
    let mut w0: u32 = 0;
    let mut w1: u32 = 0;
    let mut w2: u32 = 0;
    let mut w3: u32 = 0;
    let mut m: usize = 0;
    while m < 52
        invariant
            m <= 52,
            table@.len() == 52,
            (w0, w1, w2, w3) == accum(table@, m as int),
        decreases 52 - m,
    {
        let d = table[51 - m];
        let t0: u64 = (w0 as u64) * 5 + d as u64;
        assert(t0 >> 32u64 <= 5) by (bit_vector)
            requires
                t0 <= 21474836730u64,
        ;
        let t1: u64 = (w1 as u64) * 5 + (t0 >> 32u64);
        assert(t1 >> 32u64 <= 5) by (bit_vector)
            requires
                t1 <= 21474836730u64,
        ;
        let t2: u64 = (w2 as u64) * 5 + (t1 >> 32u64);
        assert(t2 >> 32u64 <= 5) by (bit_vector)
            requires
                t2 <= 21474836730u64,
        ;
        let t3: u64 = (w3 as u64) * 5 + (t2 >> 32u64);
        w0 = t0 as u32;
        w1 = t1 as u32;
        w2 = t2 as u32;
        w3 = t3 as u32;
        m += 1;
        assert((w0, w1, w2, w3) == accum(table@, m as int));
    }
    let ghost ws = (w0, w1, w2, w3);
    // Shuffle the 120 bits.
    let mut o0: u32 = 0;
    let mut o1: u32 = 0;
    let mut o2: u32 = 0;
    let mut o3: u32 = 0;
    let mut j: usize = 0;
    while j < 120
        invariant
            j <= 120,
            ws == (w0, w1, w2, w3),
            (o0, o1, o2, o3) == shuffle_acc(ws, j as int),
        decreases 120 - j,
    {
        let src = (j * 11) % 120;
        let sw: u32 = if src / 32 == 0 {
            w0
        } else if src / 32 == 1 {
            w1
        } else if src / 32 == 2 {
            w2
        } else {
            w3
        };
        if (sw >> ((src % 32) as u32)) & 1 == 1 {
            let mask: u32 = 1u32 << ((j % 32) as u32);
            if j / 32 == 0 {
                o0 = o0 | mask;
            } else if j / 32 == 1 {
                o1 = o1 | mask;
            } else if j / 32 == 2 {
                o2 = o2 | mask;
            } else {
                o3 = o3 | mask;
            }
        }
        j += 1;
        assert((o0, o1, o2, o3) == shuffle_acc(ws, j as int));
    }
    let ghost kv = key_value(s@);
    assert((o0, o1, o2, o3) == kv);
    // Split out the fields.
    let product: u32 = (o3 >> 10u32) & 0x3FFF;
    let public_value: u32 = (o2 >> 16u32) | ((o3 & 0x3FF) << 16u32);
    assert(product == spec_product(s@));
    assert(public_value == spec_public_value(s@));
    // Build and hash the token buffer.
    let mut buf: Vec<u8> = Vec::new();
    push_le32(&mut buf, client_token);
    push_le32(&mut buf, server_token);
    push_le32(&mut buf, product);
    push_le32(&mut buf, public_value);
    let ghost head = buf@;
    let mut k: usize = 0;
    while k < 10
        invariant
            k <= 10,
            (o0, o1, o2, o3) == kv,
            buf@ == head + Seq::new(k as nat, |i: int| (wsel(kv, i / 4) >> ((8 * (i % 4)) as u32)) as u8),
        decreases 10 - k,
    {
        let word: u32 = if k < 4 {
            o0
        } else if k < 8 {
            o1
        } else {
            o2
        };
        assert(word == wsel(kv, k as int / 4));
        let byte: u8 = (word >> ((8 * (k as u32 % 4)) as u32)) as u8;
        buf.push(byte);
        proof {
            let f = |i: int| (wsel(kv, i / 4) >> ((8 * (i % 4)) as u32)) as u8;
            assert(Seq::new((k + 1) as nat, f) =~= Seq::new(k as nat, f).push(f(k as int)));
            assert(head + Seq::new((k + 1) as nat, f) =~= (head + Seq::new(k as nat, f)).push(
                f(k as int),
            ));
        }
        k += 1;
    }
    assert(buf@ =~= spec_hash_input(s@, client_token, server_token));
    let hash = sha1(&buf);
    Ok((public_value, product, hash))
}

/// Encodes a product key into its 36-byte key-info record.  A key whose
/// length is not exactly 26 characters is rejected.
pub fn create_key_info(cd_key: String, client_token: u32, server_token: u32) -> (r: Result<
    Vec<u8>,
    AuthError,
>)
    ensures
        match r {
            Ok(v) => cd_key@.len() == 26 && v@ == spec_key_info(cd_key@, client_token, server_token)
                && v@.len() == 36,
            Err(e) => cd_key@.len() != 26 && e == AuthError::InvalidKeyFormat,
        },
{
    let ghost key = cd_key@;
    let (public_value, product, hash) = match keydecode_quick(cd_key, client_token, server_token) {
        Ok(t) => t,
        Err(e) => {
            return Err(e);
        },
    };
    let mut out: Vec<u8> = Vec::new();
    push_be32(&mut out, 26);
    push_be32(&mut out, product);
    push_be32(&mut out, public_value);
    out.push(0);
    out.push(0);
    out.push(0);
    out.push(0);
    let ghost head = out@;
    assert(head =~= be_bytes(26) + be_bytes(spec_product(key)) + be_bytes(spec_public_value(key))
        + seq![0u8, 0u8, 0u8, 0u8]);
    let mut k: usize = 0;
    while k < hash.len()
        invariant
            k <= hash@.len(),
            out@ == head + hash@.take(k as int),
        decreases hash@.len() - k,
    {
        out.push(hash[k]);
        proof {
            assert(hash@.take(k + 1) =~= hash@.take(k as int).push(hash@[k as int]));
            assert(head + hash@.take(k + 1) =~= (head + hash@.take(k as int)).push(
                hash@[k as int],
            ));
        }
        k += 1;
    }
    assert(hash@.take(hash@.len() as int) =~= hash@);
    assert(out@ =~= spec_key_info(key, client_token, server_token));
    Ok(out)
}

/// Decoding is a pure function of the key and the two tokens: any two
/// results of the decode model for the same inputs are byte-identical.
pub proof fn lemma_keydecode_deterministic(
    key: Seq<char>,
    client_token: u32,
    server_token: u32,
    r1: (u32, u32, Seq<u8>),
    r2: (u32, u32, Seq<u8>),
)
    requires
        r1 == spec_decode(key, client_token, server_token),
        r2 == spec_decode(key, client_token, server_token),
    ensures
        r1 == r2,
{
}

/// The key-info record is always exactly 36 bytes.
pub proof fn lemma_key_info_length(key: Seq<char>, client_token: u32, server_token: u32)
    ensures
        spec_key_info(key, client_token, server_token).len() == 36,
{
}

/// Key-info encoding is a pure function of the key and the two tokens:
/// any two records of the model for the same inputs are byte-identical.
pub proof fn lemma_key_info_deterministic(
    key: Seq<char>,
    client_token: u32,
    server_token: u32,
    r1: Seq<u8>,
    r2: Seq<u8>,
)
    requires
        r1 == spec_key_info(key, client_token, server_token),
        r2 == spec_key_info(key, client_token, server_token),
    ensures
        r1 == r2,
{
}

} // verus!
