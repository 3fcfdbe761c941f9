//! The byte layout of Noise-encrypted Native API frames: a `0x01` preamble,
//! the ciphertext length as a big-endian `u16`, then the ciphertext; the
//! plaintext inside is the message type as a big-endian `u16` followed by
//! the payload. Encryption itself belongs to the transport.
use vstd::prelude::*;

verus! {

/// The preamble byte of a Noise frame.
pub const NOISE_PREAMBLE: u8 = 0x01;

/// A `u16` as two big-endian bytes.
pub open spec fn be16(n: u16) -> Seq<u8> {
    seq![(n / 256) as u8, (n % 256) as u8]
}

/// The plaintext of a message: its type (kept to 16 bits) as a big-endian
/// `u16`, then the payload.
pub fn noise_plaintext(msg_type: u32, payload: &[u8]) -> (r: Vec<u8>)
    ensures
        r@ == be16((msg_type % 65536) as u16) + payload@,
{
    let t = (msg_type % 65536) as u16;
    let mut out: Vec<u8> = Vec::new();
    out.push((t / 256) as u8);
    out.push((t % 256) as u8);
    let mut i: usize = 0;
    while i < payload.len()
        invariant
            i <= payload@.len(),
            out@ == be16(t) + payload@.subrange(0, i as int),
        decreases payload@.len() - i,
    {
        out.push(payload[i]);
        i = i + 1;
        proof {
            assert(out@ =~= be16(t) + payload@.subrange(0, i as int));
        }
    }
    proof {
        assert(payload@.subrange(0, payload@.len() as int) =~= payload@);
    }
    out
}

/// Split a decrypted plaintext into its message type and payload; `None`
/// when it is shorter than the two type bytes.
pub fn split_noise_plaintext(p: &[u8]) -> (r: Option<(u32, Vec<u8>)>)
    ensures
        r is None <==> p@.len() < 2,
        r matches Some((t, rest)) ==> t == p@[0] * 256 + p@[1] && rest@ == p@.subrange(2, p@.len() as int),
{
    if p.len() < 2 {
        return None;
    }
    let t: u32 = (p[0] as u32) * 256 + (p[1] as u32);
    let mut rest: Vec<u8> = Vec::new();
    let mut i: usize = 2;
    while i < p.len()
        invariant
            2 <= i <= p@.len(),
            rest@ == p@.subrange(2, i as int),
        decreases p@.len() - i,
    {
        rest.push(p[i]);
        i = i + 1;
        proof {
            assert(rest@ =~= p@.subrange(2, i as int));
        }
    }
    Some((t, rest))
}

/// A frame around a ciphertext: the preamble, the length (kept to 16 bits)
/// as a big-endian `u16`, then the ciphertext.
pub fn noise_frame(ciphertext: &[u8]) -> (r: Vec<u8>)
    ensures
        r@ == seq![NOISE_PREAMBLE] + be16((ciphertext@.len() % 65536) as u16) + ciphertext@,
{
    let n = (ciphertext.len() % 65536) as u16;
    let mut out: Vec<u8> = Vec::new();
    out.push(NOISE_PREAMBLE);
    out.push((n / 256) as u8);
    out.push((n % 256) as u8);
    let ghost head = out@;
    proof {
        assert(head =~= seq![NOISE_PREAMBLE] + be16(n));
    }
    let mut i: usize = 0;
    while i < ciphertext.len()
        invariant
            i <= ciphertext@.len(),
            out@ == head + ciphertext@.subrange(0, i as int),
        decreases ciphertext@.len() - i,
    {
        out.push(ciphertext[i]);
        i = i + 1;
        proof {
            assert(out@ =~= head + ciphertext@.subrange(0, i as int));
        }
    }
    proof {
        assert(ciphertext@.subrange(0, ciphertext@.len() as int) =~= ciphertext@);
    }
    out
}

/// The ciphertext length a frame header announces: `None` unless it starts
/// with the preamble and holds the two length bytes.
pub fn noise_frame_len(header: &[u8]) -> (r: Option<usize>)
    ensures
        r is Some <==> (header@.len() >= 3 && header@[0] == NOISE_PREAMBLE),
        r matches Some(n) ==> n == header@[1] * 256 + header@[2],
{
    if header.len() < 3 || header[0] != NOISE_PREAMBLE {
        return None;
    }
    Some((header[1] as usize) * 256 + (header[2] as usize))
}

/// Splitting the plaintext of a message gives back its type (kept to 16
/// bits) and its payload.
pub proof fn lemma_plaintext_round_trip(msg_type: u32, payload: Seq<u8>)
    ensures
        ({
            let p = be16((msg_type % 65536) as u16) + payload;
            &&& p.len() >= 2
            &&& p[0] * 256 + p[1] == msg_type % 65536
            &&& p.subrange(2, p.len() as int) == payload
        }),
{
    let t = (msg_type % 65536) as u16;
    let p = be16(t) + payload;
    assert(p[0] == (t / 256) as u8);
    assert(p[1] == (t % 256) as u8);
    assert((t / 256) * 256 + t % 256 == t);
    assert(p.subrange(2, p.len() as int) =~= payload);
}

} // verus!
