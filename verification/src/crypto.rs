//! Key pairs and sessions.
//!
//! These are stand-ins for the real primitives: they keep the shape of the
//! exchange and are not secure. A key pair is made from a seed, a shared
//! secret is the exclusive-or of two keys, and a session enciphers by
//! exclusive-or with its key and a nonce.

use vstd::prelude::*;
use vstd::array::ArrayAdditionalExecFns;
use crate::error::Result;

verus! {

/// A key pair.
#[derive(Clone)]
pub struct X25519Keypair {
    pub public_key: [u8; 32],
    pub private_key: [u8; 32],
}

/// The state of an enciphered session.
pub struct Session {
    pub session_key: [u8; 32],
    pub nonce_counter: u64,
}

/// Byte `i` of the private key that is made from `seed`.
pub open spec fn private_byte(seed: u64, i: u64) -> u8 {
    (((seed >> (i % 8)) ^ ((i * 17) as u64)) & 0xff) as u8
}

/// Byte `j` of `n`, the lowest first.
pub open spec fn le_byte(n: u64, j: u64) -> u8 {
    ((n >> ((8 * j) as u64)) & 0xff) as u8
}

/// The nonce of a count: four zero bytes, then the eight bytes of the
/// count, the lowest first.
pub open spec fn nonce_of(count: u64) -> Seq<u8> {
    Seq::new(
        12,
        |i: int|
            if i < 4 {
                0u8
            } else {
                le_byte(count, (i - 4) as u64)
            },
    )
}

/// `data` under the stream of a key and a nonce: each byte combined by
/// exclusive-or with the byte of the key and the byte of the nonce that
/// stand at its place, the key and the nonce being taken round and round.
pub open spec fn xor_stream(data: Seq<u8>, key: Seq<u8>, nonce: Seq<u8>) -> Seq<u8> {
    Seq::new(data.len(), |i: int| data[i] ^ key[i % 32] ^ nonce[i % 12])
}

fn low_byte(x: u64) -> (b: u8)
    ensures
        b == (x & 0xff) as u8,
{
    let low: u64 = x & 0xff;
    assert(low <= 255) by (bit_vector)
        requires
            low == x & 0xff,
    ;
    low as u8
}

impl X25519Keypair {
    /// Makes a key pair from a seed, such as a reading of the clock.
    pub fn generate(seed: u64) -> (k: X25519Keypair)
        ensures
            forall|i: int| 0 <= i < 32 ==> #[trigger] k.private_key@[i] == private_byte(seed, i as u64),
            forall|i: int| 0 <= i < 32 ==> #[trigger] k.public_key@[i] == k.private_key@[i] ^ 0x55,
    {
        let mut private_key = [0u8; 32];
        let mut public_key = [0u8; 32];
        let mut i: usize = 0;
        while i < 32
            invariant
                i <= 32,
                forall|j: int| 0 <= j < i ==> #[trigger] private_key@[j] == private_byte(seed, j as u64),
                forall|j: int| 0 <= j < i ==> #[trigger] public_key@[j] == private_key@[j] ^ 0x55,
            decreases 32 - i,
        {
            let n: u64 = i as u64;
            let b = low_byte((seed >> (n % 8)) ^ (n * 17));
            private_key.set(i, b);
            public_key.set(i, b ^ 0x55);
            i += 1;
        }
        X25519Keypair { public_key, private_key }
    }

    /// The secret shared with the holder of `peer_public`.
    pub fn shared_secret(&self, peer_public: &[u8; 32]) -> (shared: [u8; 32])
        ensures
            forall|i: int|
                0 <= i < 32 ==> #[trigger] shared@[i] == self.private_key@[i] ^ peer_public@[i],
    {
        let mut shared = [0u8; 32];
        let mut i: usize = 0;
        while i < 32
            invariant
                i <= 32,
                forall|j: int|
                    0 <= j < i ==> #[trigger] shared@[j] == self.private_key@[j] ^ peer_public@[j],
            decreases 32 - i,
        {
            shared.set(i, self.private_key[i] ^ peer_public[i]);
            i += 1;
        }
        shared
    }
}

fn stream(data: &[u8], key: &[u8; 32], nonce: &[u8; 12]) -> (out: Vec<u8>)
    ensures
        out@ == xor_stream(data@, key@, nonce@),
{
    let mut out: Vec<u8> = Vec::new();
    let mut i: usize = 0;
    while i < data.len()
        invariant
            i <= data.len(),
            out@.len() == i,
            forall|j: int| 0 <= j < i ==> #[trigger] out@[j] == data@[j] ^ key@[j % 32] ^ nonce@[j % 12],
        decreases data.len() - i,
    {
        out.push(data[i] ^ key[i % 32] ^ nonce[i % 12]);
        i += 1;
    }
    assert(out@ =~= xor_stream(data@, key@, nonce@));
    out
}

impl Session {
    /// A session whose key is the shared secret and whose count of nonces
    /// starts at zero.
    pub fn new(shared_secret: &[u8; 32]) -> (s: Session)
        ensures
            s.session_key@ == shared_secret@,
            s.nonce_counter == 0,
    {
        Session { session_key: *shared_secret, nonce_counter: 0 }
    }

    /// The next nonce: that of the count, which goes up by one and starts
    /// over after the largest `u64`.
    pub fn next_nonce(&mut self) -> (nonce: [u8; 12])
        ensures
            nonce@ == nonce_of(old(self).nonce_counter),
            final(self).nonce_counter == (if old(self).nonce_counter == u64::MAX {
                0
            } else {
                (old(self).nonce_counter + 1) as u64
            }),
            final(self).session_key == old(self).session_key,
    {
        let mut nonce = [0u8; 12];
        let count = self.nonce_counter;
        let mut j: usize = 0;
        while j < 8
            invariant
                j <= 8,
                forall|i: int| 0 <= i < 4 ==> #[trigger] nonce@[i] == 0,
                forall|i: int| 4 <= i < 4 + j ==> #[trigger] nonce@[i] == le_byte(count, (i - 4) as u64),
            decreases 8 - j,
        {
            let n: u64 = j as u64;
            nonce.set(4 + j, low_byte(count >> (8 * n)));
            j += 1;
        }
        assert(nonce@ =~= nonce_of(count));
        self.nonce_counter = if count == u64::MAX {
            0
        } else {
            count + 1
        };
        nonce
    }

    /// Enciphers `plaintext` under the next nonce. Gives the ciphertext, the
    /// nonce, and a tag of zeros.
    pub fn encrypt(&mut self, plaintext: &[u8]) -> (r: Result<(Vec<u8>, [u8; 12], [u8; 16])>)
        ensures
            r matches Ok(out),
            ({
                let out = r->Ok_0;
                &&& out.1@ == nonce_of(old(self).nonce_counter)
                &&& out.0@ == xor_stream(plaintext@, old(self).session_key@, out.1@)
                &&& forall|i: int| 0 <= i < 16 ==> #[trigger] out.2@[i] == 0
            }),
            final(self).session_key == old(self).session_key,
    {
        let nonce = self.next_nonce();
        let ciphertext = stream(plaintext, &self.session_key, &nonce);
        let tag = [0u8; 16];
        Ok((ciphertext, nonce, tag))
    }

    /// Deciphers `ciphertext` under `nonce`. The tag is not looked at.
    pub fn decrypt(&self, ciphertext: &[u8], nonce: &[u8; 12], _tag: &[u8; 16]) -> (r: Result<
        Vec<u8>,
    >)
        ensures
            r matches Ok(plain) && plain@ == xor_stream(ciphertext@, self.session_key@, nonce@),
    {
        Ok(stream(ciphertext, &self.session_key, nonce))
    }
}

/// Law of the session. What was enciphered under a key and a nonce is
/// deciphered under the same key and nonce to what it was.
pub proof fn lemma_decrypt_encrypt(data: Seq<u8>, key: Seq<u8>, nonce: Seq<u8>)
    ensures
        xor_stream(xor_stream(data, key, nonce), key, nonce) == data,
{
    let once = xor_stream(data, key, nonce);
    let twice = xor_stream(once, key, nonce);
    assert forall|i: int| 0 <= i < data.len() implies twice[i] == data[i] by {
        let d = data[i];
        let k = key[i % 32];
        let n = nonce[i % 12];
        assert((d ^ k ^ n) ^ k ^ n == d) by (bit_vector);
    }
    assert(twice =~= data);
}

} // verus!
