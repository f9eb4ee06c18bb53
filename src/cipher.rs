use ring::aead::{Aad, LessSafeKey, Nonce, UnboundKey, CHACHA20_POLY1305};
use ring::error::Unspecified;
use vstd::prelude::*;
use vstd::slice::{slice_subrange, slice_to_vec};

verus! {

/// Length in bytes of a ChaCha20-Poly1305 key.
pub const KEY_LEN: usize = 32;

/// Length in bytes of the nonce that prefixes every sealed frame.
pub const NONCE_LEN: usize = 12;

/// Length in bytes of the authentication tag appended to the ciphertext.
pub const TAG_LEN: usize = 16;

/// The longest plaintext that ChaCha20-Poly1305 seals under one nonce.
pub const MAX_PLAINTEXT_LEN: u64 = 274877906880;

/// ring's error type, which carries no detail; it is only passed through.
#[verifier::external_type_specification]
#[verifier::external_body]
pub struct ExUnspecified(ring::error::Unspecified);

/// ChaCha20-Poly1305 ciphertext with its tag appended, for a key, a nonce and
/// a plaintext, with empty associated data.
pub uninterp spec fn chacha20_poly1305_sealed(key: Seq<u8>, nonce: Seq<u8>, plaintext: Seq<u8>) -> Seq<u8>;

/// Relies on ring's ChaCha20-Poly1305: `UnboundKey::new` refuses a key that is
/// not 32 bytes, `Nonce::try_assume_unique_for_key` takes the 12 nonce bytes,
/// and `LessSafeKey::seal_in_place_append_tag` refuses a plaintext longer than
/// 274,877,906,880 bytes and otherwise encrypts in place and appends the 16-byte tag.
#[verifier::external_body]
fn aead_seal(key: &[u8], nonce: &[u8], in_out: &mut Vec<u8>) -> (r: Result<(), Unspecified>)
    requires
        nonce@.len() == NONCE_LEN,
    ensures
        r is Ok <==> key@.len() == KEY_LEN && old(in_out)@.len() <= MAX_PLAINTEXT_LEN,
        r is Ok ==> final(in_out)@ == chacha20_poly1305_sealed(key@, nonce@, old(in_out)@),
        r is Ok ==> final(in_out)@.len() == old(in_out)@.len() + TAG_LEN,
{
    let key = LessSafeKey::new(UnboundKey::new(&CHACHA20_POLY1305, key)?);
    let nonce = Nonce::try_assume_unique_for_key(nonce)?;
    key.seal_in_place_append_tag(nonce, Aad::empty(), in_out)
}

/// Relies on ring's ChaCha20-Poly1305: `UnboundKey::new` refuses a key that is
/// not 32 bytes, and `LessSafeKey::open_in_place` refuses input shorter than the
/// tag and succeeds exactly when the tag verifies, that is when the input is the
/// sealing of some plaintext under this key and nonce, which it then returns.
#[verifier::external_body]
fn aead_open(key: &[u8], nonce: &[u8], sealed: &[u8]) -> (r: Result<Vec<u8>, Unspecified>)
    requires
        nonce@.len() == NONCE_LEN,
    ensures
        key@.len() != KEY_LEN ==> r is Err,
        sealed@.len() < TAG_LEN ==> r is Err,
        r is Ok ==> sealed@ == chacha20_poly1305_sealed(key@, nonce@, r->Ok_0@),
        forall|p: Seq<u8>|
            key@.len() == KEY_LEN && p.len() <= MAX_PLAINTEXT_LEN && sealed@
                == #[trigger] chacha20_poly1305_sealed(key@, nonce@, p) ==> r is Ok && r->Ok_0@ == p,
{
    let key = LessSafeKey::new(UnboundKey::new(&CHACHA20_POLY1305, key)?);
    let nonce = Nonce::try_assume_unique_for_key(nonce)?;
    let mut buf = sealed.to_vec();
    let plain = key.open_in_place(nonce, Aad::empty(), &mut buf)?;
    Ok(plain.to_vec())
}

/// The `n` low-order bytes of `x`, least significant first.
pub open spec fn le_bytes(x: nat, n: nat) -> Seq<u8>
    decreases n,
{
    if n == 0 {
        Seq::empty()
    } else {
        seq![(x % 256) as u8] + le_bytes(x / 256, (n - 1) as nat)
    }
}

/// 256 to the power `n`.
pub open spec fn pow256(n: nat) -> nat
    decreases n,
{
    if n == 0 {
        1
    } else {
        256 * pow256((n - 1) as nat)
    }
}

/// The nonce of the `counter`-th frame sealed by a codec whose nonces start
/// with `prefix`: the prefix in eight bytes, then the counter in four.
pub open spec fn nonce_for(prefix: u64, counter: u32) -> Seq<u8> {
    le_bytes(prefix as nat, 8) + le_bytes(counter as nat, 4)
}

/// A frame on the wire: the nonce, then the ciphertext with its tag.
pub open spec fn sealed_frame(key: Seq<u8>, nonce: Seq<u8>, plaintext: Seq<u8>) -> Seq<u8> {
    nonce + chacha20_poly1305_sealed(key, nonce, plaintext)
}

/// Why sealing or opening a frame failed.
#[derive(Debug, Clone, Copy, PartialEq, Eq, Structural)]
pub enum CipherError {
    /// The key is not 32 bytes long.
    KeyError,
    /// The frame is too short, or its tag does not verify.
    AuthenticationError,
    /// The plaintext is longer than one nonce may seal.
    InputTooLong,
    /// Every nonce of this codec has been used.
    NoncesExhausted,
}

/// Seals and opens frames under a pre-shared key. Every frame it seals uses a
/// nonce of its own: a fixed 64-bit prefix, drawn at random per codec, and a
/// 32-bit counter that only
/// grows.
pub struct CipherCodec {
    key: Vec<u8>,
    nonce_prefix: u64,
    counter: u32,
}

proof fn lemma_le_bytes_len(x: nat, n: nat)
    ensures
        le_bytes(x, n).len() == n,
    decreases n,
{
    if n > 0 {
        lemma_le_bytes_len(x / 256, (n - 1) as nat);
    }
}

proof fn lemma_le_bytes_injective(a: nat, b: nat, n: nat)
    requires
        le_bytes(a, n) == le_bytes(b, n),
        a < pow256(n),
        b < pow256(n),
    ensures
        a == b,
    decreases n,
{
    if n > 0 {
        let m = (n - 1) as nat;
        let p = pow256(m);
        lemma_le_bytes_len(a, n);
        lemma_le_bytes_len(b, n);
        assert(le_bytes(a, n)[0] == le_bytes(b, n)[0]);
        assert(le_bytes(a / 256, m) =~= le_bytes(a, n).subrange(1, n as int));
        assert(le_bytes(b / 256, m) =~= le_bytes(b, n).subrange(1, n as int));
        assert(a / 256 < p) by (nonlinear_arith)
            requires a < 256 * p;
        assert(b / 256 < p) by (nonlinear_arith)
            requires b < 256 * p;
        lemma_le_bytes_injective(a / 256, b / 256, m);
        assert(le_bytes(a, n)[0] == (a % 256) as u8);
        assert(le_bytes(b, n)[0] == (b % 256) as u8);
        assert(a % 256 == b % 256);
        assert(a == 256 * (a / 256) + a % 256) by (nonlinear_arith);
        assert(b == 256 * (b / 256) + b % 256) by (nonlinear_arith);
    } else {
        assert(pow256(0) == 1);
    }
}

/// Two frames sealed by one codec under different counters never share a
/// nonce.
pub proof fn lemma_nonce_unique(prefix: u64, c1: u32, c2: u32)
    requires
        c1 != c2,
    ensures
        nonce_for(prefix, c1) != nonce_for(prefix, c2),
{
    lemma_le_bytes_len(prefix as nat, 8);
    lemma_le_bytes_len(c1 as nat, 4);
    lemma_le_bytes_len(c2 as nat, 4);
    if nonce_for(prefix, c1) == nonce_for(prefix, c2) {
        assert(le_bytes(c1 as nat, 4) =~= nonce_for(prefix, c1).subrange(8, 12));
        assert(le_bytes(c2 as nat, 4) =~= nonce_for(prefix, c2).subrange(8, 12));
        assert(pow256(4) == 0x1_0000_0000) by {
            reveal_with_fuel(pow256, 5);
        };
        lemma_le_bytes_injective(c1 as nat, c2 as nat, 4);
    }
}

/// Appends the `n` low-order bytes of `x`, least significant first.
fn push_le_bytes(out: &mut Vec<u8>, x: u64, n: usize)
    ensures
        final(out)@ == old(out)@ + le_bytes(x as nat, n as nat),
{
    let mut v: u64 = x;
    let mut i: usize = 0;
    while i < n
        invariant
            i <= n,
            out@ + le_bytes(v as nat, (n - i) as nat) == old(out)@ + le_bytes(x as nat, n as nat),
        decreases n - i,
    {
        let ghost before = out@;
        out.push((v % 256) as u8);
        assert(le_bytes(v as nat, (n - i) as nat) == seq![(v % 256) as u8] + le_bytes((v / 256) as nat, (n - i - 1) as nat));
        assert(out@ + le_bytes((v / 256) as nat, (n - i - 1) as nat) =~= before + le_bytes(v as nat, (n - i) as nat));
        v = v / 256;
        i = i + 1;
    }
    assert(le_bytes(v as nat, 0) =~= Seq::<u8>::empty());
    assert(out@ =~= out@ + le_bytes(v as nat, 0));
}

fn make_nonce(prefix: u64, counter: u32) -> (r: Vec<u8>)
    ensures
        r@ == nonce_for(prefix, counter),
        r@.len() == NONCE_LEN,
{
    let mut r: Vec<u8> = Vec::new();
    push_le_bytes(&mut r, prefix, 8);
    push_le_bytes(&mut r, counter as u64, 4);
    proof {
        assert(r@ =~= nonce_for(prefix, counter));
        lemma_le_bytes_len(prefix as nat, 8);
        lemma_le_bytes_len(counter as nat, 4);
    }
    r
}

impl CipherCodec {
    /// The key this codec seals and opens under.
    pub closed spec fn key_bytes(&self) -> Seq<u8> {
        self.key@
    }

    /// The first four bytes of every nonce this codec uses.
    pub closed spec fn prefix(&self) -> u64 {
        self.nonce_prefix
    }

    /// The counter of the next nonce this codec uses.
    pub closed spec fn next_counter(&self) -> u32 {
        self.counter
    }

    /// A codec under `key` whose nonces start with `nonce_prefix`. Codecs that
    /// share a key should be given different prefixes.
    pub fn new(key: Vec<u8>, nonce_prefix: u64) -> (r: CipherCodec)
        ensures
            r.key_bytes() == key@,
            r.prefix() == nonce_prefix,
            r.next_counter() == 0,
    {
        CipherCodec { key, nonce_prefix, counter: 0 }
    }

    /// Seals `plaintext` into a frame under the next nonce, and advances the
    /// counter past it.
    pub fn seal(&mut self, plaintext: &[u8]) -> (r: Result<Vec<u8>, CipherError>)
        ensures
            final(self).key_bytes() == old(self).key_bytes(),
            final(self).prefix() == old(self).prefix(),
            old(self).next_counter() == u32::MAX ==> r == Err::<Vec<u8>, CipherError>(CipherError::NoncesExhausted),
            old(self).next_counter() < u32::MAX && old(self).key_bytes().len() != KEY_LEN
                ==> r == Err::<Vec<u8>, CipherError>(CipherError::KeyError),
            old(self).next_counter() < u32::MAX && old(self).key_bytes().len() == KEY_LEN && plaintext@.len()
                > MAX_PLAINTEXT_LEN ==> r == Err::<Vec<u8>, CipherError>(CipherError::InputTooLong),
            r is Err ==> final(self).next_counter() == old(self).next_counter(),
            r is Ok ==> r->Ok_0@.len() == NONCE_LEN + plaintext@.len() + TAG_LEN,
            old(self).key_bytes().len() == KEY_LEN && plaintext@.len() <= MAX_PLAINTEXT_LEN
                && old(self).next_counter() < u32::MAX ==> {
                &&& r is Ok
                &&& r->Ok_0@ == sealed_frame(
                    old(self).key_bytes(),
                    nonce_for(old(self).prefix(), old(self).next_counter()),
                    plaintext@,
                )
                &&& final(self).next_counter() == old(self).next_counter() + 1
            },
    {
        if self.counter == u32::MAX {
            return Err(CipherError::NoncesExhausted);
        }
        let mut frame = make_nonce(self.nonce_prefix, self.counter);
        let mut body = slice_to_vec(plaintext);
        match aead_seal(self.key.as_slice(), frame.as_slice(), &mut body) {
            Ok(()) => {},
            Err(_) => {
                return Err(
                    if self.key.len() != KEY_LEN {
                        CipherError::KeyError
                    } else {
                        CipherError::InputTooLong
                    },
                );
            },
        }
        frame.append(&mut body);
        self.counter = self.counter + 1;
        Ok(frame)
    }

    /// Opens a frame sealed under this codec's key by any codec: the nonce is
    /// read from the frame.
    pub fn open(&self, frame: &[u8]) -> (r: Result<Vec<u8>, CipherError>)
        ensures
            self.key_bytes().len() != KEY_LEN ==> r == Err::<Vec<u8>, CipherError>(CipherError::KeyError),
            self.key_bytes().len() == KEY_LEN && frame@.len() < NONCE_LEN + TAG_LEN
                ==> r == Err::<Vec<u8>, CipherError>(CipherError::AuthenticationError),
            self.key_bytes().len() == KEY_LEN && r is Err ==> r == Err::<Vec<u8>, CipherError>(CipherError::AuthenticationError),
            r is Ok ==> frame@ == sealed_frame(self.key_bytes(), frame@.subrange(0, NONCE_LEN as int), r->Ok_0@),
            forall|nonce: Seq<u8>, p: Seq<u8>|
                self.key_bytes().len() == KEY_LEN && nonce.len() == NONCE_LEN && p.len() <= MAX_PLAINTEXT_LEN
                    && frame@ == #[trigger] sealed_frame(self.key_bytes(), nonce, p) ==> r is Ok && r->Ok_0@ == p,
    {
        if frame.len() < NONCE_LEN {
            return Err(
                if self.key.len() != KEY_LEN {
                    CipherError::KeyError
                } else {
                    CipherError::AuthenticationError
                },
            );
        }
        let nonce = slice_subrange(frame, 0, NONCE_LEN);
        let body = slice_subrange(frame, NONCE_LEN, frame.len());
        proof {
            assert forall|n: Seq<u8>, p: Seq<u8>|
                n.len() == NONCE_LEN && frame@ == #[trigger] sealed_frame(self.key_bytes(), n, p)
                implies n == nonce@ && body@ == chacha20_poly1305_sealed(self.key@, nonce@, p) by {
                assert(frame@.subrange(0, NONCE_LEN as int) =~= n);
                assert(frame@.subrange(NONCE_LEN as int, frame@.len() as int)
                    =~= chacha20_poly1305_sealed(self.key@, n, p));
            };
        }
        match aead_open(self.key.as_slice(), nonce, body) {
            Ok(p) => {
                assert(frame@ =~= sealed_frame(self.key@, nonce@, p@));
                Ok(p)
            },
            Err(_) => Err(
                if self.key.len() != KEY_LEN {
                    CipherError::KeyError
                } else {
                    CipherError::AuthenticationError
                },
            ),
        }
    }
}

/// Opening a frame that a codec sealed gives back the plaintext, under any
/// codec with the same key.
pub proof fn lemma_open_seal_round_trip(key: Seq<u8>, prefix: u64, counter: u32, plaintext: Seq<u8>)
    requires
        key.len() == KEY_LEN,
        plaintext.len() <= MAX_PLAINTEXT_LEN,
    ensures
        forall|codec: CipherCodec, frame: &[u8], r: Result<Vec<u8>, CipherError>|
            codec.key_bytes() == key && frame@ == sealed_frame(key, nonce_for(prefix, counter), plaintext)
                && #[trigger] call_ensures(CipherCodec::open, (&codec, frame), r)
                ==> r is Ok && r->Ok_0@ == plaintext,
{
    assert(nonce_for(prefix, counter).len() == NONCE_LEN) by {
        lemma_le_bytes_len(prefix as nat, 8);
        lemma_le_bytes_len(counter as nat, 4);
    };
}

} // verus!
