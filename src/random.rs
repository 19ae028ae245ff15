use sha2::Digest;
use vstd::prelude::*;

verus! {

/// Number of bytes in the generator's internal key.
pub const HASH_LEN: usize = 32;

/// Number of key bytes consumed by one draw.
pub const DRAW_BYTES: usize = 4;

/// The SHA-256 digest of a byte string.
pub uninterp spec fn sha256_of(data: Seq<u8>) -> Seq<u8>;

/// Relies on `sha2::Sha256::digest`: a 32-byte digest that depends on the input bytes alone.
#[verifier::external_body]
fn sha256(data: &Vec<u8>) -> (r: Vec<u8>)
    ensures
        r@ == sha256_of(data@),
        r@.len() == HASH_LEN,
{
    sha2::Sha256::digest(data.as_slice()).to_vec()
}

/// The mathematical state of the generator: the current key and how many of its
/// bytes have been consumed.
pub struct RngState {
    pub seed: Seq<u8>,
    pub index: nat,
}

/// Four key bytes read as a big-endian unsigned integer.
pub open spec fn be_u32(s: Seq<u8>, i: int) -> nat {
    (s[i] as nat) * 16777216 + (s[i + 1] as nat) * 65536 + (s[i + 2] as nat) * 256 + (s[i + 3] as nat)
}

/// The state just before a draw: the key is rehashed once it has no four unread bytes left.
pub open spec fn refreshed(st: RngState) -> RngState {
    if st.index + DRAW_BYTES > HASH_LEN {
        RngState { seed: sha256_of(st.seed), index: 0 }
    } else {
        st
    }
}

/// The raw value of the next draw.
pub open spec fn next_raw(st: RngState) -> nat {
    be_u32(refreshed(st).seed, refreshed(st).index as int)
}

/// The state after the next draw.
pub open spec fn next_state(st: RngState) -> RngState {
    RngState { seed: refreshed(st).seed, index: (refreshed(st).index + DRAW_BYTES) as nat }
}

/// The value of a draw in `[min, max)`.
pub open spec fn next_in_range(st: RngState, min: nat, max: nat) -> nat
    recommends
        min < max,
{
    min + next_raw(st) % ((max - min) as nat)
}

/// A deterministic generator whose whole state can be saved and restored.
pub struct Random {
    pub seed: Vec<u8>,
    pub index: usize,
}

impl View for Random {
    type V = RngState;

    open spec fn view(&self) -> RngState {
        RngState { seed: self.seed@, index: self.index as nat }
    }
}

impl Random {
    pub open spec fn wf(&self) -> bool {
        self.seed@.len() == HASH_LEN && self.index <= HASH_LEN
    }

    /// A generator keyed by the digest of the given bytes.
    pub fn from_seed(bytes: &Vec<u8>) -> (r: Random)
        ensures
            r.wf(),
            r@ == (RngState { seed: sha256_of(bytes@), index: 0 }),
    {
        Random { seed: sha256(bytes), index: 0 }
    }

    /// A generator resumed from a saved key and position.
    pub fn from_hash(seed: Vec<u8>, index: usize) -> (r: Random)
        requires
            seed@.len() == HASH_LEN,
            index <= HASH_LEN,
        ensures
            r.wf(),
            r@ == (RngState { seed: seed@, index: index as nat }),
    {
        Random { seed, index }
    }

    /// A copy of the generator, in the same state.
    pub fn duplicate(&self) -> (r: Random)
        ensures
            r@ == self@,
    {
        let mut seed: Vec<u8> = Vec::new();
        let mut i: usize = 0;
        while i < self.seed.len()
            invariant
                i <= self.seed@.len(),
                seed@ == self.seed@.take(i as int),
            decreases self.seed@.len() - i,
        {
            seed.push(self.seed[i]);
            i += 1;
            assert(seed@ =~= self.seed@.take(i as int));
        }
        assert(seed@ =~= self.seed@);
        Random { seed, index: self.index }
    }

    /// The next four key bytes as an integer.
    pub fn next_u32(&mut self) -> (r: u64)
        requires
            old(self).wf(),
        ensures
            final(self).wf(),
            r == next_raw(old(self)@),
            final(self)@ == next_state(old(self)@),
    {
        if self.index + DRAW_BYTES > HASH_LEN {
            self.seed = sha256(&self.seed);
            self.index = 0;
        }
        let i = self.index;
        let r = (self.seed[i] as u64) * 16777216 + (self.seed[i + 1] as u64) * 65536
            + (self.seed[i + 2] as u64) * 256 + (self.seed[i + 3] as u64);
        self.index = i + DRAW_BYTES;
        r
    }

    /// A draw in `[min, max)`.
    pub fn next_usize_in_range(&mut self, min: u64, max: u64) -> (r: u64)
        requires
            old(self).wf(),
            min < max,
        ensures
            final(self).wf(),
            r == next_in_range(old(self)@, min as nat, max as nat),
            min <= r < max,
            final(self)@ == next_state(old(self)@),
    {
        let raw = self.next_u32();
        let diff = max - min;
        min + raw % diff
    }
}

} // verus!
