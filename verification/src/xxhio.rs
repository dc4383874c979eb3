/*!
 * Streaming xxHash32 checksum engine, seeded with 0 as the nImage format
 * fixes it.
 *
 * The digest of a byte sequence is named by the uninterpreted function
 * `xxh32_of`; every contract that speaks of a checksum speaks of that name.
 * The engine state is modelled by `xxh_fed`, the sequence of bytes the
 * underlying hasher has been fed so far.
 */

use vstd::prelude::*;

verus! {

/// The xxHash32 digest (seed 0) of a byte sequence. The algorithm itself is
/// not restated here; `twox_hash` computes it, and the value depends on the
/// bytes alone.
pub uninterp spec fn xxh32_of(bytes: Seq<u8>) -> u32;

#[verifier::external_type_specification]
#[verifier::external_body]
pub struct ExXxHash32(twox_hash::XxHash32);

/// The bytes a `twox_hash::XxHash32` hasher has been fed since it was
/// created.
pub uninterp spec fn xxh_fed(h: twox_hash::XxHash32) -> Seq<u8>;

/// Relies on twox_hash::XxHash32::with_seed: a fresh hasher that has been
/// fed nothing. Only the format's fixed seed 0 is admitted, since `xxh32_of`
/// names the digest over the bytes alone.
pub assume_specification[ twox_hash::XxHash32::with_seed ](seed: u32) -> (r:
    twox_hash::XxHash32)
    requires
        seed == 0,
    ensures
        xxh_fed(r) == Seq::<u8>::empty(),
;

/// Relies on std::hash::Hasher::write for twox_hash::XxHash32: appends the
/// given bytes to the hashed stream and cannot fail. The hasher counts the
/// bytes fed in a u64, so the count must not overflow it.
pub assume_specification[ <twox_hash::XxHash32 as std::hash::Hasher>::write ](
    h: &mut twox_hash::XxHash32,
    bytes: &[u8],
)
    requires
        xxh_fed(*old(h)).len() + bytes@.len() <= u64::MAX,
    ensures
        xxh_fed(*final(h)) == xxh_fed(*old(h)) + bytes@,
;

/// Relies on std::hash::Hasher::finish for twox_hash::XxHash32: returns the
/// 32-bit digest of exactly the bytes fed so far (zero-extended to 64 bits),
/// without consuming the state. Over the format's fixed seed 0 the value is
/// a function of those bytes alone.
pub assume_specification[ <twox_hash::XxHash32 as std::hash::Hasher>::finish ](
    h: &twox_hash::XxHash32,
) -> (r: u64)
    ensures
        r == xxh32_of(xxh_fed(*h)) as u64,
;

/// Relies on twox_hash::XxHash32::total_len_64: the number of bytes fed so
/// far.
pub assume_specification[ twox_hash::XxHash32::total_len_64 ](h: &twox_hash::XxHash32) -> (r: u64)
    ensures
        xxh_fed(*h).len() <= u64::MAX ==> r == xxh_fed(*h).len(),
;

/// Accumulates an xxHash32 digest over the byte sequence fed to it, in as
/// many calls as the caller likes; `digest` reads the current value without
/// consuming the state.
pub struct Xxh32 {
    inner: twox_hash::XxHash32,
}

impl Xxh32 {
    /// All bytes fed to the engine so far.
    pub closed spec fn bytes(&self) -> Seq<u8> {
        xxh_fed(self.inner)
    }

    /// A fresh engine over the format's fixed seed.
    pub fn new() -> (r: Self)
        ensures
            r.bytes() == Seq::<u8>::empty(),
    {
        Xxh32 { inner: twox_hash::XxHash32::with_seed(0) }
    }

    /// Feed more bytes to the engine. The engine counts the bytes fed in a
    /// u64, so the total must fit it.
    pub fn update(&mut self, data: &[u8])
        requires
            old(self).bytes().len() + data@.len() <= u64::MAX,
        ensures
            final(self).bytes() == old(self).bytes() + data@,
    {
        std::hash::Hasher::write(&mut self.inner, data);
    }

    /// The digest of all bytes fed so far; the engine state is not consumed.
    pub fn digest(&self) -> (r: u32)
        ensures
            r == xxh32_of(self.bytes()),
    {
        let h64 = std::hash::Hasher::finish(&self.inner);
        h64 as u32
    }

    /// The number of bytes fed so far.
    pub fn total_len(&self) -> (r: u64)
        requires
            self.bytes().len() <= u64::MAX,
        ensures
            r == self.bytes().len(),
    {
        self.inner.total_len_64()
    }
}

/// One-off xxHash32 of a byte slice.
pub fn xxhash32(buf: &[u8]) -> (r: u32)
    ensures
        r == xxh32_of(buf@),
{
    let mut hasher = Xxh32::new();
    let n = buf.len();
    proof {
        assert(buf@.len() == n <= u64::MAX);
    }
    hasher.update(buf);
    proof {
        assert(Seq::<u8>::empty() + buf@ =~= buf@);
    }
    hasher.digest()
}

} // verus!
