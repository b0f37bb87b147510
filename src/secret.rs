//! Secrets tagged with their ciphersuite and protocol version, the MLS key
//! derivation functions on them, and MAC values.

use vstd::prelude::*;
use openmls_rust_crypto::OpenMlsRustCrypto;
use openmls_traits::types::CryptoError;
use crate::ciphersuite::{CiphersuiteName, ProtocolVersion, hash_length, suite_hash};
use crate::codec::{VecSize, encode_vec, opaque_bytes, uint_bytes, write_uint};
use crate::crypto::{hkdf_expand, hkdf_expand_of, hkdf_extract, hkdf_extract_of, random_vec};

verus! {

/// A secret byte string, tagged with the ciphersuite and protocol version
/// it was derived under. It has no `Debug`, so its bytes never reach a log.
#[derive(Clone)]
pub struct Secret {
    pub ciphersuite: CiphersuiteName,
    pub mls_version: ProtocolVersion,
    pub value: Vec<u8>,
}

/// Compares two byte strings of equal length in time that does not depend
/// on where they differ: every byte is read.
pub fn equal_ct(a: &[u8], b: &[u8]) -> (r: bool)
    ensures
        r == (a@ == b@),
{
    if a.len() != b.len() {
        return false;
    }
    let mut diff: u8 = 0;
    let mut i: usize = 0;
    assert(a@.take(0) =~= b@.take(0));
    while i < a.len()
        invariant
            i <= a@.len() == b@.len(),
            (diff == 0) == (a@.take(i as int) == b@.take(i as int)),
        decreases a@.len() - i,
    {
        let x = a[i];
        let y = b[i];
        let d = diff;
        assert((d | (x ^ y)) == 0 <==> (d == 0 && x == y)) by (bit_vector);
        diff = diff | (x ^ y);
        proof {
            assert(a@.take(i + 1) =~= a@.take(i as int).push(x));
            assert(b@.take(i + 1) =~= b@.take(i as int).push(y));
            if a@.take(i + 1) == b@.take(i + 1) {
                assert(a@.take(i as int) =~= a@.take(i + 1).take(i as int));
                assert(b@.take(i as int) =~= b@.take(i + 1).take(i as int));
                assert(a@.take(i + 1)[i as int] == x);
            }
        }
        i = i + 1;
    }
    proof {
        assert(a@.take(i as int) =~= a@);
        assert(b@.take(i as int) =~= b@);
    }
    diff == 0
}

impl PartialEq for Secret {
    /// Constant-time in the secret's bytes.
    fn eq(&self, other: &Secret) -> (r: bool) {
        self.ciphersuite == other.ciphersuite && self.mls_version == other.mls_version && equal_ct(
            self.value.as_slice(),
            other.value.as_slice(),
        )
    }
}

impl vstd::std_specs::cmp::PartialEqSpecImpl for Secret {
    open spec fn obeys_eq_spec() -> bool {
        true
    }

    open spec fn eq_spec(&self, other: &Secret) -> bool {
        self.ciphersuite == other.ciphersuite && self.mls_version == other.mls_version
            && self.value@ == other.value@
    }
}

/// The label "mls10 " that prefixes every derivation label.
pub open spec fn label_prefix() -> Seq<u8> {
    seq![109u8, 108, 115, 49, 48, 32]
}

/// The encoded `KdfLabel` for a label, context and output length.
pub open spec fn kdf_label_bytes(label: Seq<u8>, context: Seq<u8>, len: nat) -> Seq<u8> {
    uint_bytes(len, VecSize::VecU16) + opaque_bytes(label_prefix() + label, VecSize::VecU8)
        + opaque_bytes(context, VecSize::VecU32)
}

/// ExpandWithLabel on a pseudorandom key.
pub open spec fn expand_with_label_of(
    suite: CiphersuiteName,
    secret: Seq<u8>,
    label: Seq<u8>,
    context: Seq<u8>,
    len: nat,
) -> Seq<u8> {
    hkdf_expand_of(suite_hash(suite), secret, kdf_label_bytes(label, context, len), len)
}

/// DeriveSecret: ExpandWithLabel with an empty context, one hash output long.
pub open spec fn derive_secret_of(suite: CiphersuiteName, secret: Seq<u8>, label: Seq<u8>) -> Seq<
    u8,
> {
    expand_with_label_of(suite, secret, label, seq![], hash_length(suite_hash(suite)))
}

/// Encodes the `KdfLabel` structure.
pub fn kdf_label(label: &[u8], context: &[u8], len: usize) -> (r: Vec<u8>)
    requires
        label@.len() <= 249,
        context@.len() <= 0xffff_ffff,
        len <= 0xffff,
    ensures
        r@ == kdf_label_bytes(label@, context@, len as nat),
{
    let mut full: Vec<u8> = vec![109u8, 108, 115, 49, 48, 32];
    let mut i: usize = 0;
    while i < label.len()
        invariant
            i <= label@.len(),
            full@ == label_prefix() + label@.take(i as int),
        decreases label@.len() - i,
    {
        full.push(label[i]);
        i = i + 1;
        proof {
            assert(label@.take(i as int) =~= label@.take(i - 1).push(label@[i - 1]));
        }
    }
    proof {
        assert(label@.take(i as int) =~= label@);
    }
    let mut out: Vec<u8> = Vec::new();
    write_uint(&mut out, len as u64, VecSize::VecU16);
    let r1 = encode_vec(VecSize::VecU8, &mut out, full.as_slice());
    let r2 = encode_vec(VecSize::VecU32, &mut out, context);
    proof {
        assert(out@ =~= kdf_label_bytes(label@, context@, len as nat));
    }
    out
}

impl Secret {
    pub fn from_slice(bytes: &[u8], mls_version: ProtocolVersion, ciphersuite: CiphersuiteName) -> (r: Secret)
        ensures
            r.value@ == bytes@,
            r.mls_version == mls_version,
            r.ciphersuite == ciphersuite,
    {
        let mut value: Vec<u8> = Vec::new();
        let mut i: usize = 0;
        while i < bytes.len()
            invariant
                i <= bytes@.len(),
                value@ == bytes@.take(i as int),
            decreases bytes@.len() - i,
        {
            value.push(bytes[i]);
            i = i + 1;
            proof {
                assert(bytes@.take(i as int) =~= bytes@.take(i - 1).push(bytes@[i - 1]));
            }
        }
        proof {
            assert(bytes@.take(i as int) =~= bytes@);
        }
        Secret { ciphersuite, mls_version, value }
    }

    /// A fresh random secret, one hash output long; nothing where the random
    /// number generator fails.
    pub fn random(
        ciphersuite: CiphersuiteName,
        backend: &OpenMlsRustCrypto,
        mls_version: ProtocolVersion,
    ) -> (r: Option<Secret>)
        ensures
            r is Some ==> r->Some_0.value@.len() == hash_length(suite_hash(ciphersuite))
                && r->Some_0.ciphersuite == ciphersuite && r->Some_0.mls_version == mls_version,
    {
        let value = random_vec(backend, ciphersuite.hash_length())?;
        Some(Secret { ciphersuite, mls_version, value })
    }

    /// A secret of `len` zero bytes.
    pub fn zero(ciphersuite: CiphersuiteName, mls_version: ProtocolVersion, len: usize) -> (r: Secret)
        ensures
            r.value@ == Seq::new(len as nat, |i: int| 0u8),
            r.mls_version == mls_version,
            r.ciphersuite == ciphersuite,
    {
        let mut value: Vec<u8> = Vec::new();
        let mut i: usize = 0;
        while i < len
            invariant
                i <= len,
                value@ == Seq::new(i as nat, |j: int| 0u8),
            decreases len - i,
        {
            value.push(0u8);
            i = i + 1;
            proof {
                assert(value@ =~= Seq::new(i as nat, |j: int| 0u8));
            }
        }
        Secret { ciphersuite, mls_version, value }
    }

    /// Re-tags the secret with a ciphersuite and protocol version.
    pub fn config(&mut self, ciphersuite: CiphersuiteName, mls_version: ProtocolVersion)
        ensures
            final(self).value@ == old(self).value@,
            final(self).ciphersuite == ciphersuite,
            final(self).mls_version == mls_version,
    {
        self.ciphersuite = ciphersuite;
        self.mls_version = mls_version;
    }

    /// HKDF-Extract with this secret as salt and `ikm` as input keying
    /// material; the result keeps this secret's tag.
    pub fn hkdf_extract(&self, backend: &OpenMlsRustCrypto, ikm: &Secret) -> (r: Secret)
        ensures
            r.value@ == hkdf_extract_of(suite_hash(self.ciphersuite), self.value@, ikm.value@),
            r.value@.len() == hash_length(suite_hash(self.ciphersuite)),
            r.ciphersuite == self.ciphersuite,
            r.mls_version == self.mls_version,
    {
        let value = hkdf_extract(
            backend,
            self.ciphersuite.hash(),
            self.value.as_slice(),
            ikm.value.as_slice(),
        );
        Secret { ciphersuite: self.ciphersuite, mls_version: self.mls_version, value }
    }

    /// HKDF-Expand with plain `info`.
    pub fn hkdf_expand(&self, backend: &OpenMlsRustCrypto, info: &[u8], len: usize) -> (r: Result<
        Secret,
        CryptoError,
    >)
        requires
            len <= 0xffff,
        ensures
            r is Ok <==> self.value@.len() >= hash_length(suite_hash(self.ciphersuite)) && len
                <= 255 * hash_length(suite_hash(self.ciphersuite)),
            r is Ok ==> r->Ok_0.value@ == hkdf_expand_of(
                suite_hash(self.ciphersuite),
                self.value@,
                info@,
                len as nat,
            ),
            r is Ok ==> r->Ok_0.ciphersuite == self.ciphersuite && r->Ok_0.mls_version
                == self.mls_version,
            r is Ok ==> r->Ok_0.value@.len() == len,
    {
        let value = hkdf_expand(backend, self.ciphersuite.hash(), self.value.as_slice(), info, len)?;
        Ok(Secret { ciphersuite: self.ciphersuite, mls_version: self.mls_version, value })
    }

    /// ExpandWithLabel: HKDF-Expand with the encoded `KdfLabel` as info.
    pub fn hkdf_expand_label(
        &self,
        backend: &OpenMlsRustCrypto,
        label: &[u8],
        context: &[u8],
        len: usize,
    ) -> (r: Result<Secret, CryptoError>)
        requires
            label@.len() <= 249,
            context@.len() <= 0xffff_ffff,
            len <= 0xffff,
        ensures
            r is Ok <==> self.value@.len() >= hash_length(suite_hash(self.ciphersuite)) && len
                <= 255 * hash_length(suite_hash(self.ciphersuite)),
            r is Ok ==> r->Ok_0.value@ == expand_with_label_of(
                self.ciphersuite,
                self.value@,
                label@,
                context@,
                len as nat,
            ),
            r is Ok ==> r->Ok_0.ciphersuite == self.ciphersuite && r->Ok_0.mls_version
                == self.mls_version,
            r is Ok ==> r->Ok_0.value@.len() == len,
    {
        let info = kdf_label(label, context, len);
        self.hkdf_expand(backend, info.as_slice(), len)
    }

    /// DeriveSecret: ExpandWithLabel with an empty context, one hash output
    /// long.
    pub fn derive_secret(&self, backend: &OpenMlsRustCrypto, label: &[u8]) -> (r: Result<
        Secret,
        CryptoError,
    >)
        requires
            label@.len() <= 249,
        ensures
            r is Ok <==> self.value@.len() >= hash_length(suite_hash(self.ciphersuite)),
            r is Ok ==> r->Ok_0.value@ == derive_secret_of(self.ciphersuite, self.value@, label@),
            r is Ok ==> r->Ok_0.value@.len() == hash_length(suite_hash(self.ciphersuite)),
            r is Ok ==> r->Ok_0.ciphersuite == self.ciphersuite && r->Ok_0.mls_version
                == self.mls_version,
    {
        let empty: Vec<u8> = Vec::new();
        proof {
            assert(empty@ =~= Seq::<u8>::empty());
        }
        let len = self.ciphersuite.hash_length();
        self.hkdf_expand_label(backend, label, empty.as_slice(), len)
    }
}

/// A MAC value.
#[derive(Clone, Debug)]
pub struct Mac {
    pub mac_value: Vec<u8>,
}

impl PartialEq for Mac {
    /// Constant-time comparison.
    fn eq(&self, other: &Mac) -> (r: bool) {
        equal_ct(self.mac_value.as_slice(), other.mac_value.as_slice())
    }
}

impl vstd::std_specs::cmp::PartialEqSpecImpl for Mac {
    open spec fn obeys_eq_spec() -> bool {
        true
    }

    open spec fn eq_spec(&self, other: &Mac) -> bool {
        self.mac_value@ == other.mac_value@
    }
}

impl Mac {
    /// HMAC-Hash(salt, IKM): for every ciphersuite here the HMAC that HKDF
    /// uses, so it is HKDF-Extract with `salt` as salt and `ikm` as input.
    pub fn new(backend: &OpenMlsRustCrypto, salt: &Secret, ikm: &[u8]) -> (r: Mac)
        ensures
            r.mac_value@ == hkdf_extract_of(suite_hash(salt.ciphersuite), salt.value@, ikm@),
            r.mac_value@.len() == hash_length(suite_hash(salt.ciphersuite)),
    {
        let ikm_secret = Secret::from_slice(ikm, salt.mls_version, salt.ciphersuite);
        Mac { mac_value: salt.hkdf_extract(backend, &ikm_secret).value }
    }

    /// Whether two MAC values hold the same bytes, compared in constant time.
    pub fn equals(&self, other: &Mac) -> (r: bool)
        ensures
            r == (self.mac_value@ == other.mac_value@),
    {
        equal_ct(self.mac_value.as_slice(), other.mac_value.as_slice())
    }
}

} // verus!
