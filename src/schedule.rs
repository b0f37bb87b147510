//! The key schedule: from the joiner secret and the pre-shared key secret,
//! through the welcome secret, to the epoch secret and the secrets of each
//! purpose that the epoch derives from it.

use vstd::prelude::*;
use openmls_rust_crypto::OpenMlsRustCrypto;
use crate::ciphersuite::{CiphersuiteName, hash_length, suite_hash, suite_aead, aead_key_length};
use crate::crypto::{hkdf_expand_of, hkdf_extract_of};
use crate::secret::{Secret, derive_secret_of, expand_with_label_of};
use crate::ciphersuite::ProtocolVersion;
use crate::codec::{VecSize, uint_bytes, write_uint};
use crate::messages::{PreSharedKeyId, PreSharedKeyIdModel, psk_id_bytes, psk_id_ok, psk_views};

verus! {

/// The label "welcome".
pub open spec fn welcome_label() -> Seq<u8> {
    seq![119u8, 101, 108, 99, 111, 109, 101]
}

/// The label "epoch".
pub open spec fn epoch_label() -> Seq<u8> {
    seq![101u8, 112, 111, 99, 104]
}

/// The label "sender data".
pub open spec fn sender_data_label() -> Seq<u8> {
    seq![115u8, 101, 110, 100, 101, 114, 32, 100, 97, 116, 97]
}

/// The label "encryption".
pub open spec fn encryption_label() -> Seq<u8> {
    seq![101u8, 110, 99, 114, 121, 112, 116, 105, 111, 110]
}

/// The label "exporter".
pub open spec fn exporter_label() -> Seq<u8> {
    seq![101u8, 120, 112, 111, 114, 116, 101, 114]
}

/// The label "authentication".
pub open spec fn authentication_label() -> Seq<u8> {
    seq![97u8, 117, 116, 104, 101, 110, 116, 105, 99, 97, 116, 105, 111, 110]
}

/// The label "external".
pub open spec fn external_label() -> Seq<u8> {
    seq![101u8, 120, 116, 101, 114, 110, 97, 108]
}

/// The label "confirm".
pub open spec fn confirm_label() -> Seq<u8> {
    seq![99u8, 111, 110, 102, 105, 114, 109]
}

/// The label "membership".
pub open spec fn membership_label() -> Seq<u8> {
    seq![109u8, 101, 109, 98, 101, 114, 115, 104, 105, 112]
}

/// The label "resumption".
pub open spec fn resumption_label() -> Seq<u8> {
    seq![114u8, 101, 115, 117, 109, 112, 116, 105, 111, 110]
}

/// The label "init".
pub open spec fn init_label() -> Seq<u8> {
    seq![105u8, 110, 105, 116]
}

/// The label "key".
pub open spec fn key_label() -> Seq<u8> {
    seq![107u8, 101, 121]
}

/// The label "nonce".
pub open spec fn nonce_label() -> Seq<u8> {
    seq![110u8, 111, 110, 99, 101]
}

/// The label "path".
pub open spec fn path_label() -> Seq<u8> {
    seq![112u8, 97, 116, 104]
}

/// The label "node".
pub open spec fn node_label() -> Seq<u8> {
    seq![110u8, 111, 100, 101]
}

/// The label "derived psk".
pub open spec fn derived_psk_label() -> Seq<u8> {
    seq![100u8, 101, 114, 105, 118, 101, 100, 32, 112, 115, 107]
}

pub fn derived_psk_label_bytes() -> (r: Vec<u8>)
    ensures
        r@ == derived_psk_label(),
{
    let r: Vec<u8> = vec![100u8, 101, 114, 105, 118, 101, 100, 32, 112, 115, 107];
    proof {
        assert(r@ =~= derived_psk_label());
    }
    r
}

/// One hash output of zeros.
pub open spec fn zero_secret(suite: CiphersuiteName) -> Seq<u8> {
    Seq::new(hash_length(suite_hash(suite)), |i: int| 0u8)
}

/// The encoded `PSKLabel`: the identifier, its index and the count.
pub open spec fn psk_label_bytes(id: PreSharedKeyIdModel, index: nat, count: nat) -> Seq<u8> {
    psk_id_bytes(id) + uint_bytes(index, VecSize::VecU16) + uint_bytes(count, VecSize::VecU16)
}

/// Pre-shared key identifiers that can be encoded into labels.
pub open spec fn psk_ids_encodable(ids: Seq<PreSharedKeyIdModel>) -> bool {
    ids.len() <= 0xffff && forall|i: int| 0 <= i < ids.len() ==> psk_id_ok(#[trigger] ids[i])
}

/// The pre-shared key secret after injecting the first `i` keys: each key is
/// extracted under a zero salt, expanded with its label into the input, and
/// the input extracts the running secret.
pub open spec fn psk_secret_of(
    suite: CiphersuiteName,
    ids: Seq<PreSharedKeyIdModel>,
    values: Seq<Seq<u8>>,
    i: nat,
) -> Seq<u8>
    decreases i,
{
    if i == 0 {
        zero_secret(suite)
    } else {
        let k = (i - 1) as nat;
        let h = suite_hash(suite);
        let extracted = hkdf_extract_of(h, zero_secret(suite), values[k as int]);
        let input = expand_with_label_of(
            suite,
            extracted,
            derived_psk_label(),
            psk_label_bytes(ids[k as int], k, ids.len()),
            hash_length(h),
        );
        hkdf_extract_of(h, input, psk_secret_of(suite, ids, values, k))
    }
}

/// Failures of combining pre-shared keys.
#[derive(Clone, Copy, Debug, PartialEq, Eq, Structural)]
pub enum PskError {
    EncodingError,
}

/// The pre-shared key secret of the keys `values`, one per identifier.
pub fn psk_secret(
    backend: &OpenMlsRustCrypto,
    suite: CiphersuiteName,
    mls_version: ProtocolVersion,
    ids: &[PreSharedKeyId],
    values: &[Vec<u8>],
) -> (r: Result<Secret, PskError>)
    requires
        ids@.len() == values@.len(),
    ensures
        r is Ok <==> psk_ids_encodable(psk_views(ids@)),
        r is Ok ==> r->Ok_0.value@ == psk_secret_of(
            suite,
            psk_views(ids@),
            values@.map_values(|v: Vec<u8>| v@),
            ids@.len(),
        ),
        r is Ok ==> r->Ok_0.ciphersuite == suite && r->Ok_0.mls_version == mls_version,
{
    let ghost idv = psk_views(ids@);
    let ghost vals = values@.map_values(|v: Vec<u8>| v@);
    if ids.len() > 0xffff {
        return Err(PskError::EncodingError);
    }
    let len = suite.hash_length();
    let mut running = Secret::zero(suite, mls_version, len);
    assert(running.value@ =~= zero_secret(suite));
    let mut i: usize = 0;
    while i < ids.len()
        invariant
            i <= ids@.len() <= 0xffff,
            ids@.len() == values@.len(),
            idv == psk_views(ids@),
            vals == values@.map_values(|v: Vec<u8>| v@),
            len == hash_length(suite_hash(suite)),
            forall|j: int| 0 <= j < i ==> psk_id_ok(#[trigger] idv[j]),
            running.value@ == psk_secret_of(suite, idv, vals, i as nat),
            running.ciphersuite == suite,
            running.mls_version == mls_version,
        decreases ids@.len() - i,
    {
        let mut label: Vec<u8> = Vec::new();
        assert(idv[i as int] == ids@[i as int]@);
        if ids[i].encode(&mut label).is_err() {
            proof {
                assert(!psk_id_ok(idv[i as int]));
            }
            return Err(PskError::EncodingError);
        }
        write_uint(&mut label, i as u64, VecSize::VecU16);
        write_uint(&mut label, ids.len() as u64, VecSize::VecU16);
        proof {
            assert(label@ =~= psk_label_bytes(idv[i as int], i as nat, ids@.len()));
            reveal(psk_id_bytes);
        }
        let zero = Secret::zero(suite, mls_version, len);
        assert(zero.value@ =~= zero_secret(suite));
        let key = Secret::from_slice(values[i].as_slice(), mls_version, suite);
        assert(key.value@ == vals[i as int]);
        let extracted = zero.hkdf_extract(backend, &key);
        let input = match extracted.hkdf_expand_label(
            backend,
            derived_psk_label_bytes().as_slice(),
            label.as_slice(),
            len,
        ) {
            Ok(s) => s,
            Err(_) => {
                return Err(PskError::EncodingError);
            },
        };
        running = input.hkdf_extract(backend, &running);
        i = i + 1;
    }
    proof {
        assert forall|j: int| 0 <= j < idv.len() implies psk_id_ok(#[trigger] idv[j]) by {}
    }
    Ok(running)
}

/// The secret that both the welcome secret and the epoch secret are
/// derived from.
pub open spec fn intermediate_of(suite: CiphersuiteName, joiner: Seq<u8>, psk: Seq<u8>) -> Seq<u8> {
    hkdf_extract_of(suite_hash(suite), joiner, psk)
}

pub open spec fn welcome_secret_of(suite: CiphersuiteName, joiner: Seq<u8>, psk: Seq<u8>) -> Seq<u8> {
    derive_secret_of(suite, intermediate_of(suite, joiner, psk), welcome_label())
}

/// The AEAD key that protects the group info of a welcome.
pub open spec fn welcome_key_of(suite: CiphersuiteName, welcome_secret: Seq<u8>) -> Seq<u8> {
    hkdf_expand_of(suite_hash(suite), welcome_secret, key_label(), aead_key_length(suite_aead(suite)))
}

/// The AEAD nonce that protects the group info of a welcome.
pub open spec fn welcome_nonce_of(suite: CiphersuiteName, welcome_secret: Seq<u8>) -> Seq<u8> {
    hkdf_expand_of(suite_hash(suite), welcome_secret, nonce_label(), 12)
}

pub open spec fn epoch_secret_of(
    suite: CiphersuiteName,
    joiner: Seq<u8>,
    psk: Seq<u8>,
    context: Seq<u8>,
) -> Seq<u8> {
    expand_with_label_of(
        suite,
        intermediate_of(suite, joiner, psk),
        epoch_label(),
        context,
        hash_length(suite_hash(suite)),
    )
}

/// The secrets of one epoch, as byte strings.
pub struct EpochSecretsModel {
    pub sender_data_secret: Seq<u8>,
    pub encryption_secret: Seq<u8>,
    pub exporter_secret: Seq<u8>,
    pub authentication_secret: Seq<u8>,
    pub external_secret: Seq<u8>,
    pub confirmation_key: Seq<u8>,
    pub membership_key: Seq<u8>,
    pub resumption_secret: Seq<u8>,
    pub init_secret: Seq<u8>,
}

/// Each purpose's secret is DeriveSecret of the epoch secret under the
/// purpose's label.
pub open spec fn epoch_secrets_from(suite: CiphersuiteName, epoch_secret: Seq<u8>) -> EpochSecretsModel {
    EpochSecretsModel {
        sender_data_secret: derive_secret_of(suite, epoch_secret, sender_data_label()),
        encryption_secret: derive_secret_of(suite, epoch_secret, encryption_label()),
        exporter_secret: derive_secret_of(suite, epoch_secret, exporter_label()),
        authentication_secret: derive_secret_of(suite, epoch_secret, authentication_label()),
        external_secret: derive_secret_of(suite, epoch_secret, external_label()),
        confirmation_key: derive_secret_of(suite, epoch_secret, confirm_label()),
        membership_key: derive_secret_of(suite, epoch_secret, membership_label()),
        resumption_secret: derive_secret_of(suite, epoch_secret, resumption_label()),
        init_secret: derive_secret_of(suite, epoch_secret, init_label()),
    }
}

/// The epoch secrets for a joiner secret, a pre-shared key secret and an
/// encoded group context.
pub open spec fn epoch_secrets_of(
    suite: CiphersuiteName,
    joiner: Seq<u8>,
    psk: Seq<u8>,
    context: Seq<u8>,
) -> EpochSecretsModel {
    epoch_secrets_from(suite, epoch_secret_of(suite, joiner, psk, context))
}

/// Identical joiner secrets, pre-shared key secrets and group contexts give
/// identical epoch secrets, byte for byte.
pub proof fn lemma_key_schedule_deterministic(
    suite: CiphersuiteName,
    joiner_a: Seq<u8>,
    psk_a: Seq<u8>,
    context_a: Seq<u8>,
    joiner_b: Seq<u8>,
    psk_b: Seq<u8>,
    context_b: Seq<u8>,
)
    requires
        joiner_a == joiner_b,
        psk_a == psk_b,
        context_a == context_b,
    ensures
        epoch_secrets_of(suite, joiner_a, psk_a, context_a) == epoch_secrets_of(
            suite,
            joiner_b,
            psk_b,
            context_b,
        ),
        welcome_secret_of(suite, joiner_a, psk_a) == welcome_secret_of(suite, joiner_b, psk_b),
{
}

fn welcome_label_bytes() -> (r: Vec<u8>)
    ensures
        r@ == welcome_label(),
{
    let r: Vec<u8> = vec![119u8, 101, 108, 99, 111, 109, 101];
    proof {
        assert(r@ =~= welcome_label());
    }
    r
}

fn epoch_label_bytes() -> (r: Vec<u8>)
    ensures
        r@ == epoch_label(),
{
    let r: Vec<u8> = vec![101u8, 112, 111, 99, 104];
    proof {
        assert(r@ =~= epoch_label());
    }
    r
}

fn sender_data_label_bytes() -> (r: Vec<u8>)
    ensures
        r@ == sender_data_label(),
{
    let r: Vec<u8> = vec![115u8, 101, 110, 100, 101, 114, 32, 100, 97, 116, 97];
    proof {
        assert(r@ =~= sender_data_label());
    }
    r
}

fn encryption_label_bytes() -> (r: Vec<u8>)
    ensures
        r@ == encryption_label(),
{
    let r: Vec<u8> = vec![101u8, 110, 99, 114, 121, 112, 116, 105, 111, 110];
    proof {
        assert(r@ =~= encryption_label());
    }
    r
}

fn exporter_label_bytes() -> (r: Vec<u8>)
    ensures
        r@ == exporter_label(),
{
    let r: Vec<u8> = vec![101u8, 120, 112, 111, 114, 116, 101, 114];
    proof {
        assert(r@ =~= exporter_label());
    }
    r
}

fn authentication_label_bytes() -> (r: Vec<u8>)
    ensures
        r@ == authentication_label(),
{
    let r: Vec<u8> = vec![97u8, 117, 116, 104, 101, 110, 116, 105, 99, 97, 116, 105, 111, 110];
    proof {
        assert(r@ =~= authentication_label());
    }
    r
}

fn external_label_bytes() -> (r: Vec<u8>)
    ensures
        r@ == external_label(),
{
    let r: Vec<u8> = vec![101u8, 120, 116, 101, 114, 110, 97, 108];
    proof {
        assert(r@ =~= external_label());
    }
    r
}

fn confirm_label_bytes() -> (r: Vec<u8>)
    ensures
        r@ == confirm_label(),
{
    let r: Vec<u8> = vec![99u8, 111, 110, 102, 105, 114, 109];
    proof {
        assert(r@ =~= confirm_label());
    }
    r
}

fn membership_label_bytes() -> (r: Vec<u8>)
    ensures
        r@ == membership_label(),
{
    let r: Vec<u8> = vec![109u8, 101, 109, 98, 101, 114, 115, 104, 105, 112];
    proof {
        assert(r@ =~= membership_label());
    }
    r
}

fn resumption_label_bytes() -> (r: Vec<u8>)
    ensures
        r@ == resumption_label(),
{
    let r: Vec<u8> = vec![114u8, 101, 115, 117, 109, 112, 116, 105, 111, 110];
    proof {
        assert(r@ =~= resumption_label());
    }
    r
}

fn init_label_bytes() -> (r: Vec<u8>)
    ensures
        r@ == init_label(),
{
    let r: Vec<u8> = vec![105u8, 110, 105, 116];
    proof {
        assert(r@ =~= init_label());
    }
    r
}

fn key_label_bytes() -> (r: Vec<u8>)
    ensures
        r@ == key_label(),
{
    let r: Vec<u8> = vec![107u8, 101, 121];
    proof {
        assert(r@ =~= key_label());
    }
    r
}

fn nonce_label_bytes() -> (r: Vec<u8>)
    ensures
        r@ == nonce_label(),
{
    let r: Vec<u8> = vec![110u8, 111, 110, 99, 101];
    proof {
        assert(r@ =~= nonce_label());
    }
    r
}

pub fn path_label_bytes() -> (r: Vec<u8>)
    ensures
        r@ == path_label(),
{
    let r: Vec<u8> = vec![112u8, 97, 116, 104];
    proof {
        assert(r@ =~= path_label());
    }
    r
}

pub fn node_label_bytes() -> (r: Vec<u8>)
    ensures
        r@ == node_label(),
{
    let r: Vec<u8> = vec![110u8, 111, 100, 101];
    proof {
        assert(r@ =~= node_label());
    }
    r
}

/// The secrets of one epoch.
pub struct EpochSecrets {
    pub sender_data_secret: Secret,
    pub encryption_secret: Secret,
    pub exporter_secret: Secret,
    pub authentication_secret: Secret,
    pub external_secret: Secret,
    pub confirmation_key: Secret,
    pub membership_key: Secret,
    pub resumption_secret: Secret,
    pub init_secret: Secret,
}

impl View for EpochSecrets {
    type V = EpochSecretsModel;

    open spec fn view(&self) -> EpochSecretsModel {
        EpochSecretsModel {
            sender_data_secret: self.sender_data_secret.value@,
            encryption_secret: self.encryption_secret.value@,
            exporter_secret: self.exporter_secret.value@,
            authentication_secret: self.authentication_secret.value@,
            external_secret: self.external_secret.value@,
            confirmation_key: self.confirmation_key.value@,
            membership_key: self.membership_key.value@,
            resumption_secret: self.resumption_secret.value@,
            init_secret: self.init_secret.value@,
        }
    }
}

/// Failures of the key schedule.
#[derive(Clone, Copy, Debug, PartialEq, Eq, Structural)]
pub enum KeyScheduleError {
    InvalidState,
}

/// Where the key schedule of an epoch stands.
#[derive(Clone, Copy, Debug, PartialEq, Eq, Structural)]
pub enum ScheduleState {
    Initial,
    Context,
    Done,
}

/// The key schedule of one epoch. It advances from `Initial` (welcome
/// secret available) through `Context` (group context added) to `Done`
/// (epoch secrets handed out).
pub struct KeySchedule {
    pub ciphersuite: CiphersuiteName,
    pub intermediate_secret: Secret,
    pub epoch_secret: Option<Secret>,
    pub state: ScheduleState,
    pub joiner: Ghost<Seq<u8>>,
    pub psk: Ghost<Seq<u8>>,
    pub context: Ghost<Seq<u8>>,
}

impl KeySchedule {
    pub open spec fn wf(&self) -> bool {
        &&& self.intermediate_secret.ciphersuite == self.ciphersuite
        &&& self.intermediate_secret.value@ == intermediate_of(
            self.ciphersuite,
            self.joiner@,
            self.psk@,
        )
        &&& self.intermediate_secret.value@.len() == hash_length(suite_hash(self.ciphersuite))
        &&& (self.state == ScheduleState::Context) ==> {
            &&& self.epoch_secret is Some
            &&& self.epoch_secret->Some_0.ciphersuite == self.ciphersuite
            &&& self.epoch_secret->Some_0.value@ == epoch_secret_of(
                self.ciphersuite,
                self.joiner@,
                self.psk@,
                self.context@,
            )
            &&& self.epoch_secret->Some_0.value@.len() == hash_length(suite_hash(self.ciphersuite))
        }
    }

    /// Starts the schedule from the joiner secret and the pre-shared key
    /// secret.
    pub fn init(backend: &OpenMlsRustCrypto, joiner_secret: Secret, psk: Secret) -> (r: KeySchedule)
        ensures
            r.wf(),
            r.state == ScheduleState::Initial,
            r.ciphersuite == joiner_secret.ciphersuite,
            r.joiner@ == joiner_secret.value@,
            r.psk@ == psk.value@,
    {
        let intermediate_secret = joiner_secret.hkdf_extract(backend, &psk);
        KeySchedule {
            ciphersuite: joiner_secret.ciphersuite,
            intermediate_secret,
            epoch_secret: None,
            state: ScheduleState::Initial,
            joiner: Ghost(joiner_secret.value@),
            psk: Ghost(psk.value@),
            context: Ghost(Seq::empty()),
        }
    }

    /// The welcome secret; available only before the group context is added.
    pub fn welcome(&self, backend: &OpenMlsRustCrypto) -> (r: Result<Secret, KeyScheduleError>)
        requires
            self.wf(),
        ensures
            r is Ok <==> self.state == ScheduleState::Initial,
            r is Ok ==> r->Ok_0.value@ == welcome_secret_of(self.ciphersuite, self.joiner@, self.psk@),
            r is Ok ==> r->Ok_0.value@.len() == hash_length(suite_hash(self.ciphersuite)),
            r is Ok ==> r->Ok_0.ciphersuite == self.ciphersuite,
    {
        if self.state != ScheduleState::Initial {
            return Err(KeyScheduleError::InvalidState);
        }
        let label = welcome_label_bytes();
        match self.intermediate_secret.derive_secret(backend, label.as_slice()) {
            Ok(s) => Ok(s),
            Err(_) => Err(KeyScheduleError::InvalidState),
        }
    }

    /// Binds the encoded group context and derives the epoch secret.
    pub fn add_context(&mut self, backend: &OpenMlsRustCrypto, context: &[u8]) -> (r: Result<
        (),
        KeyScheduleError,
    >)
        requires
            old(self).wf(),
            context@.len() <= 0xffff_ffff,
        ensures
            final(self).wf(),
            r is Ok <==> old(self).state == ScheduleState::Initial,
            r is Ok ==> final(self).state == ScheduleState::Context && final(self).context@
                == context@,
            r is Err ==> *final(self) == *old(self),
            final(self).ciphersuite == old(self).ciphersuite,
            final(self).joiner@ == old(self).joiner@,
            final(self).psk@ == old(self).psk@,
    {
        if self.state != ScheduleState::Initial {
            return Err(KeyScheduleError::InvalidState);
        }
        let label = epoch_label_bytes();
        let len = self.ciphersuite.hash_length();
        match self.intermediate_secret.hkdf_expand_label(backend, label.as_slice(), context, len) {
            Ok(s) => {
                self.epoch_secret = Some(s);
                self.context = Ghost(context@);
                self.state = ScheduleState::Context;
                Ok(())
            },
            Err(_) => Err(KeyScheduleError::InvalidState),
        }
    }

    /// The secrets of the epoch; available once, after the group context.
    pub fn epoch_secrets(&mut self, backend: &OpenMlsRustCrypto) -> (r: Result<
        EpochSecrets,
        KeyScheduleError,
    >)
        requires
            old(self).wf(),
        ensures
            final(self).wf(),
            r is Ok <==> old(self).state == ScheduleState::Context,
            r is Ok ==> final(self).state == ScheduleState::Done,
            r is Ok ==> r->Ok_0@ == epoch_secrets_of(
                old(self).ciphersuite,
                old(self).joiner@,
                old(self).psk@,
                old(self).context@,
            ),
            r is Ok ==> r->Ok_0.confirmation_key.ciphersuite == old(self).ciphersuite,
            r is Err ==> *final(self) == *old(self),
            final(self).ciphersuite == old(self).ciphersuite,
    {
        if self.state != ScheduleState::Context {
            return Err(KeyScheduleError::InvalidState);
        }
        let r = match &self.epoch_secret {
            Some(epoch) => EpochSecrets {
                sender_data_secret: derive(backend, epoch, sender_data_label_bytes()),
                encryption_secret: derive(backend, epoch, encryption_label_bytes()),
                exporter_secret: derive(backend, epoch, exporter_label_bytes()),
                authentication_secret: derive(backend, epoch, authentication_label_bytes()),
                external_secret: derive(backend, epoch, external_label_bytes()),
                confirmation_key: derive(backend, epoch, confirm_label_bytes()),
                membership_key: derive(backend, epoch, membership_label_bytes()),
                resumption_secret: derive(backend, epoch, resumption_label_bytes()),
                init_secret: derive(backend, epoch, init_label_bytes()),
            },
            None => {
                return Err(KeyScheduleError::InvalidState);
            },
        };
        self.state = ScheduleState::Done;
        Ok(r)
    }
}

/// DeriveSecret on a secret of one hash output, which always succeeds.
fn derive(backend: &OpenMlsRustCrypto, secret: &Secret, label: Vec<u8>) -> (r: Secret)
    requires
        secret.value@.len() == hash_length(suite_hash(secret.ciphersuite)),
        label@.len() <= 249,
    ensures
        r.value@ == derive_secret_of(secret.ciphersuite, secret.value@, label@),
        r.value@.len() == hash_length(suite_hash(secret.ciphersuite)),
        r.ciphersuite == secret.ciphersuite,
{
    match secret.derive_secret(backend, label.as_slice()) {
        Ok(s) => s,
        Err(_) => secret.clone(),
    }
}

/// The AEAD key and nonce that protect the group info of a welcome.
pub fn derive_welcome_key_nonce(backend: &OpenMlsRustCrypto, welcome_secret: &Secret) -> (r: (
    Secret,
    Secret,
))
    requires
        welcome_secret.value@.len() == hash_length(suite_hash(welcome_secret.ciphersuite)),
    ensures
        r.0.value@ == welcome_key_of(welcome_secret.ciphersuite, welcome_secret.value@),
        r.1.value@ == welcome_nonce_of(welcome_secret.ciphersuite, welcome_secret.value@),
        r.1.value@.len() == 12,
{
    let key_len = welcome_secret.ciphersuite.aead_key_length();
    let key = match welcome_secret.hkdf_expand(backend, key_label_bytes().as_slice(), key_len) {
        Ok(s) => s,
        Err(_) => welcome_secret.clone(),
    };
    let nonce = match welcome_secret.hkdf_expand(backend, nonce_label_bytes().as_slice(), 12) {
        Ok(s) => s,
        Err(_) => welcome_secret.clone(),
    };
    (key, nonce)
}

} // verus!
