//! Messages that welcome new members and commit changes: group secrets,
//! group info, welcome and commit, with the wire encoding of those that a
//! joiner decodes.

use vstd::prelude::*;
use crate::ciphersuite::{CiphersuiteName, ProtocolVersion};
use crate::codec::{
    CodecError, VecSize, decode_vec, encode_vec, list_bytes, lemma_opaque_round_trip,
    lemma_uint_round_trip, lemma_vec_round_trip, opaque_bytes, parse_opaque, parse_uint, parse_vec,
    read_uint, uint_bytes, vec_bytes, write_uint, inverts, parse_list, lemma_list_bytes_push,
    append_bytes, u64_bytes, parse_u64, lemma_u64_round_trip, write_u64, read_u64,
};
use crate::index::LeafIndex;
use crate::ciphersuite::{hash_length, signature_of_code, suite_hash, SignatureAlgorithm};
use crate::crypto::{random_vec, sign, signature_of};
use openmls_rust_crypto::OpenMlsRustCrypto;
use crate::key_package::{
    CredentialBundle,
    Extension, ExtensionModel, extension_views, extensions_ok, extension_enc, extension_parse,
    encode_extensions, decode_extensions, lemma_extensions_invert,
};
use crate::proposals::ProposalOrRef;
use crate::secret::{Mac, Secret};
use crate::tree::{HpkeCiphertext, UpdatePath};

verus! {

/// One encrypted copy of the group secrets, for the member whose key
/// package hashes to `key_package_hash`.
#[derive(Clone, Debug, PartialEq, Eq)]
pub struct EncryptedGroupSecrets {
    pub key_package_hash: Vec<u8>,
    pub encrypted_group_secrets: HpkeCiphertext,
}

/// A welcome message: the group secrets sealed to each new member and the
/// encrypted group info.
#[derive(Clone, Debug, PartialEq, Eq)]
pub struct Welcome {
    pub version: ProtocolVersion,
    pub cipher_suite: CiphersuiteName,
    pub secrets: Vec<EncryptedGroupSecrets>,
    pub encrypted_group_info: Vec<u8>,
}

impl Welcome {
    /// A welcome message from its parts.
    pub fn new(
        version: ProtocolVersion,
        cipher_suite: CiphersuiteName,
        secrets: Vec<EncryptedGroupSecrets>,
        encrypted_group_info: Vec<u8>,
    ) -> (r: Welcome)
        ensures
            r.version == version,
            r.cipher_suite == cipher_suite,
            r.secrets@ == secrets@,
            r.encrypted_group_info@ == encrypted_group_info@,
    {
        Welcome { version, cipher_suite, secrets, encrypted_group_info }
    }

    pub fn ciphersuite(&self) -> (r: CiphersuiteName)
        ensures
            r == self.cipher_suite,
    {
        self.cipher_suite
    }

    pub fn secrets(&self) -> (r: &[EncryptedGroupSecrets])
        ensures
            r@ == self.secrets@,
    {
        self.secrets.as_slice()
    }

    pub fn encrypted_group_info(&self) -> (r: &[u8])
        ensures
            r@ == self.encrypted_group_info@,
    {
        self.encrypted_group_info.as_slice()
    }

    pub fn version(&self) -> (r: &ProtocolVersion)
        ensures
            *r == self.version,
    {
        &self.version
    }

    /// Replaces the encrypted group info.
    pub fn set_encrypted_group_info(&mut self, encrypted_group_info: Vec<u8>)
        ensures
            final(self).encrypted_group_info@ == encrypted_group_info@,
            final(self).version == old(self).version,
            final(self).cipher_suite == old(self).cipher_suite,
            final(self).secrets@ == old(self).secrets@,
    {
        self.encrypted_group_info = encrypted_group_info;
    }
}

/// A commit: the proposals it applies and, optionally, an update path.
#[derive(Clone, Debug, PartialEq, Eq)]
pub struct Commit {
    pub proposals: Vec<ProposalOrRef>,
    pub path: Option<UpdatePath>,
}

impl Commit {
    /// Whether the commit carries an update path.
    pub fn has_path(&self) -> (r: bool)
        ensures
            r == self.path is Some,
    {
        self.path.is_some()
    }

    pub fn path(&self) -> (r: &Option<UpdatePath>)
        ensures
            *r == self.path,
    {
        &self.path
    }
}

/// The confirmation tag of a commit: a MAC over the confirmed transcript
/// hash.
#[derive(Clone, Debug)]
pub struct ConfirmationTag(pub Mac);

impl PartialEq for ConfirmationTag {
    /// Constant-time comparison of the MAC values.
    fn eq(&self, other: &ConfirmationTag) -> (r: bool) {
        self.0.equals(&other.0)
    }
}

impl vstd::std_specs::cmp::PartialEqSpecImpl for ConfirmationTag {
    open spec fn obeys_eq_spec() -> bool {
        true
    }

    open spec fn eq_spec(&self, other: &ConfirmationTag) -> bool {
        self.0.mac_value@ == other.0.mac_value@
    }
}

/// The path secret handed to a new member.
#[derive(Clone)]
pub struct PathSecret {
    pub path_secret: Secret,
}

impl From<Secret> for PathSecret {
    fn from(path_secret: Secret) -> (r: PathSecret)
        ensures
            r.path_secret == path_secret,
    {
        PathSecret { path_secret }
    }
}

impl vstd::std_specs::convert::FromSpecImpl<Secret> for PathSecret {
    open spec fn obeys_from_spec() -> bool {
        true
    }

    open spec fn from_spec(v: Secret) -> PathSecret {
        PathSecret { path_secret: v }
    }
}

/// An external pre-shared key's identifier and nonce.
#[derive(Clone, Debug, PartialEq, Eq)]
pub struct PreSharedKeyId {
    pub psk_type: u8,
    pub psk_id: Vec<u8>,
    pub psk_nonce: Vec<u8>,
}

pub struct PreSharedKeyIdModel {
    pub psk_type: u8,
    pub psk_id: Seq<u8>,
    pub psk_nonce: Seq<u8>,
}

impl View for PreSharedKeyId {
    type V = PreSharedKeyIdModel;

    open spec fn view(&self) -> PreSharedKeyIdModel {
        PreSharedKeyIdModel { psk_type: self.psk_type, psk_id: self.psk_id@, psk_nonce: self.psk_nonce@ }
    }
}

pub open spec fn psk_views(v: Seq<PreSharedKeyId>) -> Seq<PreSharedKeyIdModel> {
    v.map_values(|p: PreSharedKeyId| p@)
}

/// The pre-shared keys that a new member must inject.
#[derive(Clone, Debug, PartialEq, Eq)]
pub struct PreSharedKeys {
    pub psks: Vec<PreSharedKeyId>,
}

/// The secrets sealed to a new member.
pub struct GroupSecrets {
    pub joiner_secret: Secret,
    pub path_secret: Option<PathSecret>,
    pub psks: PreSharedKeys,
}

pub struct GroupSecretsModel {
    pub joiner_secret: Seq<u8>,
    pub path_secret: Option<Seq<u8>>,
    pub psks: Seq<PreSharedKeyIdModel>,
}

pub open spec fn path_secret_view(p: Option<PathSecret>) -> Option<Seq<u8>> {
    match p {
        None => None,
        Some(s) => Some(s.path_secret.value@),
    }
}

impl View for GroupSecrets {
    type V = GroupSecretsModel;

    open spec fn view(&self) -> GroupSecretsModel {
        GroupSecretsModel {
            joiner_secret: self.joiner_secret.value@,
            path_secret: path_secret_view(self.path_secret),
            psks: psk_views(self.psks.psks@),
        }
    }
}

// ---------------------------------------------------------------------------
// PreSharedKeyId
// ---------------------------------------------------------------------------

pub open spec fn psk_id_ok(m: PreSharedKeyIdModel) -> bool {
    m.psk_id.len() <= 0xff && m.psk_nonce.len() <= 0xff
}

#[verifier::opaque]
pub open spec fn psk_id_bytes(m: PreSharedKeyIdModel) -> Seq<u8> {
    uint_bytes(m.psk_type as nat, VecSize::VecU8) + opaque_bytes(m.psk_id, VecSize::VecU8)
        + opaque_bytes(m.psk_nonce, VecSize::VecU8)
}

#[verifier::opaque]
pub open spec fn parse_psk_id(b: Seq<u8>) -> Option<(PreSharedKeyIdModel, nat)> {
    match parse_uint(b, VecSize::VecU8) {
        None => None,
        Some((t, n1)) => match parse_opaque(b.skip(n1 as int), VecSize::VecU8) {
            None => None,
            Some((id, n2)) => match parse_opaque(b.skip((n1 + n2) as int), VecSize::VecU8) {
                None => None,
                Some((nonce, n3)) => Some(
                    (
                        PreSharedKeyIdModel { psk_type: t as u8, psk_id: id, psk_nonce: nonce },
                        n1 + n2 + n3,
                    ),
                ),
            },
        },
    }
}

pub open spec fn psk_id_enc() -> spec_fn(PreSharedKeyIdModel) -> Seq<u8> {
    |m: PreSharedKeyIdModel| psk_id_bytes(m)
}

pub open spec fn psk_id_parse() -> spec_fn(Seq<u8>) -> Option<(PreSharedKeyIdModel, nat)> {
    |b: Seq<u8>| parse_psk_id(b)
}

pub open spec fn psk_ids_ok(v: Seq<PreSharedKeyIdModel>) -> bool {
    &&& forall|i: int| 0 <= i < v.len() ==> psk_id_ok(#[trigger] v[i])
    &&& list_bytes(v, psk_id_enc()).len() <= 0xffff
}

pub proof fn lemma_psk_id_round_trip(m: PreSharedKeyIdModel, rest: Seq<u8>)
    requires
        psk_id_ok(m),
    ensures
        parse_psk_id(psk_id_bytes(m) + rest) == Some((m, psk_id_bytes(m).len())),
        psk_id_bytes(m).len() > 0,
{
    reveal(parse_psk_id);
    reveal(psk_id_bytes);
    let a = uint_bytes(m.psk_type as nat, VecSize::VecU8);
    let b = opaque_bytes(m.psk_id, VecSize::VecU8);
    let c = opaque_bytes(m.psk_nonce, VecSize::VecU8);
    let t = psk_id_bytes(m) + rest;
    lemma_uint_round_trip(m.psk_type as nat, VecSize::VecU8, b + c + rest);
    lemma_opaque_round_trip(m.psk_id, VecSize::VecU8, c + rest);
    lemma_opaque_round_trip(m.psk_nonce, VecSize::VecU8, rest);
    assert(t =~= a + (b + c + rest));
    assert(t.skip(a.len() as int) =~= b + (c + rest));
    assert(t.skip((a.len() + b.len()) as int) =~= c + rest);
}

proof fn lemma_psk_ids_invert(v: Seq<PreSharedKeyIdModel>)
    requires
        forall|i: int| 0 <= i < v.len() ==> psk_id_ok(#[trigger] v[i]),
    ensures
        forall|i: int| 0 <= i < v.len() ==> inverts(psk_id_enc(), psk_id_parse(), #[trigger] v[i]),
{
    assert forall|i: int| 0 <= i < v.len() implies inverts(
        psk_id_enc(),
        psk_id_parse(),
        #[trigger] v[i],
    ) by {
        assert forall|rest: Seq<u8>| #[trigger]
            psk_id_parse()(psk_id_enc()(v[i]) + rest) == Some((v[i], psk_id_enc()(v[i]).len())) by {
            lemma_psk_id_round_trip(v[i], rest);
        }
        lemma_psk_id_round_trip(v[i], Seq::empty());
    }
}

impl PreSharedKeyId {
    pub fn encode(&self, buffer: &mut Vec<u8>) -> (r: Result<(), CodecError>)
        ensures
            r is Ok <==> psk_id_ok(self@),
            r is Ok ==> final(buffer)@ == old(buffer)@ + psk_id_bytes(self@),
    {
        reveal(psk_id_bytes);
        let ghost start = buffer@;
        if self.psk_id.len() > 0xff || self.psk_nonce.len() > 0xff {
            return Err(CodecError::EncodingError);
        }
        write_uint(buffer, self.psk_type as u64, VecSize::VecU8);
        encode_vec(VecSize::VecU8, buffer, self.psk_id.as_slice())?;
        encode_vec(VecSize::VecU8, buffer, self.psk_nonce.as_slice())?;
        proof {
            assert(buffer@ =~= start + psk_id_bytes(self@));
        }
        Ok(())
    }

    pub fn decode(b: &[u8], pos: usize) -> (r: Result<(PreSharedKeyId, usize), CodecError>)
        requires
            pos <= b@.len(),
        ensures
            match parse_psk_id(b@.skip(pos as int)) {
                None => r is Err,
                Some((m, k)) => r is Ok && r->Ok_0.0@ == m && r->Ok_0.1 == pos + k,
            },
            r is Ok ==> pos <= r->Ok_0.1 <= b@.len(),
            r is Err ==> r->Err_0 == CodecError::DecodingError,
    {
        reveal(parse_psk_id);
        let ghost s = b@.skip(pos as int);
        let (t, at1) = read_uint(b, pos, VecSize::VecU8)?;
        assert(b@.skip(at1 as int) =~= s.skip((at1 - pos) as int));
        let (psk_id, at2) = decode_vec(VecSize::VecU8, b, at1)?;
        assert(b@.skip(at2 as int) =~= s.skip((at2 - pos) as int));
        let (psk_nonce, at3) = decode_vec(VecSize::VecU8, b, at2)?;
        Ok((PreSharedKeyId { psk_type: t as u8, psk_id, psk_nonce }, at3))
    }
}

/// Appends a vector of pre-shared key identifiers behind its length prefix.
pub fn encode_psk_ids(v: &Vec<PreSharedKeyId>, buffer: &mut Vec<u8>) -> (r: Result<(), CodecError>)
    ensures
        r is Ok <==> psk_ids_ok(psk_views(v@)),
        r is Ok ==> final(buffer)@ == old(buffer)@ + vec_bytes(psk_views(v@), psk_id_enc(), VecSize::VecU16),
{
    reveal(vec_bytes);
    let ghost views = psk_views(v@);
    let mut body: Vec<u8> = Vec::new();
    let mut i: usize = 0;
    while i < v.len()
        invariant
            i <= v@.len(),
            views == psk_views(v@),
            forall|j: int| 0 <= j < i ==> psk_id_ok(#[trigger] views[j]),
            body@ == list_bytes(views.take(i as int), psk_id_enc()),
        decreases v@.len() - i,
    {
        assert(views[i as int] == v@[i as int]@);
        match v[i].encode(&mut body) {
            Ok(()) => {},
            Err(e) => {
                return Err(e);
            },
        }
        proof {
            assert(views.take(i + 1) =~= views.take(i as int).push(views[i as int]));
            lemma_list_bytes_push(views.take(i as int), views[i as int], psk_id_enc());
        }
        i = i + 1;
    }
    proof {
        assert(views.take(i as int) =~= views);
    }
    encode_vec(VecSize::VecU16, buffer, body.as_slice())
}

/// Reads a vector of pre-shared key identifiers behind its length prefix.
pub fn decode_psk_ids(b: &[u8], pos: usize) -> (r: Result<(Vec<PreSharedKeyId>, usize), CodecError>)
    requires
        pos <= b@.len(),
    ensures
        match parse_vec(b@.skip(pos as int), psk_id_parse(), VecSize::VecU16) {
            None => r is Err,
            Some((m, k)) => r is Ok && psk_views(r->Ok_0.0@) == m && r->Ok_0.1 == pos + k,
        },
        r is Ok ==> pos <= r->Ok_0.1 <= b@.len(),
        r is Err ==> r->Err_0 == CodecError::DecodingError,
{
    reveal(parse_vec);
    let (body, next) = decode_vec(VecSize::VecU16, b, pos)?;
    let mut out: Vec<PreSharedKeyId> = Vec::new();
    proof {
        assert(body@.skip(0) =~= body@);
        assert(psk_views(out@) =~= Seq::empty());
        let whole = parse_list(body@, psk_id_parse());
        if whole is Some {
            assert(psk_views(out@) + whole->Some_0 =~= whole->Some_0);
        }
    }
    let mut p: usize = 0;
    while p < body.len()
        invariant
            p <= body@.len(),
            pos <= next <= b@.len(),
            parse_vec(b@.skip(pos as int), psk_id_parse(), VecSize::VecU16) == match parse_list(
                body@,
                psk_id_parse(),
            ) {
                None => None,
                Some(m) => Some((m, (next - pos) as nat)),
            },
            parse_list(body@, psk_id_parse()) == match parse_list(body@.skip(p as int), psk_id_parse()) {
                None => None,
                Some(tail) => Some(psk_views(out@) + tail),
            },
        decreases body@.len() - p,
    {
        let ghost before = out@;
        let (e, at2) = match PreSharedKeyId::decode(body.as_slice(), p) {
            Ok(x) => x,
            Err(err) => {
                proof {
                    let rest = body@.skip(p as int);
                    assert(rest.len() > 0);
                    assert(psk_id_parse()(rest) == parse_psk_id(rest));
                    assert(parse_list(rest, psk_id_parse()) is None);
                }
                return Err(err);
            },
        };
        if at2 == p || at2 > body.len() {
            return Err(CodecError::DecodingError);
        }
        out.push(e);
        proof {
            assert(body@.skip(p as int).skip((at2 - p) as int) =~= body@.skip(at2 as int));
            assert(psk_views(out@) =~= psk_views(before).push(e@));
            let tail = parse_list(body@.skip(at2 as int), psk_id_parse());
            if tail is Some {
                assert(psk_views(out@) + tail->Some_0 =~= psk_views(before) + (seq![e@] + tail->Some_0));
            }
        }
        p = at2;
    }
    proof {
        assert(psk_views(out@) + Seq::empty() =~= psk_views(out@));
    }
    Ok((out, next))
}

// ---------------------------------------------------------------------------
// GroupSecrets
// ---------------------------------------------------------------------------

/// An optional byte vector: a presence byte, then the vector behind a
/// one-byte length.
pub open spec fn optional_bytes(o: Option<Seq<u8>>) -> Seq<u8> {
    match o {
        None => seq![0u8],
        Some(s) => seq![1u8] + opaque_bytes(s, VecSize::VecU8),
    }
}

pub open spec fn parse_optional(b: Seq<u8>) -> Option<(Option<Seq<u8>>, nat)> {
    if b.len() == 0 {
        None
    } else if b[0] == 0 {
        Some((None, 1))
    } else if b[0] == 1 {
        match parse_opaque(b.skip(1), VecSize::VecU8) {
            None => None,
            Some((s, k)) => Some((Some(s), k + 1)),
        }
    } else {
        None
    }
}

pub open spec fn optional_ok(o: Option<Seq<u8>>) -> bool {
    match o {
        None => true,
        Some(s) => s.len() <= 0xff,
    }
}

proof fn lemma_optional_round_trip(o: Option<Seq<u8>>, rest: Seq<u8>)
    requires
        optional_ok(o),
    ensures
        parse_optional(optional_bytes(o) + rest) == Some((o, optional_bytes(o).len())),
{
    let t = optional_bytes(o) + rest;
    match o {
        None => {},
        Some(s) => {
            lemma_opaque_round_trip(s, VecSize::VecU8, rest);
            assert(t.skip(1) =~= opaque_bytes(s, VecSize::VecU8) + rest);
        },
    }
}

pub open spec fn group_secrets_ok(m: GroupSecretsModel) -> bool {
    &&& m.joiner_secret.len() <= 0xff
    &&& optional_ok(m.path_secret)
    &&& psk_ids_ok(m.psks)
}

#[verifier::opaque]
pub open spec fn group_secrets_bytes(m: GroupSecretsModel) -> Seq<u8> {
    opaque_bytes(m.joiner_secret, VecSize::VecU8) + optional_bytes(m.path_secret) + vec_bytes(
        m.psks,
        psk_id_enc(),
        VecSize::VecU16,
    )
}

#[verifier::opaque]
pub open spec fn parse_group_secrets(b: Seq<u8>) -> Option<(GroupSecretsModel, nat)> {
    match parse_opaque(b, VecSize::VecU8) {
        None => None,
        Some((js, n1)) => match parse_optional(b.skip(n1 as int)) {
            None => None,
            Some((ps, n2)) => match parse_vec(
                b.skip((n1 + n2) as int),
                psk_id_parse(),
                VecSize::VecU16,
            ) {
                None => None,
                Some((psks, n3)) => Some(
                    (
                        GroupSecretsModel { joiner_secret: js, path_secret: ps, psks },
                        n1 + n2 + n3,
                    ),
                ),
            },
        },
    }
}

/// Every encodable value of group secrets reads back from its encoding,
/// whatever follows it.
pub proof fn lemma_group_secrets_round_trip(m: GroupSecretsModel, rest: Seq<u8>)
    requires
        group_secrets_ok(m),
    ensures
        parse_group_secrets(group_secrets_bytes(m) + rest) == Some(
            (m, group_secrets_bytes(m).len()),
        ),
{
    reveal(parse_group_secrets);
    reveal(group_secrets_bytes);
    let a = opaque_bytes(m.joiner_secret, VecSize::VecU8);
    let b = optional_bytes(m.path_secret);
    let c = vec_bytes(m.psks, psk_id_enc(), VecSize::VecU16);
    let t = group_secrets_bytes(m) + rest;
    lemma_opaque_round_trip(m.joiner_secret, VecSize::VecU8, b + c + rest);
    lemma_optional_round_trip(m.path_secret, c + rest);
    lemma_psk_ids_invert(m.psks);
    lemma_vec_round_trip(m.psks, psk_id_enc(), psk_id_parse(), VecSize::VecU16, rest);
    assert(t =~= a + (b + c + rest));
    assert(t.skip(a.len() as int) =~= b + (c + rest));
    assert(t.skip((a.len() + b.len()) as int) =~= c + rest);
}

/// The model of group secrets made of borrowed parts.
pub open spec fn group_secrets_model(
    joiner_secret: Secret,
    path_secret: Option<&PathSecret>,
    psks: PreSharedKeys,
) -> GroupSecretsModel {
    GroupSecretsModel {
        joiner_secret: joiner_secret.value@,
        path_secret: match path_secret {
            None => None,
            Some(p) => Some(p.path_secret.value@),
        },
        psks: psk_views(psks.psks@),
    }
}

impl GroupSecrets {
    /// Encodes group secrets from their parts.
    pub fn new_encoded(
        joiner_secret: &Secret,
        path_secret: Option<&PathSecret>,
        psks: &PreSharedKeys,
    ) -> (r: Result<Vec<u8>, CodecError>)
        ensures
            r is Ok <==> group_secrets_ok(group_secrets_model(*joiner_secret, path_secret, *psks)),
            r is Ok ==> r->Ok_0@ == group_secrets_bytes(
                group_secrets_model(*joiner_secret, path_secret, *psks),
            ),
    {
        reveal(group_secrets_bytes);
        let ghost m = group_secrets_model(*joiner_secret, path_secret, *psks);
        let mut out: Vec<u8> = Vec::new();
        if joiner_secret.value.len() > 0xff {
            return Err(CodecError::EncodingError);
        }
        let mut tail: Vec<u8> = Vec::new();
        encode_psk_ids(&psks.psks, &mut tail)?;
        encode_vec(VecSize::VecU8, &mut out, joiner_secret.value.as_slice())?;
        match path_secret {
            None => {
                out.push(0u8);
            },
            Some(p) => {
                if p.path_secret.value.len() > 0xff {
                    return Err(CodecError::EncodingError);
                }
                out.push(1u8);
                encode_vec(VecSize::VecU8, &mut out, p.path_secret.value.as_slice())?;
            },
        }
        append_bytes(&mut out, &tail);
        proof {
            assert(out@ =~= group_secrets_bytes(m));
        }
        Ok(out)
    }

    /// Encodes the group secrets.
    pub fn encode(&self, buffer: &mut Vec<u8>) -> (r: Result<(), CodecError>)
        ensures
            r is Ok <==> group_secrets_ok(self@),
            r is Ok ==> final(buffer)@ == old(buffer)@ + group_secrets_bytes(self@),
    {
        let bytes = GroupSecrets::new_encoded(
            &self.joiner_secret,
            match &self.path_secret {
                None => None,
                Some(p) => Some(p),
            },
            &self.psks,
        )?;
        append_bytes(buffer, &bytes);
        Ok(())
    }

    /// Decodes group secrets; the secrets carry the default tag until
    /// `config` sets the group's ciphersuite and version.
    pub fn decode(b: &[u8], pos: usize) -> (r: Result<(GroupSecrets, usize), CodecError>)
        requires
            pos <= b@.len(),
        ensures
            match parse_group_secrets(b@.skip(pos as int)) {
                None => r is Err,
                Some((m, k)) => r is Ok && r->Ok_0.0@ == m && r->Ok_0.1 == pos + k,
            },
            r is Ok ==> pos <= r->Ok_0.1 <= b@.len(),
            r is Err ==> r->Err_0 == CodecError::DecodingError,
    {
        reveal(parse_group_secrets);
        let suite = CiphersuiteName::MLS10_128_DHKEMX25519_AES128GCM_SHA256_Ed25519;
        let ghost s = b@.skip(pos as int);
        let (js, at1) = decode_vec(VecSize::VecU8, b, pos)?;
        assert(b@.skip(at1 as int) =~= s.skip((at1 - pos) as int));
        if at1 >= b.len() {
            return Err(CodecError::DecodingError);
        }
        let tag = b[at1];
        let ghost s1 = b@.skip(at1 as int);
        assert(s1[0] == tag);
        let (path_secret, at2) = if tag == 0 {
            (None, at1 + 1)
        } else if tag == 1 {
            let (ps, at2) = decode_vec(VecSize::VecU8, b, at1 + 1)?;
            assert(b@.skip(at1 + 1) =~= s1.skip(1));
            (
                Some(
                    PathSecret {
                        path_secret: Secret {
                            ciphersuite: suite,
                            mls_version: ProtocolVersion::Mls10,
                            value: ps,
                        },
                    },
                ),
                at2,
            )
        } else {
            return Err(CodecError::DecodingError);
        };
        assert(parse_optional(s1) == Some((path_secret_view(path_secret), (at2 - at1) as nat)));
        assert(b@.skip(at2 as int) =~= s.skip((at2 - pos) as int));
        let (psks, at3) = decode_psk_ids(b, at2)?;
        Ok(
            (
                GroupSecrets {
                    joiner_secret: Secret {
                        ciphersuite: suite,
                        mls_version: ProtocolVersion::Mls10,
                        value: js,
                    },
                    path_secret,
                    psks: PreSharedKeys { psks },
                },
                at3,
            ),
        )
    }

    /// Encoded group secrets of random values: a joiner secret, a path
    /// secret and one external pre-shared key, each one hash output long.
    /// Nothing where the random number generator fails.
    pub fn random_encoded(
        ciphersuite: CiphersuiteName,
        backend: &OpenMlsRustCrypto,
        version: ProtocolVersion,
    ) -> (r: Option<Vec<u8>>)
        ensures
            r is Some ==> parse_group_secrets(r->Some_0@) is Some && parse_group_secrets(
                r->Some_0@,
            )->Some_0.1 == r->Some_0@.len() && {
                let m = parse_group_secrets(r->Some_0@)->Some_0.0;
                let len = hash_length(suite_hash(ciphersuite));
                    &&& m.joiner_secret.len() == len
                    &&& m.path_secret is Some && m.path_secret->Some_0.len() == len
                    &&& m.psks.len() == 1
                    &&& m.psks[0].psk_type == 1
                    &&& m.psks[0].psk_id.len() == len
                    &&& m.psks[0].psk_nonce.len() == len
                },
    {
        let len = ciphersuite.hash_length();
        let psk_id = random_vec(backend, len)?;
        let psk_nonce = random_vec(backend, len)?;
        let joiner = random_vec(backend, len)?;
        let path = random_vec(backend, len)?;
        let mut psks: Vec<PreSharedKeyId> = Vec::new();
        psks.push(PreSharedKeyId { psk_type: 1, psk_id, psk_nonce });
        let psks = PreSharedKeys { psks };
        let joiner_secret = Secret { ciphersuite, mls_version: version, value: joiner };
        let path_secret = PathSecret {
            path_secret: Secret { ciphersuite, mls_version: version, value: path },
        };
        let ghost m = group_secrets_model(joiner_secret, Some(&path_secret), psks);
        proof {
            assert(m.psks.len() == 1);
            assert(psk_id_ok(m.psks[0]));
            reveal(crate::codec::vec_bytes);
            assert(list_bytes(m.psks, psk_id_enc()) == psk_id_enc()(m.psks[0]) + list_bytes(
                m.psks.skip(1),
                psk_id_enc(),
            ));
            assert(m.psks.skip(1) =~= Seq::<PreSharedKeyIdModel>::empty());
            reveal(psk_id_bytes);
            assert(group_secrets_ok(m));
        }
        match GroupSecrets::new_encoded(&joiner_secret, Some(&path_secret), &psks) {
            Ok(bytes) => {
                proof {
                    lemma_group_secrets_round_trip(m, Seq::empty());
                    assert(bytes@ + Seq::<u8>::empty() =~= bytes@);
                }
                Some(bytes)
            },
            Err(_) => None,
        }
    }

    /// Tags the secrets with the group's ciphersuite and protocol version.
    pub fn config(self, ciphersuite: CiphersuiteName, mls_version: ProtocolVersion) -> (r: GroupSecrets)
        ensures
            r@ == self@,
            r.joiner_secret.ciphersuite == ciphersuite,
            r.joiner_secret.mls_version == mls_version,
            r.path_secret is Some ==> r.path_secret->Some_0.path_secret.ciphersuite == ciphersuite
                && r.path_secret->Some_0.path_secret.mls_version == mls_version,
    {
        let mut s = self;
        s.joiner_secret.config(ciphersuite, mls_version);
        match &mut s.path_secret {
            Some(p) => {
                p.path_secret.config(ciphersuite, mls_version);
            },
            None => {},
        }
        s
    }
}

// ---------------------------------------------------------------------------
// GroupInfo
// ---------------------------------------------------------------------------

/// The signed content of a group info.
pub struct GroupInfoPayload {
    pub group_id: Vec<u8>,
    pub epoch: u64,
    pub tree_hash: Vec<u8>,
    pub confirmed_transcript_hash: Vec<u8>,
    pub group_context_extensions: Vec<Extension>,
    pub other_extensions: Vec<Extension>,
    pub confirmation_tag: ConfirmationTag,
    pub signer_index: LeafIndex,
}

pub struct GroupInfoPayloadModel {
    pub group_id: Seq<u8>,
    pub epoch: u64,
    pub tree_hash: Seq<u8>,
    pub confirmed_transcript_hash: Seq<u8>,
    pub group_context_extensions: Seq<ExtensionModel>,
    pub other_extensions: Seq<ExtensionModel>,
    pub confirmation_tag: Seq<u8>,
    pub signer_index: nat,
}

impl View for GroupInfoPayload {
    type V = GroupInfoPayloadModel;

    open spec fn view(&self) -> GroupInfoPayloadModel {
        GroupInfoPayloadModel {
            group_id: self.group_id@,
            epoch: self.epoch,
            tree_hash: self.tree_hash@,
            confirmed_transcript_hash: self.confirmed_transcript_hash@,
            group_context_extensions: extension_views(self.group_context_extensions@),
            other_extensions: extension_views(self.other_extensions@),
            confirmation_tag: self.confirmation_tag.0.mac_value@,
            signer_index: self.signer_index@,
        }
    }
}

/// A group info: its payload and the signer's signature over the payload's
/// encoding.
pub struct GroupInfo {
    pub payload: GroupInfoPayload,
    pub signature: Vec<u8>,
}

pub open spec fn payload_ok(m: GroupInfoPayloadModel) -> bool {
    &&& m.group_id.len() <= 0xff
    &&& m.tree_hash.len() <= 0xff
    &&& m.confirmed_transcript_hash.len() <= 0xff
    &&& extensions_ok(m.group_context_extensions)
    &&& extensions_ok(m.other_extensions)
    &&& m.confirmation_tag.len() <= 0xff
    &&& m.signer_index <= 0xffff_ffff
}

#[verifier::opaque]
pub open spec fn payload_head_bytes(m: GroupInfoPayloadModel) -> Seq<u8> {
    opaque_bytes(m.group_id, VecSize::VecU8) + u64_bytes(m.epoch) + opaque_bytes(
        m.tree_hash,
        VecSize::VecU8,
    ) + opaque_bytes(m.confirmed_transcript_hash, VecSize::VecU8)
}

#[verifier::opaque]
pub open spec fn payload_tail_bytes(m: GroupInfoPayloadModel) -> Seq<u8> {
    vec_bytes(m.group_context_extensions, extension_enc(), VecSize::VecU32) + vec_bytes(
        m.other_extensions,
        extension_enc(),
        VecSize::VecU32,
    ) + opaque_bytes(m.confirmation_tag, VecSize::VecU8) + uint_bytes(
        m.signer_index,
        VecSize::VecU32,
    )
}

/// The bytes a group info's signature covers.
pub open spec fn payload_bytes(m: GroupInfoPayloadModel) -> Seq<u8> {
    payload_head_bytes(m) + payload_tail_bytes(m)
}

#[verifier::opaque]
pub open spec fn parse_payload_head(b: Seq<u8>) -> Option<((Seq<u8>, u64, Seq<u8>, Seq<u8>), nat)> {
    match parse_opaque(b, VecSize::VecU8) {
        None => None,
        Some((gid, n1)) => match parse_u64(b.skip(n1 as int)) {
            None => None,
            Some((ep, n2)) => match parse_opaque(b.skip((n1 + n2) as int), VecSize::VecU8) {
                None => None,
                Some((th, n3)) => match parse_opaque(
                    b.skip((n1 + n2 + n3) as int),
                    VecSize::VecU8,
                ) {
                    None => None,
                    Some((cth, n4)) => Some(((gid, ep, th, cth), n1 + n2 + n3 + n4)),
                },
            },
        },
    }
}

#[verifier::opaque]
pub open spec fn parse_payload_tail(b: Seq<u8>) -> Option<
    ((Seq<ExtensionModel>, Seq<ExtensionModel>, Seq<u8>, nat), nat),
> {
    match parse_vec(b, extension_parse(), VecSize::VecU32) {
        None => None,
        Some((gce, n1)) => match parse_vec(b.skip(n1 as int), extension_parse(), VecSize::VecU32) {
            None => None,
            Some((oe, n2)) => match parse_opaque(b.skip((n1 + n2) as int), VecSize::VecU8) {
                None => None,
                Some((tag, n3)) => match parse_uint(
                    b.skip((n1 + n2 + n3) as int),
                    VecSize::VecU32,
                ) {
                    None => None,
                    Some((si, n4)) => Some(((gce, oe, tag, si), n1 + n2 + n3 + n4)),
                },
            },
        },
    }
}

pub open spec fn parse_payload(b: Seq<u8>) -> Option<(GroupInfoPayloadModel, nat)> {
    match parse_payload_head(b) {
        None => None,
        Some(((gid, ep, th, cth), n1)) => match parse_payload_tail(b.skip(n1 as int)) {
            None => None,
            Some(((gce, oe, tag, si), n2)) => Some(
                (
                    GroupInfoPayloadModel {
                        group_id: gid,
                        epoch: ep,
                        tree_hash: th,
                        confirmed_transcript_hash: cth,
                        group_context_extensions: gce,
                        other_extensions: oe,
                        confirmation_tag: tag,
                        signer_index: si,
                    },
                    n1 + n2,
                ),
            ),
        },
    }
}

#[verifier::rlimit(50)]
proof fn lemma_payload_head(m: GroupInfoPayloadModel, rest: Seq<u8>)
    requires
        payload_ok(m),
    ensures
        parse_payload_head(payload_head_bytes(m) + rest) == Some(
            (
                (m.group_id, m.epoch, m.tree_hash, m.confirmed_transcript_hash),
                payload_head_bytes(m).len(),
            ),
        ),
{
    reveal(parse_payload_head);
    reveal(payload_head_bytes);
    let a = opaque_bytes(m.group_id, VecSize::VecU8);
    let b = u64_bytes(m.epoch);
    let c = opaque_bytes(m.tree_hash, VecSize::VecU8);
    let d = opaque_bytes(m.confirmed_transcript_hash, VecSize::VecU8);
    let t = payload_head_bytes(m) + rest;
    lemma_opaque_round_trip(m.group_id, VecSize::VecU8, b + c + d + rest);
    lemma_u64_round_trip(m.epoch, c + d + rest);
    lemma_opaque_round_trip(m.tree_hash, VecSize::VecU8, d + rest);
    lemma_opaque_round_trip(m.confirmed_transcript_hash, VecSize::VecU8, rest);
    assert(t =~= a + (b + c + d + rest));
    assert(t.skip(a.len() as int) =~= b + (c + d + rest));
    assert(t.skip((a.len() + b.len()) as int) =~= c + (d + rest));
    assert(t.skip((a.len() + b.len() + c.len()) as int) =~= d + rest);
}

#[verifier::rlimit(50)]
proof fn lemma_payload_tail(m: GroupInfoPayloadModel, rest: Seq<u8>)
    requires
        payload_ok(m),
    ensures
        parse_payload_tail(payload_tail_bytes(m) + rest) == Some(
            (
                (m.group_context_extensions, m.other_extensions, m.confirmation_tag, m.signer_index),
                payload_tail_bytes(m).len(),
            ),
        ),
{
    reveal(parse_payload_tail);
    reveal(payload_tail_bytes);
    let a = vec_bytes(m.group_context_extensions, extension_enc(), VecSize::VecU32);
    let b = vec_bytes(m.other_extensions, extension_enc(), VecSize::VecU32);
    let c = opaque_bytes(m.confirmation_tag, VecSize::VecU8);
    let d = uint_bytes(m.signer_index, VecSize::VecU32);
    let t = payload_tail_bytes(m) + rest;
    lemma_extensions_invert(m.group_context_extensions);
    lemma_extensions_invert(m.other_extensions);
    lemma_vec_round_trip(
        m.group_context_extensions,
        extension_enc(),
        extension_parse(),
        VecSize::VecU32,
        b + c + d + rest,
    );
    lemma_vec_round_trip(
        m.other_extensions,
        extension_enc(),
        extension_parse(),
        VecSize::VecU32,
        c + d + rest,
    );
    lemma_opaque_round_trip(m.confirmation_tag, VecSize::VecU8, d + rest);
    lemma_uint_round_trip(m.signer_index, VecSize::VecU32, rest);
    assert(t =~= a + (b + c + d + rest));
    assert(t.skip(a.len() as int) =~= b + (c + d + rest));
    assert(t.skip((a.len() + b.len()) as int) =~= c + (d + rest));
    assert(t.skip((a.len() + b.len() + c.len()) as int) =~= d + rest);
}

/// Every encodable group info payload reads back from its encoding,
/// whatever follows it.
pub proof fn lemma_payload_round_trip(m: GroupInfoPayloadModel, rest: Seq<u8>)
    requires
        payload_ok(m),
    ensures
        parse_payload(payload_bytes(m) + rest) == Some((m, payload_bytes(m).len())),
{
    let h = payload_head_bytes(m);
    let tl = payload_tail_bytes(m);
    let t = payload_bytes(m) + rest;
    lemma_payload_head(m, tl + rest);
    lemma_payload_tail(m, rest);
    assert(t =~= h + (tl + rest));
    assert(t.skip(h.len() as int) =~= tl + rest);
}

pub open spec fn group_info_bytes(payload: GroupInfoPayloadModel, signature: Seq<u8>) -> Seq<u8> {
    payload_bytes(payload) + opaque_bytes(signature, VecSize::VecU16)
}

pub open spec fn parse_group_info(b: Seq<u8>) -> Option<((GroupInfoPayloadModel, Seq<u8>), nat)> {
    match parse_payload(b) {
        None => None,
        Some((p, n1)) => match parse_opaque(b.skip(n1 as int), VecSize::VecU16) {
            None => None,
            Some((sig, n2)) => Some(((p, sig), n1 + n2)),
        },
    }
}

/// Every encodable group info reads back from its encoding, whatever
/// follows it.
pub proof fn lemma_group_info_round_trip(
    payload: GroupInfoPayloadModel,
    signature: Seq<u8>,
    rest: Seq<u8>,
)
    requires
        payload_ok(payload),
        signature.len() <= 0xffff,
    ensures
        parse_group_info(group_info_bytes(payload, signature) + rest) == Some(
            ((payload, signature), group_info_bytes(payload, signature).len()),
        ),
{
    let p = payload_bytes(payload);
    let s = opaque_bytes(signature, VecSize::VecU16);
    let t = group_info_bytes(payload, signature) + rest;
    lemma_payload_round_trip(payload, s + rest);
    lemma_opaque_round_trip(signature, VecSize::VecU16, rest);
    assert(t =~= p + (s + rest));
    assert(t.skip(p.len() as int) =~= s + rest);
}

impl GroupInfoPayload {
    /// A payload from its parts.
    pub fn new(
        group_id: Vec<u8>,
        epoch: u64,
        tree_hash: Vec<u8>,
        confirmed_transcript_hash: Vec<u8>,
        group_context_extensions: Vec<Extension>,
        other_extensions: Vec<Extension>,
        confirmation_tag: ConfirmationTag,
        signer_index: LeafIndex,
    ) -> (r: GroupInfoPayload)
        ensures
            r.group_id@ == group_id@,
            r.epoch == epoch,
            r.tree_hash@ == tree_hash@,
            r.confirmed_transcript_hash@ == confirmed_transcript_hash@,
            r.group_context_extensions@ == group_context_extensions@,
            r.other_extensions@ == other_extensions@,
            r.confirmation_tag.0.mac_value@ == confirmation_tag.0.mac_value@,
            r.signer_index == signer_index,
    {
        GroupInfoPayload {
            group_id,
            epoch,
            tree_hash,
            confirmed_transcript_hash,
            group_context_extensions,
            other_extensions,
            confirmation_tag,
            signer_index,
        }
    }

    /// The encoding of the payload: the bytes that the signature covers.
    pub fn unsigned_payload(&self) -> (r: Result<Vec<u8>, CodecError>)
        ensures
            r is Ok <==> payload_ok(self@),
            r is Ok ==> r->Ok_0@ == payload_bytes(self@),
    {
        reveal(payload_head_bytes);
        reveal(payload_tail_bytes);
        let mut out: Vec<u8> = Vec::new();
        if self.group_id.len() > 0xff || self.tree_hash.len() > 0xff
            || self.confirmed_transcript_hash.len() > 0xff
            || self.confirmation_tag.0.mac_value.len() > 0xff {
            return Err(CodecError::EncodingError);
        }
        let mut tail: Vec<u8> = Vec::new();
        encode_extensions(&self.group_context_extensions, &mut tail)?;
        encode_extensions(&self.other_extensions, &mut tail)?;
        encode_vec(VecSize::VecU8, &mut tail, self.confirmation_tag.0.mac_value.as_slice())?;
        write_uint(&mut tail, self.signer_index.0 as u64, VecSize::VecU32);
        encode_vec(VecSize::VecU8, &mut out, self.group_id.as_slice())?;
        write_u64(&mut out, self.epoch);
        encode_vec(VecSize::VecU8, &mut out, self.tree_hash.as_slice())?;
        encode_vec(VecSize::VecU8, &mut out, self.confirmed_transcript_hash.as_slice())?;
        append_bytes(&mut out, &tail);
        proof {
            assert(out@ =~= payload_bytes(self@));
        }
        Ok(out)
    }

    fn decode_head(b: &[u8], pos: usize) -> (r: Result<
        ((Vec<u8>, u64, Vec<u8>, Vec<u8>), usize),
        CodecError,
    >)
        requires
            pos <= b@.len(),
        ensures
            match parse_payload_head(b@.skip(pos as int)) {
                None => r is Err,
                Some((m, k)) => r is Ok && r->Ok_0.0.0@ == m.0 && r->Ok_0.0.1 == m.1
                    && r->Ok_0.0.2@ == m.2 && r->Ok_0.0.3@ == m.3 && r->Ok_0.1 == pos + k,
            },
            r is Ok ==> pos <= r->Ok_0.1 <= b@.len(),
            r is Err ==> r->Err_0 == CodecError::DecodingError,
    {
        reveal(parse_payload_head);
        let ghost s = b@.skip(pos as int);
        let (group_id, at1) = decode_vec(VecSize::VecU8, b, pos)?;
        assert(b@.skip(at1 as int) =~= s.skip((at1 - pos) as int));
        let (epoch, at2) = read_u64(b, at1)?;
        assert(b@.skip(at2 as int) =~= s.skip((at2 - pos) as int));
        let (tree_hash, at3) = decode_vec(VecSize::VecU8, b, at2)?;
        assert(b@.skip(at3 as int) =~= s.skip((at3 - pos) as int));
        let (confirmed_transcript_hash, at4) = decode_vec(VecSize::VecU8, b, at3)?;
        Ok(((group_id, epoch, tree_hash, confirmed_transcript_hash), at4))
    }

    fn decode_tail(b: &[u8], pos: usize) -> (r: Result<
        ((Vec<Extension>, Vec<Extension>, Vec<u8>, u64), usize),
        CodecError,
    >)
        requires
            pos <= b@.len(),
        ensures
            match parse_payload_tail(b@.skip(pos as int)) {
                None => r is Err,
                Some((m, k)) => r is Ok && extension_views(r->Ok_0.0.0@) == m.0 && extension_views(
                    r->Ok_0.0.1@,
                ) == m.1 && r->Ok_0.0.2@ == m.2 && r->Ok_0.0.3 == m.3 && r->Ok_0.1 == pos + k,
            },
            r is Ok ==> pos <= r->Ok_0.1 <= b@.len(),
            r is Err ==> r->Err_0 == CodecError::DecodingError,
            r is Ok ==> r->Ok_0.0.3 <= 0xffff_ffff,
    {
        reveal(parse_payload_tail);
        let ghost s = b@.skip(pos as int);
        let (group_context_extensions, at1) = decode_extensions(b, pos)?;
        assert(b@.skip(at1 as int) =~= s.skip((at1 - pos) as int));
        let (other_extensions, at2) = decode_extensions(b, at1)?;
        assert(b@.skip(at2 as int) =~= s.skip((at2 - pos) as int));
        let (tag, at3) = decode_vec(VecSize::VecU8, b, at2)?;
        assert(b@.skip(at3 as int) =~= s.skip((at3 - pos) as int));
        let (signer, at4) = read_uint(b, at3, VecSize::VecU32)?;
        Ok(((group_context_extensions, other_extensions, tag, signer), at4))
    }

    pub fn decode(b: &[u8], pos: usize) -> (r: Result<(GroupInfoPayload, usize), CodecError>)
        requires
            pos <= b@.len(),
        ensures
            match parse_payload(b@.skip(pos as int)) {
                None => r is Err,
                Some((m, k)) => r is Ok && r->Ok_0.0@ == m && r->Ok_0.1 == pos + k,
            },
            r is Ok ==> pos <= r->Ok_0.1 <= b@.len(),
            r is Err ==> r->Err_0 == CodecError::DecodingError,
    {
        let ghost s = b@.skip(pos as int);
        let ((group_id, epoch, tree_hash, confirmed_transcript_hash), at1) =
            GroupInfoPayload::decode_head(b, pos)?;
        assert(b@.skip(at1 as int) =~= s.skip((at1 - pos) as int));
        let ((group_context_extensions, other_extensions, tag, signer), at2) =
            GroupInfoPayload::decode_tail(b, at1)?;
        Ok(
            (
                GroupInfoPayload {
                    group_id,
                    epoch,
                    tree_hash,
                    confirmed_transcript_hash,
                    group_context_extensions,
                    other_extensions,
                    confirmation_tag: ConfirmationTag(Mac { mac_value: tag }),
                    signer_index: LeafIndex(signer as u32),
                },
                at2,
            ),
        )
    }
}

/// Failures of signing with a credential.
#[derive(Clone, Copy, Debug, PartialEq, Eq, Structural)]
pub enum CredentialError {
    UnsupportedSignatureScheme,
    EncodingError,
    SigningFailed,
}

impl GroupInfoPayload {
    /// Signs the payload's encoding with the credential's key.
    pub fn sign(
        self,
        backend: &OpenMlsRustCrypto,
        credential_bundle: &CredentialBundle,
    ) -> (r: Result<GroupInfo, CredentialError>)
        ensures
            signature_of_code(credential_bundle.credential.signature_scheme) is None ==> r == Err::<
                GroupInfo,
                CredentialError,
            >(CredentialError::UnsupportedSignatureScheme),
            signature_of_code(credential_bundle.credential.signature_scheme) is Some
                && !payload_ok(self@) ==> r == Err::<GroupInfo, CredentialError>(
                CredentialError::EncodingError,
            ),
            r is Ok ==> r->Ok_0.payload@ == self@ && r->Ok_0.signature@ == signature_of(
                signature_of_code(credential_bundle.credential.signature_scheme)->Some_0,
                payload_bytes(self@),
                credential_bundle.signature_private_key@,
            )->Some_0,
            r is Ok <==> signature_of_code(credential_bundle.credential.signature_scheme) is Some
                && payload_ok(self@) && signature_of(
                signature_of_code(credential_bundle.credential.signature_scheme)->Some_0,
                payload_bytes(self@),
                credential_bundle.signature_private_key@,
            ) is Some,
    {
        let scheme = match SignatureAlgorithm::from_code(credential_bundle.credential.signature_scheme) {
            Some(s) => s,
            None => {
                return Err(CredentialError::UnsupportedSignatureScheme);
            },
        };
        let tbs = match self.unsigned_payload() {
            Ok(b) => b,
            Err(_) => {
                return Err(CredentialError::EncodingError);
            },
        };
        match sign(backend, scheme, tbs.as_slice(), credential_bundle.signature_private_key.as_slice()) {
            Ok(signature) => Ok(GroupInfo { payload: self, signature }),
            Err(_) => Err(CredentialError::SigningFailed),
        }
    }
}

impl GroupInfo {
    /// Signs the payload again, dropping the old signature.
    pub fn re_sign(
        self,
        credential_bundle: &CredentialBundle,
        backend: &OpenMlsRustCrypto,
    ) -> (r: Result<GroupInfo, CredentialError>)
        ensures
            r is Ok ==> r->Ok_0.payload@ == self.payload@ && r->Ok_0.signature@ == signature_of(
                signature_of_code(credential_bundle.credential.signature_scheme)->Some_0,
                payload_bytes(self.payload@),
                credential_bundle.signature_private_key@,
            )->Some_0,
            r is Ok <==> signature_of_code(credential_bundle.credential.signature_scheme) is Some
                && payload_ok(self.payload@) && signature_of(
                signature_of_code(credential_bundle.credential.signature_scheme)->Some_0,
                payload_bytes(self.payload@),
                credential_bundle.signature_private_key@,
            ) is Some,
    {
        self.payload.sign(backend, credential_bundle)
    }

    /// A group info from its payload and signature.
    pub fn from_payload(payload: GroupInfoPayload, signature: Vec<u8>) -> (r: GroupInfo)
        ensures
            r.payload@ == payload@,
            r.signature@ == signature@,
    {
        GroupInfo { payload, signature }
    }

    pub fn tree_hash(&self) -> (r: &[u8])
        ensures
            r@ == self.payload.tree_hash@,
    {
        self.payload.tree_hash.as_slice()
    }

    pub fn signer_index(&self) -> (r: LeafIndex)
        ensures
            r == self.payload.signer_index,
    {
        self.payload.signer_index
    }

    pub fn group_id(&self) -> (r: &[u8])
        ensures
            r@ == self.payload.group_id@,
    {
        self.payload.group_id.as_slice()
    }

    pub fn epoch(&self) -> (r: u64)
        ensures
            r == self.payload.epoch,
    {
        self.payload.epoch
    }

    pub fn confirmed_transcript_hash(&self) -> (r: &[u8])
        ensures
            r@ == self.payload.confirmed_transcript_hash@,
    {
        self.payload.confirmed_transcript_hash.as_slice()
    }

    pub fn confirmation_tag(&self) -> (r: &ConfirmationTag)
        ensures
            r.0.mac_value@ == self.payload.confirmation_tag.0.mac_value@,
    {
        &self.payload.confirmation_tag
    }

    pub fn other_extensions(&self) -> (r: &[Extension])
        ensures
            r@ == self.payload.other_extensions@,
    {
        self.payload.other_extensions.as_slice()
    }

    pub fn group_context_extensions(&self) -> (r: &[Extension])
        ensures
            r@ == self.payload.group_context_extensions@,
    {
        self.payload.group_context_extensions.as_slice()
    }

    /// Replaces the other extensions (the signature is then stale).
    pub fn set_other_extensions(&mut self, extensions: Vec<Extension>)
        ensures
            final(self).payload.other_extensions@ == extensions@,
            final(self).payload.group_id@ == old(self).payload.group_id@,
            final(self).payload.epoch == old(self).payload.epoch,
            final(self).payload.tree_hash@ == old(self).payload.tree_hash@,
            final(self).payload.confirmed_transcript_hash@ == old(
                self,
            ).payload.confirmed_transcript_hash@,
            final(self).payload.group_context_extensions@ == old(
                self,
            ).payload.group_context_extensions@,
            final(self).payload.confirmation_tag.0.mac_value@ == old(
                self,
            ).payload.confirmation_tag.0.mac_value@,
            final(self).payload.signer_index == old(self).payload.signer_index,
            final(self).signature@ == old(self).signature@,
    {
        self.payload.other_extensions = extensions;
    }

    pub fn signature(&self) -> (r: &[u8])
        ensures
            r@ == self.signature@,
    {
        self.signature.as_slice()
    }

    /// The bytes that the signature covers.
    pub fn unsigned_payload(&self) -> (r: Result<Vec<u8>, CodecError>)
        ensures
            r is Ok <==> payload_ok(self.payload@),
            r is Ok ==> r->Ok_0@ == payload_bytes(self.payload@),
    {
        self.payload.unsigned_payload()
    }

    pub fn encode(&self, buffer: &mut Vec<u8>) -> (r: Result<(), CodecError>)
        ensures
            r is Ok <==> payload_ok(self.payload@) && self.signature@.len() <= 0xffff,
            r is Ok ==> final(buffer)@ == old(buffer)@ + group_info_bytes(
                self.payload@,
                self.signature@,
            ),
    {
        if self.signature.len() > 0xffff {
            return Err(CodecError::EncodingError);
        }
        let bytes = self.payload.unsigned_payload()?;
        let ghost start = buffer@;
        append_bytes(buffer, &bytes);
        encode_vec(VecSize::VecU16, buffer, self.signature.as_slice())?;
        proof {
            assert(buffer@ =~= start + group_info_bytes(self.payload@, self.signature@));
        }
        Ok(())
    }

    pub fn decode(b: &[u8], pos: usize) -> (r: Result<(GroupInfo, usize), CodecError>)
        requires
            pos <= b@.len(),
        ensures
            match parse_group_info(b@.skip(pos as int)) {
                None => r is Err,
                Some((m, k)) => r is Ok && r->Ok_0.0.payload@ == m.0 && r->Ok_0.0.signature@
                    == m.1 && r->Ok_0.1 == pos + k,
            },
            r is Ok ==> pos <= r->Ok_0.1 <= b@.len(),
            r is Err ==> r->Err_0 == CodecError::DecodingError,
    {
        let ghost s = b@.skip(pos as int);
        let (payload, at1) = GroupInfoPayload::decode(b, pos)?;
        assert(b@.skip(at1 as int) =~= s.skip((at1 - pos) as int));
        let (signature, at2) = decode_vec(VecSize::VecU16, b, at1)?;
        Ok((GroupInfo { payload, signature }, at2))
    }
}

// ---------------------------------------------------------------------------
// GroupContext
// ---------------------------------------------------------------------------

/// The group's state in an epoch, bound into its key schedule.
pub struct GroupContext {
    pub group_id: Vec<u8>,
    pub epoch: u64,
    pub tree_hash: Vec<u8>,
    pub confirmed_transcript_hash: Vec<u8>,
    pub extensions: Vec<Extension>,
}

pub open spec fn group_context_ok(
    group_id: Seq<u8>,
    tree_hash: Seq<u8>,
    confirmed_transcript_hash: Seq<u8>,
    extensions: Seq<ExtensionModel>,
) -> bool {
    group_id.len() <= 0xff && tree_hash.len() <= 0xff && confirmed_transcript_hash.len() <= 0xff
        && extensions_ok(extensions)
}

/// The encoding of a group context.
pub open spec fn group_context_bytes(
    group_id: Seq<u8>,
    epoch: u64,
    tree_hash: Seq<u8>,
    confirmed_transcript_hash: Seq<u8>,
    extensions: Seq<ExtensionModel>,
) -> Seq<u8> {
    opaque_bytes(group_id, VecSize::VecU8) + u64_bytes(epoch) + opaque_bytes(
        tree_hash,
        VecSize::VecU8,
    ) + opaque_bytes(confirmed_transcript_hash, VecSize::VecU8) + vec_bytes(
        extensions,
        extension_enc(),
        VecSize::VecU32,
    )
}

impl GroupContext {
    pub fn encode(&self) -> (r: Result<Vec<u8>, CodecError>)
        ensures
            r is Ok <==> group_context_ok(
                self.group_id@,
                self.tree_hash@,
                self.confirmed_transcript_hash@,
                extension_views(self.extensions@),
            ),
            r is Ok ==> r->Ok_0@ == group_context_bytes(
                self.group_id@,
                self.epoch,
                self.tree_hash@,
                self.confirmed_transcript_hash@,
                extension_views(self.extensions@),
            ),
    {
        let mut out: Vec<u8> = Vec::new();
        if self.group_id.len() > 0xff || self.tree_hash.len() > 0xff
            || self.confirmed_transcript_hash.len() > 0xff {
            return Err(CodecError::EncodingError);
        }
        let mut tail: Vec<u8> = Vec::new();
        encode_extensions(&self.extensions, &mut tail)?;
        encode_vec(VecSize::VecU8, &mut out, self.group_id.as_slice())?;
        write_u64(&mut out, self.epoch);
        encode_vec(VecSize::VecU8, &mut out, self.tree_hash.as_slice())?;
        encode_vec(VecSize::VecU8, &mut out, self.confirmed_transcript_hash.as_slice())?;
        append_bytes(&mut out, &tail);
        proof {
            assert(out@ =~= group_context_bytes(
                self.group_id@,
                self.epoch,
                self.tree_hash@,
                self.confirmed_transcript_hash@,
                extension_views(self.extensions@),
            ));
        }
        Ok(out)
    }
}

} // verus!
