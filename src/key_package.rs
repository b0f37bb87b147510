//! Key packages: a member's credential, HPKE init key, extensions and
//! signature, with their wire encoding.

use vstd::prelude::*;
use crate::codec::{
    copy_bytes,
    append_bytes,
    lemma_list_bytes_push,
    CodecError, VecSize, decode_vec, encode_vec, list_bytes, lemma_opaque_round_trip,
    lemma_uint_round_trip, lemma_vec_round_trip, opaque_bytes, parse_opaque, parse_uint, parse_vec,
    read_uint, uint_bytes, vec_bytes, write_uint, inverts, parse_list,
};

verus! {

/// A basic credential: identity, signature scheme and signature public key.
#[derive(Clone, Debug, PartialEq, Eq)]
pub struct Credential {
    pub credential_type: u16,
    pub identity: Vec<u8>,
    pub signature_scheme: u16,
    pub public_key: Vec<u8>,
}

pub struct CredentialModel {
    pub credential_type: u16,
    pub identity: Seq<u8>,
    pub signature_scheme: u16,
    pub public_key: Seq<u8>,
}

impl View for Credential {
    type V = CredentialModel;

    open spec fn view(&self) -> CredentialModel {
        CredentialModel {
            credential_type: self.credential_type,
            identity: self.identity@,
            signature_scheme: self.signature_scheme,
            public_key: self.public_key@,
        }
    }
}

/// A credential with the private key of its signature key pair.
pub struct CredentialBundle {
    pub credential: Credential,
    pub signature_private_key: Vec<u8>,
}

/// An extension: its type and its opaque data.
#[derive(Clone, Debug, PartialEq, Eq)]
pub struct Extension {
    pub extension_type: u16,
    pub extension_data: Vec<u8>,
}

pub struct ExtensionModel {
    pub extension_type: u16,
    pub extension_data: Seq<u8>,
}

impl View for Extension {
    type V = ExtensionModel;

    open spec fn view(&self) -> ExtensionModel {
        ExtensionModel { extension_type: self.extension_type, extension_data: self.extension_data@ }
    }
}

/// A key package as it travels on the wire.
#[derive(Clone, Debug, PartialEq, Eq)]
pub struct KeyPackage {
    pub version: u8,
    pub cipher_suite: u16,
    pub hpke_init_key: Vec<u8>,
    pub credential: Credential,
    pub extensions: Vec<Extension>,
    pub signature: Vec<u8>,
}

pub struct KeyPackageModel {
    pub version: u8,
    pub cipher_suite: u16,
    pub hpke_init_key: Seq<u8>,
    pub credential: CredentialModel,
    pub extensions: Seq<ExtensionModel>,
    pub signature: Seq<u8>,
}

pub open spec fn extension_views(v: Seq<Extension>) -> Seq<ExtensionModel> {
    v.map_values(|e: Extension| e@)
}

impl View for KeyPackage {
    type V = KeyPackageModel;

    open spec fn view(&self) -> KeyPackageModel {
        KeyPackageModel {
            version: self.version,
            cipher_suite: self.cipher_suite,
            hpke_init_key: self.hpke_init_key@,
            credential: self.credential@,
            extensions: extension_views(self.extensions@),
            signature: self.signature@,
        }
    }
}

// ---------------------------------------------------------------------------
// Credential
// ---------------------------------------------------------------------------

pub open spec fn credential_ok(m: CredentialModel) -> bool {
    m.identity.len() <= 0xffff && m.public_key.len() <= 0xffff
}

#[verifier::opaque]
pub open spec fn credential_bytes(m: CredentialModel) -> Seq<u8> {
    uint_bytes(m.credential_type as nat, VecSize::VecU16) + opaque_bytes(
        m.identity,
        VecSize::VecU16,
    ) + uint_bytes(m.signature_scheme as nat, VecSize::VecU16) + opaque_bytes(
        m.public_key,
        VecSize::VecU16,
    )
}

#[verifier::opaque]
pub open spec fn parse_credential(b: Seq<u8>) -> Option<(CredentialModel, nat)> {
    match parse_uint(b, VecSize::VecU16) {
        None => None,
        Some((t, n1)) => match parse_opaque(b.skip(n1 as int), VecSize::VecU16) {
            None => None,
            Some((id, n2)) => match parse_uint(b.skip((n1 + n2) as int), VecSize::VecU16) {
                None => None,
                Some((sc, n3)) => match parse_opaque(
                    b.skip((n1 + n2 + n3) as int),
                    VecSize::VecU16,
                ) {
                    None => None,
                    Some((pk, n4)) => Some(
                        (
                            CredentialModel {
                                credential_type: t as u16,
                                identity: id,
                                signature_scheme: sc as u16,
                                public_key: pk,
                            },
                            n1 + n2 + n3 + n4,
                        ),
                    ),
                },
            },
        },
    }
}

pub proof fn lemma_credential_round_trip(m: CredentialModel, rest: Seq<u8>)
    requires
        credential_ok(m),
    ensures
        parse_credential(credential_bytes(m) + rest) == Some((m, credential_bytes(m).len())),
        credential_bytes(m).len() > 0,
{
    reveal(parse_credential);
    reveal(credential_bytes);
    let a = uint_bytes(m.credential_type as nat, VecSize::VecU16);
    let b = opaque_bytes(m.identity, VecSize::VecU16);
    let c = uint_bytes(m.signature_scheme as nat, VecSize::VecU16);
    let d = opaque_bytes(m.public_key, VecSize::VecU16);
    let t = credential_bytes(m) + rest;
    lemma_uint_round_trip(m.credential_type as nat, VecSize::VecU16, b + c + d + rest);
    lemma_opaque_round_trip(m.identity, VecSize::VecU16, c + d + rest);
    lemma_uint_round_trip(m.signature_scheme as nat, VecSize::VecU16, d + rest);
    lemma_opaque_round_trip(m.public_key, VecSize::VecU16, rest);
    assert(t =~= a + (b + c + d + rest));
    assert(t.skip(a.len() as int) =~= b + (c + d + rest));
    assert(t.skip((a.len() + b.len()) as int) =~= c + (d + rest));
    assert(t.skip((a.len() + b.len() + c.len()) as int) =~= d + rest);
}

impl Credential {
    pub fn encode(&self, buffer: &mut Vec<u8>) -> (r: Result<(), CodecError>)
        ensures
            r is Ok <==> credential_ok(self@),
            r is Ok ==> final(buffer)@ == old(buffer)@ + credential_bytes(self@),
    {
    reveal(credential_bytes);
        let ghost start = buffer@;
        if self.identity.len() > 0xffff || self.public_key.len() > 0xffff {
            return Err(CodecError::EncodingError);
        }
        write_uint(buffer, self.credential_type as u64, VecSize::VecU16);
        encode_vec(VecSize::VecU16, buffer, self.identity.as_slice())?;
        write_uint(buffer, self.signature_scheme as u64, VecSize::VecU16);
        encode_vec(VecSize::VecU16, buffer, self.public_key.as_slice())?;
        proof {
            assert(buffer@ =~= start + credential_bytes(self@));
        }
        Ok(())
    }

    pub fn decode(b: &[u8], pos: usize) -> (r: Result<(Credential, usize), CodecError>)
        requires
            pos <= b@.len(),
        ensures
            match parse_credential(b@.skip(pos as int)) {
                None => r is Err,
                Some((m, k)) => r is Ok && r->Ok_0.0@ == m && r->Ok_0.1 == pos + k,
            },
            r is Ok ==> pos <= r->Ok_0.1 <= b@.len(),
            r is Err ==> r->Err_0 == CodecError::DecodingError,
    {
        reveal(parse_credential);
        let ghost s = b@.skip(pos as int);
        let (t, at1) = read_uint(b, pos, VecSize::VecU16)?;
        assert(b@.skip(at1 as int) =~= s.skip((at1 - pos) as int));
        let (identity, at2) = decode_vec(VecSize::VecU16, b, at1)?;
        assert(b@.skip(at2 as int) =~= s.skip((at2 - pos) as int));
        let (sc, at3) = read_uint(b, at2, VecSize::VecU16)?;
        assert(b@.skip(at3 as int) =~= s.skip((at3 - pos) as int));
        let (public_key, at4) = decode_vec(VecSize::VecU16, b, at3)?;
        Ok(
            (
                Credential {
                    credential_type: t as u16,
                    identity,
                    signature_scheme: sc as u16,
                    public_key,
                },
                at4,
            ),
        )
    }
}

// ---------------------------------------------------------------------------
// Extension
// ---------------------------------------------------------------------------

pub open spec fn extension_ok(m: ExtensionModel) -> bool {
    m.extension_data.len() <= 0xffff_ffff
}

#[verifier::opaque]
pub open spec fn extension_bytes(m: ExtensionModel) -> Seq<u8> {
    uint_bytes(m.extension_type as nat, VecSize::VecU16) + opaque_bytes(
        m.extension_data,
        VecSize::VecU32,
    )
}

#[verifier::opaque]
pub open spec fn parse_extension(b: Seq<u8>) -> Option<(ExtensionModel, nat)> {
    match parse_uint(b, VecSize::VecU16) {
        None => None,
        Some((t, n1)) => match parse_opaque(b.skip(n1 as int), VecSize::VecU32) {
            None => None,
            Some((d, n2)) => Some(
                (ExtensionModel { extension_type: t as u16, extension_data: d }, n1 + n2),
            ),
        },
    }
}

pub open spec fn extension_enc() -> spec_fn(ExtensionModel) -> Seq<u8> {
    |m: ExtensionModel| extension_bytes(m)
}

pub open spec fn extension_parse() -> spec_fn(Seq<u8>) -> Option<(ExtensionModel, nat)> {
    |b: Seq<u8>| parse_extension(b)
}

pub open spec fn extensions_ok(v: Seq<ExtensionModel>) -> bool {
    &&& forall|i: int| 0 <= i < v.len() ==> extension_ok(#[trigger] v[i])
    &&& list_bytes(v, extension_enc()).len() <= 0xffff_ffff
}

pub proof fn lemma_extension_round_trip(m: ExtensionModel, rest: Seq<u8>)
    requires
        extension_ok(m),
    ensures
        parse_extension(extension_bytes(m) + rest) == Some((m, extension_bytes(m).len())),
        extension_bytes(m).len() > 0,
{
    reveal(parse_extension);
    reveal(extension_bytes);
    let a = uint_bytes(m.extension_type as nat, VecSize::VecU16);
    let b = opaque_bytes(m.extension_data, VecSize::VecU32);
    let t = extension_bytes(m) + rest;
    lemma_uint_round_trip(m.extension_type as nat, VecSize::VecU16, b + rest);
    lemma_opaque_round_trip(m.extension_data, VecSize::VecU32, rest);
    assert(t =~= a + (b + rest));
    assert(t.skip(a.len() as int) =~= b + rest);
}

pub proof fn lemma_extensions_invert(v: Seq<ExtensionModel>)
    requires
        forall|i: int| 0 <= i < v.len() ==> extension_ok(#[trigger] v[i]),
    ensures
        forall|i: int|
            0 <= i < v.len() ==> inverts(extension_enc(), extension_parse(), #[trigger] v[i]),
{
    assert forall|i: int| 0 <= i < v.len() implies inverts(
        extension_enc(),
        extension_parse(),
        #[trigger] v[i],
    ) by {
        assert forall|rest: Seq<u8>| #[trigger]
            extension_parse()(extension_enc()(v[i]) + rest) == Some(
                (v[i], extension_enc()(v[i]).len()),
            ) by {
            lemma_extension_round_trip(v[i], rest);
        }
        lemma_extension_round_trip(v[i], Seq::empty());
    }
}

/// The extension type of a ratchet tree.
pub const RATCHET_TREE_EXTENSION: u16 = 5;

impl Extension {
    /// A copy of the extension.
    pub fn duplicate(&self) -> (r: Extension)
        ensures
            r@ == self@,
    {
        Extension {
            extension_type: self.extension_type,
            extension_data: copy_bytes(self.extension_data.as_slice()),
        }
    }

    pub fn encode(&self, buffer: &mut Vec<u8>) -> (r: Result<(), CodecError>)
        ensures
            r is Ok <==> extension_ok(self@),
            r is Ok ==> final(buffer)@ == old(buffer)@ + extension_bytes(self@),
    {
    reveal(extension_bytes);
        let ghost start = buffer@;
        if self.extension_data.len() as u64 > 0xffff_ffff {
            return Err(CodecError::EncodingError);
        }
        write_uint(buffer, self.extension_type as u64, VecSize::VecU16);
        encode_vec(VecSize::VecU32, buffer, self.extension_data.as_slice())?;
        proof {
            assert(buffer@ =~= start + extension_bytes(self@));
        }
        Ok(())
    }

    pub fn decode(b: &[u8], pos: usize) -> (r: Result<(Extension, usize), CodecError>)
        requires
            pos <= b@.len(),
        ensures
            match parse_extension(b@.skip(pos as int)) {
                None => r is Err,
                Some((m, k)) => r is Ok && r->Ok_0.0@ == m && r->Ok_0.1 == pos + k,
            },
            r is Ok ==> pos <= r->Ok_0.1 <= b@.len(),
            r is Err ==> r->Err_0 == CodecError::DecodingError,
    {
        reveal(parse_extension);
        let ghost s = b@.skip(pos as int);
        let (t, at1) = read_uint(b, pos, VecSize::VecU16)?;
        assert(b@.skip(at1 as int) =~= s.skip((at1 - pos) as int));
        let (extension_data, at2) = decode_vec(VecSize::VecU32, b, at1)?;
        Ok((Extension { extension_type: t as u16, extension_data }, at2))
    }
}

/// Appends a vector of extensions behind its 32-bit length prefix.
pub fn encode_extensions(v: &Vec<Extension>, buffer: &mut Vec<u8>) -> (r: Result<
    (),
    CodecError,
>)
    ensures
        r is Ok <==> extensions_ok(extension_views(v@)),
        r is Ok ==> final(buffer)@ == old(buffer)@ + vec_bytes(
            extension_views(v@),
            extension_enc(),
            VecSize::VecU32,
        ),
{
    reveal(vec_bytes);
    let ghost views = extension_views(v@);
    let mut body: Vec<u8> = Vec::new();
    let mut i: usize = 0;
    while i < v.len()
        invariant
            i <= v@.len(),
            views == extension_views(v@),
            forall|j: int| 0 <= j < i ==> extension_ok(#[trigger] views[j]),
            body@ == list_bytes(views.take(i as int), extension_enc()),
        decreases v@.len() - i,
    {
        let ghost before = body@;
        assert(views[i as int] == v@[i as int]@);
        match v[i].encode(&mut body) {
            Ok(()) => {},
            Err(e) => {
                return Err(e);
            },
        }
        proof {
            assert(views.take(i + 1) =~= views.take(i as int).push(views[i as int]));
            lemma_list_bytes_push(views.take(i as int), views[i as int], extension_enc());
        }
        i = i + 1;
    }
    proof {
        assert(views.take(i as int) =~= views);
    }
    encode_vec(VecSize::VecU32, buffer, body.as_slice())
}

/// Reads a vector of extensions behind its 32-bit length prefix.
pub fn decode_extensions(b: &[u8], pos: usize) -> (r: Result<(Vec<Extension>, usize), CodecError>)
    requires
        pos <= b@.len(),
    ensures
        match parse_vec(b@.skip(pos as int), extension_parse(), VecSize::VecU32) {
            None => r is Err,
            Some((m, k)) => r is Ok && extension_views(r->Ok_0.0@) == m && r->Ok_0.1 == pos + k,
        },
        r is Ok ==> pos <= r->Ok_0.1 <= b@.len(),
        r is Err ==> r->Err_0 == CodecError::DecodingError,
{
    reveal(parse_vec);
    let (body, next) = decode_vec(VecSize::VecU32, b, pos)?;
    let mut out: Vec<Extension> = Vec::new();
    proof {
        assert(parse_vec(b@.skip(pos as int), extension_parse(), VecSize::VecU32) == match parse_list(
            body@,
            extension_parse(),
        ) {
            None => None,
            Some(m) => Some((m, (next - pos) as nat)),
        });
        assert(body@.skip(0) =~= body@);
        assert(extension_views(out@) =~= Seq::empty());
        let whole = parse_list(body@, extension_parse());
        if whole is Some {
            assert(extension_views(out@) + whole->Some_0 =~= whole->Some_0);
        }
    }
    let mut p: usize = 0;
    while p < body.len()
        invariant
            p <= body@.len(),
            pos <= next,
            parse_vec(b@.skip(pos as int), extension_parse(), VecSize::VecU32) == match parse_list(
                body@,
                extension_parse(),
            ) {
                None => None,
                Some(m) => Some((m, (next - pos) as nat)),
            },
            parse_list(body@, extension_parse()) == match parse_list(
                body@.skip(p as int),
                extension_parse(),
            ) {
                None => None,
                Some(tail) => Some(extension_views(out@) + tail),
            },
        decreases body@.len() - p,
    {
        let ghost before = out@;
        let (e, at2) = match Extension::decode(body.as_slice(), p) {
            Ok(x) => x,
            Err(err) => {
                proof {
                    let rest = body@.skip(p as int);
                    assert(rest.len() > 0);
                    assert(extension_parse()(rest) == parse_extension(rest));
                    assert(parse_list(rest, extension_parse()) is None);
                }
                return Err(err);
            },
        };
        if at2 == p || at2 > body.len() {
            return Err(CodecError::DecodingError);
        }
        out.push(e);
        proof {
            assert(body@.skip(p as int).skip((at2 - p) as int) =~= body@.skip(at2 as int));
            assert(extension_views(out@) =~= extension_views(before).push(e@));
            let tail = parse_list(body@.skip(at2 as int), extension_parse());
            if tail is Some {
                assert(extension_views(out@) + tail->Some_0 =~= extension_views(before) + (seq![
                    e@,
                ] + tail->Some_0));
            }
        }
        p = at2;
    }
    proof {
        assert(extension_views(out@) + Seq::empty() =~= extension_views(out@));
    }
    Ok((out, next))
}

// ---------------------------------------------------------------------------
// KeyPackage
// ---------------------------------------------------------------------------

pub open spec fn key_package_ok(m: KeyPackageModel) -> bool {
    &&& m.hpke_init_key.len() <= 0xffff
    &&& credential_ok(m.credential)
    &&& extensions_ok(m.extensions)
    &&& m.signature.len() <= 0xffff
}

#[verifier::opaque]
pub open spec fn key_package_bytes(m: KeyPackageModel) -> Seq<u8> {
    key_package_head_bytes(m) + key_package_tail_bytes(m)
}

/// The version, ciphersuite and init key at the front of a key package.
#[verifier::opaque]
pub open spec fn parse_key_package_head(b: Seq<u8>) -> Option<((u8, u16, Seq<u8>), nat)> {
    match parse_uint(b, VecSize::VecU8) {
        None => None,
        Some((ver, n1)) => match parse_uint(b.skip(n1 as int), VecSize::VecU16) {
            None => None,
            Some((cs, n2)) => match parse_opaque(b.skip((n1 + n2) as int), VecSize::VecU16) {
                None => None,
                Some((init, n3)) => Some(((ver as u8, cs as u16, init), n1 + n2 + n3)),
            },
        },
    }
}

/// The credential, extensions and signature that end a key package.
#[verifier::opaque]
pub open spec fn parse_key_package_tail(b: Seq<u8>) -> Option<
    ((CredentialModel, Seq<ExtensionModel>, Seq<u8>), nat),
> {
    match parse_credential(b) {
        None => None,
        Some((cred, n1)) => match parse_vec(
            b.skip(n1 as int),
            extension_parse(),
            VecSize::VecU32,
        ) {
            None => None,
            Some((exts, n2)) => match parse_opaque(b.skip((n1 + n2) as int), VecSize::VecU16) {
                None => None,
                Some((sig, n3)) => Some(((cred, exts, sig), n1 + n2 + n3)),
            },
        },
    }
}

#[verifier::opaque]
pub open spec fn parse_key_package(b: Seq<u8>) -> Option<(KeyPackageModel, nat)> {
    match parse_key_package_head(b) {
        None => None,
        Some(((ver, cs, init), n1)) => match parse_key_package_tail(b.skip(n1 as int)) {
            None => None,
            Some(((cred, exts, sig), n2)) => Some(
                (
                    KeyPackageModel {
                        version: ver,
                        cipher_suite: cs,
                        hpke_init_key: init,
                        credential: cred,
                        extensions: exts,
                        signature: sig,
                    },
                    n1 + n2,
                ),
            ),
        },
    }
}

#[verifier::opaque]
pub open spec fn key_package_head_bytes(m: KeyPackageModel) -> Seq<u8> {
    uint_bytes(m.version as nat, VecSize::VecU8) + uint_bytes(
        m.cipher_suite as nat,
        VecSize::VecU16,
    ) + opaque_bytes(m.hpke_init_key, VecSize::VecU16)
}

#[verifier::opaque]
pub open spec fn key_package_tail_bytes(m: KeyPackageModel) -> Seq<u8> {
    credential_bytes(m.credential) + vec_bytes(m.extensions, extension_enc(), VecSize::VecU32)
        + opaque_bytes(m.signature, VecSize::VecU16)
}

proof fn lemma_key_package_head(m: KeyPackageModel, rest: Seq<u8>)
    requires
        key_package_ok(m),
    ensures
        parse_key_package_head(key_package_head_bytes(m) + rest) == Some(
            ((m.version, m.cipher_suite, m.hpke_init_key), key_package_head_bytes(m).len()),
        ),
{
    reveal(parse_key_package_head);
    reveal(key_package_head_bytes);
    let a = uint_bytes(m.version as nat, VecSize::VecU8);
    let b = uint_bytes(m.cipher_suite as nat, VecSize::VecU16);
    let c = opaque_bytes(m.hpke_init_key, VecSize::VecU16);
    let t = key_package_head_bytes(m) + rest;
    lemma_uint_round_trip(m.version as nat, VecSize::VecU8, b + c + rest);
    lemma_uint_round_trip(m.cipher_suite as nat, VecSize::VecU16, c + rest);
    lemma_opaque_round_trip(m.hpke_init_key, VecSize::VecU16, rest);
    assert(t =~= a + (b + c + rest));
    assert(t.skip(a.len() as int) =~= b + (c + rest));
    assert(t.skip((a.len() + b.len()) as int) =~= c + rest);
}

#[verifier::rlimit(50)]
proof fn lemma_key_package_tail(m: KeyPackageModel, rest: Seq<u8>)
    requires
        key_package_ok(m),
    ensures
        parse_key_package_tail(key_package_tail_bytes(m) + rest) == Some(
            ((m.credential, m.extensions, m.signature), key_package_tail_bytes(m).len()),
        ),
        key_package_tail_bytes(m).len() > 0,
{
    reveal(parse_key_package_tail);
    reveal(key_package_tail_bytes);
    let d = credential_bytes(m.credential);
    let e = vec_bytes(m.extensions, extension_enc(), VecSize::VecU32);
    let f = opaque_bytes(m.signature, VecSize::VecU16);
    let t = key_package_tail_bytes(m) + rest;
    lemma_credential_round_trip(m.credential, e + f + rest);
    lemma_extensions_invert(m.extensions);
    lemma_vec_round_trip(m.extensions, extension_enc(), extension_parse(), VecSize::VecU32, f + rest);
    lemma_opaque_round_trip(m.signature, VecSize::VecU16, rest);
    assert(t =~= d + (e + f + rest));
    assert(t.skip(d.len() as int) =~= e + (f + rest));
    assert(t.skip((d.len() + e.len()) as int) =~= f + rest);
}

pub proof fn lemma_key_package_round_trip(m: KeyPackageModel, rest: Seq<u8>)
    requires
        key_package_ok(m),
    ensures
        parse_key_package(key_package_bytes(m) + rest) == Some(
            (m, key_package_bytes(m).len()),
        ),
        key_package_bytes(m).len() > 0,
{
    reveal(parse_key_package);
    reveal(key_package_bytes);
    let h = key_package_head_bytes(m);
    let tl = key_package_tail_bytes(m);
    let t = key_package_bytes(m) + rest;
    lemma_key_package_head(m, tl + rest);
    lemma_key_package_tail(m, rest);
    assert(t =~= h + (tl + rest));
    assert(t.skip(h.len() as int) =~= tl + rest);
}

impl Credential {
    /// A copy of the credential.
    pub fn duplicate(&self) -> (r: Credential)
        ensures
            r@ == self@,
    {
        Credential {
            credential_type: self.credential_type,
            identity: copy_bytes(self.identity.as_slice()),
            signature_scheme: self.signature_scheme,
            public_key: copy_bytes(self.public_key.as_slice()),
        }
    }
}

impl KeyPackage {
    /// A copy of the key package.
    pub fn duplicate(&self) -> (r: KeyPackage)
        ensures
            r@ == self@,
    {
        KeyPackage {
            version: self.version,
            cipher_suite: self.cipher_suite,
            hpke_init_key: copy_bytes(self.hpke_init_key.as_slice()),
            credential: self.credential.duplicate(),
            extensions: copy_extensions(self.extensions.as_slice()),
            signature: copy_bytes(self.signature.as_slice()),
        }
    }

    pub fn encode(&self, buffer: &mut Vec<u8>) -> (r: Result<(), CodecError>)
        ensures
            r is Ok <==> key_package_ok(self@),
            r is Ok ==> final(buffer)@ == old(buffer)@ + key_package_bytes(self@),
    {
    reveal(key_package_bytes);
    reveal(key_package_head_bytes);
    reveal(key_package_tail_bytes);
        let ghost start = buffer@;
        if self.hpke_init_key.len() > 0xffff || self.signature.len() > 0xffff {
            return Err(CodecError::EncodingError);
        }
        let mut tail: Vec<u8> = Vec::new();
        self.credential.encode(&mut tail)?;
        encode_extensions(&self.extensions, &mut tail)?;
        encode_vec(VecSize::VecU16, &mut tail, self.signature.as_slice())?;
        write_uint(buffer, self.version as u64, VecSize::VecU8);
        write_uint(buffer, self.cipher_suite as u64, VecSize::VecU16);
        encode_vec(VecSize::VecU16, buffer, self.hpke_init_key.as_slice())?;
        let ghost mid = buffer@;
        append_bytes(buffer, &tail);
        proof {
            assert(buffer@ =~= start + key_package_bytes(self@));
        }
        Ok(())
    }

    fn decode_head(b: &[u8], pos: usize) -> (r: Result<((u8, u16, Vec<u8>), usize), CodecError>)
        requires
            pos <= b@.len(),
        ensures
            match parse_key_package_head(b@.skip(pos as int)) {
                None => r is Err,
                Some((m, k)) => r is Ok && r->Ok_0.0.0 == m.0 && r->Ok_0.0.1 == m.1
                    && r->Ok_0.0.2@ == m.2 && r->Ok_0.1 == pos + k,
            },
            r is Ok ==> pos <= r->Ok_0.1 <= b@.len(),
            r is Err ==> r->Err_0 == CodecError::DecodingError,
    {
        reveal(parse_key_package_head);
        let ghost s = b@.skip(pos as int);
        let (version, at1) = read_uint(b, pos, VecSize::VecU8)?;
        assert(b@.skip(at1 as int) =~= s.skip((at1 - pos) as int));
        let (cipher_suite, at2) = read_uint(b, at1, VecSize::VecU16)?;
        assert(b@.skip(at2 as int) =~= s.skip((at2 - pos) as int));
        let (hpke_init_key, at3) = decode_vec(VecSize::VecU16, b, at2)?;
        Ok(((version as u8, cipher_suite as u16, hpke_init_key), at3))
    }

    fn decode_tail(b: &[u8], pos: usize) -> (r: Result<
        ((Credential, Vec<Extension>, Vec<u8>), usize),
        CodecError,
    >)
        requires
            pos <= b@.len(),
        ensures
            match parse_key_package_tail(b@.skip(pos as int)) {
                None => r is Err,
                Some((m, k)) => r is Ok && r->Ok_0.0.0@ == m.0 && extension_views(r->Ok_0.0.1@)
                    == m.1 && r->Ok_0.0.2@ == m.2 && r->Ok_0.1 == pos + k,
            },
            r is Ok ==> pos <= r->Ok_0.1 <= b@.len(),
            r is Err ==> r->Err_0 == CodecError::DecodingError,
    {
        reveal(parse_key_package_tail);
        let ghost s = b@.skip(pos as int);
        let (credential, at1) = Credential::decode(b, pos)?;
        assert(b@.skip(at1 as int) =~= s.skip((at1 - pos) as int));
        let (extensions, at2) = decode_extensions(b, at1)?;
        assert(b@.skip(at2 as int) =~= s.skip((at2 - pos) as int));
        let (signature, at3) = decode_vec(VecSize::VecU16, b, at2)?;
        Ok(((credential, extensions, signature), at3))
    }

    pub fn decode(b: &[u8], pos: usize) -> (r: Result<(KeyPackage, usize), CodecError>)
        requires
            pos <= b@.len(),
        ensures
            match parse_key_package(b@.skip(pos as int)) {
                None => r is Err,
                Some((m, k)) => r is Ok && r->Ok_0.0@ == m && r->Ok_0.1 == pos + k,
            },
            r is Ok ==> pos <= r->Ok_0.1 <= b@.len(),
            r is Err ==> r->Err_0 == CodecError::DecodingError,
    {
        reveal(parse_key_package);
        let ghost s = b@.skip(pos as int);
        let ((version, cipher_suite, hpke_init_key), at1) = KeyPackage::decode_head(b, pos)?;
        assert(b@.skip(at1 as int) =~= s.skip((at1 - pos) as int));
        let ((credential, extensions, signature), at2) = KeyPackage::decode_tail(b, at1)?;
        Ok(
            (
                KeyPackage {
                    version,
                    cipher_suite,
                    hpke_init_key,
                    credential,
                    extensions,
                    signature,
                },
                at2,
            ),
        )
    }
}

/// A copy of a list of extensions.
pub fn copy_extensions(v: &[Extension]) -> (r: Vec<Extension>)
    ensures
        extension_views(r@) == extension_views(v@),
{
    let mut out: Vec<Extension> = Vec::new();
    let mut i: usize = 0;
    while i < v.len()
        invariant
            i <= v@.len(),
            extension_views(out@) == extension_views(v@.take(i as int)),
        decreases v@.len() - i,
    {
        let e = v[i].duplicate();
        let ghost before = out@;
        out.push(e);
        i = i + 1;
        proof {
            assert(v@.take(i as int) =~= v@.take(i - 1).push(v@[i - 1]));
            assert(extension_views(out@) =~= extension_views(before).push(e@));
            assert(extension_views(v@.take(i as int)) =~= extension_views(v@.take(i - 1)).push(
                v@[i - 1]@,
            ));
        }
    }
    proof {
        assert(v@.take(i as int) =~= v@);
    }
    out
}

} // verus!
