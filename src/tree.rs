//! Ratchet tree nodes and update paths, with their wire encoding.

use vstd::prelude::*;
use crate::codec::{
    CodecError, VecSize, decode_vec, encode_vec, list_bytes, lemma_opaque_round_trip,
    lemma_uint_round_trip, lemma_vec_round_trip, opaque_bytes, parse_opaque, parse_uint, parse_vec,
    read_uint, uint_bytes, vec_bytes, write_uint, inverts, parse_list, lemma_list_bytes_push,
    append_bytes,
};
use crate::index::LeafIndex;
use crate::key_package::{
    KeyPackage, KeyPackageModel, key_package_bytes, key_package_ok, lemma_key_package_round_trip,
    parse_key_package,
};

verus! {

/// An HPKE ciphertext: the KEM output and the sealed payload.
#[derive(Clone, Debug, PartialEq, Eq)]
pub struct HpkeCiphertext {
    pub kem_output: Vec<u8>,
    pub ciphertext: Vec<u8>,
}

pub struct HpkeCiphertextModel {
    pub kem_output: Seq<u8>,
    pub ciphertext: Seq<u8>,
}

impl View for HpkeCiphertext {
    type V = HpkeCiphertextModel;

    open spec fn view(&self) -> HpkeCiphertextModel {
        HpkeCiphertextModel { kem_output: self.kem_output@, ciphertext: self.ciphertext@ }
    }
}

/// One node of an update path: the node's new public key and its path
/// secret sealed to each member of the copath node's resolution.
#[derive(Clone, Debug, PartialEq, Eq)]
pub struct UpdatePathNode {
    pub public_key: Vec<u8>,
    pub encrypted_path_secret: Vec<HpkeCiphertext>,
}

pub struct UpdatePathNodeModel {
    pub public_key: Seq<u8>,
    pub encrypted_path_secret: Seq<HpkeCiphertextModel>,
}

pub open spec fn ciphertext_views(v: Seq<HpkeCiphertext>) -> Seq<HpkeCiphertextModel> {
    v.map_values(|c: HpkeCiphertext| c@)
}

impl View for UpdatePathNode {
    type V = UpdatePathNodeModel;

    open spec fn view(&self) -> UpdatePathNodeModel {
        UpdatePathNodeModel {
            public_key: self.public_key@,
            encrypted_path_secret: ciphertext_views(self.encrypted_path_secret@),
        }
    }
}

/// The sender's new key package and the new keys along its direct path.
#[derive(Clone, Debug, PartialEq, Eq)]
pub struct UpdatePath {
    pub leaf_key_package: KeyPackage,
    pub nodes: Vec<UpdatePathNode>,
}

pub struct UpdatePathModel {
    pub leaf_key_package: KeyPackageModel,
    pub nodes: Seq<UpdatePathNodeModel>,
}

pub open spec fn path_node_views(v: Seq<UpdatePathNode>) -> Seq<UpdatePathNodeModel> {
    v.map_values(|n: UpdatePathNode| n@)
}

impl View for UpdatePath {
    type V = UpdatePathModel;

    open spec fn view(&self) -> UpdatePathModel {
        UpdatePathModel {
            leaf_key_package: self.leaf_key_package@,
            nodes: path_node_views(self.nodes@),
        }
    }
}

/// A parent node: its public key, the leaves added below it since it was
/// last refreshed, and the hash of the parent above it.
#[derive(Clone, Debug, PartialEq, Eq)]
pub struct ParentNode {
    pub public_key: Vec<u8>,
    pub unmerged_leaves: Vec<LeafIndex>,
    pub parent_hash: Vec<u8>,
}

pub struct ParentNodeModel {
    pub public_key: Seq<u8>,
    pub unmerged_leaves: Seq<nat>,
    pub parent_hash: Seq<u8>,
}

pub open spec fn leaf_views(v: Seq<LeafIndex>) -> Seq<nat> {
    v.map_values(|l: LeafIndex| l@)
}

impl View for ParentNode {
    type V = ParentNodeModel;

    open spec fn view(&self) -> ParentNodeModel {
        ParentNodeModel {
            public_key: self.public_key@,
            unmerged_leaves: leaf_views(self.unmerged_leaves@),
            parent_hash: self.parent_hash@,
        }
    }
}

/// The kind tag in front of an encoded node.
#[derive(Clone, Copy, Debug, PartialEq, Eq, Structural)]
pub enum NodeType {
    Leaf,
    Parent,
    Default,
}

/// A node that is present in the tree.
#[derive(Clone, Debug, PartialEq, Eq)]
pub enum Node {
    Leaf(KeyPackage),
    Parent(ParentNode),
}

pub enum NodeModel {
    Leaf(KeyPackageModel),
    Parent(ParentNodeModel),
}

impl View for Node {
    type V = NodeModel;

    open spec fn view(&self) -> NodeModel {
        match self {
            Node::Leaf(kp) => NodeModel::Leaf(kp@),
            Node::Parent(p) => NodeModel::Parent(p@),
        }
    }
}

/// A node of the secret tree: its secret.
#[derive(Clone, Debug, PartialEq, Eq)]
pub struct SecretTreeNode {
    pub secret: Vec<u8>,
}

impl ParentNode {
    /// A copy of the parent node.
    pub fn duplicate(&self) -> (r: ParentNode)
        ensures
            r@ == self@,
    {
        let mut unmerged_leaves: Vec<LeafIndex> = Vec::new();
        let mut i: usize = 0;
        while i < self.unmerged_leaves.len()
            invariant
                i <= self.unmerged_leaves@.len(),
                unmerged_leaves@ == self.unmerged_leaves@.take(i as int),
            decreases self.unmerged_leaves@.len() - i,
        {
            unmerged_leaves.push(self.unmerged_leaves[i]);
            i = i + 1;
            proof {
                assert(self.unmerged_leaves@.take(i as int) =~= self.unmerged_leaves@.take(
                    i - 1,
                ).push(self.unmerged_leaves@[i - 1]));
            }
        }
        proof {
            assert(self.unmerged_leaves@.take(i as int) =~= self.unmerged_leaves@);
        }
        ParentNode {
            public_key: crate::codec::copy_bytes(self.public_key.as_slice()),
            unmerged_leaves,
            parent_hash: crate::codec::copy_bytes(self.parent_hash.as_slice()),
        }
    }

    /// A copy of the parent node with one more unmerged leaf.
    pub fn with_unmerged_leaf(&self, leaf: LeafIndex) -> (r: ParentNode)
        ensures
            r@.public_key == self@.public_key,
            r@.parent_hash == self@.parent_hash,
            r@.unmerged_leaves == self@.unmerged_leaves.push(leaf@),
    {
        let mut unmerged_leaves: Vec<LeafIndex> = Vec::new();
        let mut i: usize = 0;
        while i < self.unmerged_leaves.len()
            invariant
                i <= self.unmerged_leaves@.len(),
                unmerged_leaves@ == self.unmerged_leaves@.take(i as int),
            decreases self.unmerged_leaves@.len() - i,
        {
            unmerged_leaves.push(self.unmerged_leaves[i]);
            i = i + 1;
            proof {
                assert(self.unmerged_leaves@.take(i as int) =~= self.unmerged_leaves@.take(
                    i - 1,
                ).push(self.unmerged_leaves@[i - 1]));
            }
        }
        proof {
            assert(self.unmerged_leaves@.take(i as int) =~= self.unmerged_leaves@);
        }
        unmerged_leaves.push(leaf);
        proof {
            assert(leaf_views(unmerged_leaves@) =~= leaf_views(self.unmerged_leaves@).push(leaf@));
        }
        ParentNode {
            public_key: crate::codec::copy_bytes(self.public_key.as_slice()),
            unmerged_leaves,
            parent_hash: crate::codec::copy_bytes(self.parent_hash.as_slice()),
        }
    }
}

// ---------------------------------------------------------------------------
// HpkeCiphertext
// ---------------------------------------------------------------------------

pub open spec fn ciphertext_ok(m: HpkeCiphertextModel) -> bool {
    m.kem_output.len() <= 0xffff && m.ciphertext.len() <= 0xffff
}

#[verifier::opaque]
pub open spec fn ciphertext_bytes(m: HpkeCiphertextModel) -> Seq<u8> {
    opaque_bytes(m.kem_output, VecSize::VecU16) + opaque_bytes(m.ciphertext, VecSize::VecU16)
}

#[verifier::opaque]
pub open spec fn parse_ciphertext(b: Seq<u8>) -> Option<(HpkeCiphertextModel, nat)> {
    match parse_opaque(b, VecSize::VecU16) {
        None => None,
        Some((kem, n1)) => match parse_opaque(b.skip(n1 as int), VecSize::VecU16) {
            None => None,
            Some((ct, n2)) => Some(
                (HpkeCiphertextModel { kem_output: kem, ciphertext: ct }, n1 + n2),
            ),
        },
    }
}

pub open spec fn ciphertext_enc() -> spec_fn(HpkeCiphertextModel) -> Seq<u8> {
    |m: HpkeCiphertextModel| ciphertext_bytes(m)
}

pub open spec fn ciphertext_parse() -> spec_fn(Seq<u8>) -> Option<(HpkeCiphertextModel, nat)> {
    |b: Seq<u8>| parse_ciphertext(b)
}

pub open spec fn ciphertexts_ok(v: Seq<HpkeCiphertextModel>) -> bool {
    &&& forall|i: int| 0 <= i < v.len() ==> ciphertext_ok(#[trigger] v[i])
    &&& list_bytes(v, ciphertext_enc()).len() <= 0xffff_ffff
}

pub proof fn lemma_ciphertext_round_trip(m: HpkeCiphertextModel, rest: Seq<u8>)
    requires
        ciphertext_ok(m),
    ensures
        parse_ciphertext(ciphertext_bytes(m) + rest) == Some((m, ciphertext_bytes(m).len())),
        ciphertext_bytes(m).len() > 0,
{
    reveal(parse_ciphertext);
    reveal(ciphertext_bytes);
    let a = opaque_bytes(m.kem_output, VecSize::VecU16);
    let b = opaque_bytes(m.ciphertext, VecSize::VecU16);
    let t = ciphertext_bytes(m) + rest;
    lemma_opaque_round_trip(m.kem_output, VecSize::VecU16, b + rest);
    lemma_opaque_round_trip(m.ciphertext, VecSize::VecU16, rest);
    assert(t =~= a + (b + rest));
    assert(t.skip(a.len() as int) =~= b + rest);
}

proof fn lemma_ciphertexts_invert(v: Seq<HpkeCiphertextModel>)
    requires
        forall|i: int| 0 <= i < v.len() ==> ciphertext_ok(#[trigger] v[i]),
    ensures
        forall|i: int|
            0 <= i < v.len() ==> inverts(ciphertext_enc(), ciphertext_parse(), #[trigger] v[i]),
{
    assert forall|i: int| 0 <= i < v.len() implies inverts(
        ciphertext_enc(),
        ciphertext_parse(),
        #[trigger] v[i],
    ) by {
        assert forall|rest: Seq<u8>| #[trigger]
            ciphertext_parse()(ciphertext_enc()(v[i]) + rest) == Some(
                (v[i], ciphertext_enc()(v[i]).len()),
            ) by {
            lemma_ciphertext_round_trip(v[i], rest);
        }
        lemma_ciphertext_round_trip(v[i], Seq::empty());
    }
}

impl HpkeCiphertext {
    pub fn encode(&self, buffer: &mut Vec<u8>) -> (r: Result<(), CodecError>)
        ensures
            r is Ok <==> ciphertext_ok(self@),
            r is Ok ==> final(buffer)@ == old(buffer)@ + ciphertext_bytes(self@),
    {
        reveal(ciphertext_bytes);
        let ghost start = buffer@;
        if self.kem_output.len() > 0xffff || self.ciphertext.len() > 0xffff {
            return Err(CodecError::EncodingError);
        }
        encode_vec(VecSize::VecU16, buffer, self.kem_output.as_slice())?;
        encode_vec(VecSize::VecU16, buffer, self.ciphertext.as_slice())?;
        proof {
            assert(buffer@ =~= start + ciphertext_bytes(self@));
        }
        Ok(())
    }

    pub fn decode(b: &[u8], pos: usize) -> (r: Result<(HpkeCiphertext, usize), CodecError>)
        requires
            pos <= b@.len(),
        ensures
            match parse_ciphertext(b@.skip(pos as int)) {
                None => r is Err,
                Some((m, k)) => r is Ok && r->Ok_0.0@ == m && r->Ok_0.1 == pos + k,
            },
            r is Ok ==> pos <= r->Ok_0.1 <= b@.len(),
            r is Err ==> r->Err_0 == CodecError::DecodingError,
    {
        reveal(parse_ciphertext);
        let ghost s = b@.skip(pos as int);
        let (kem_output, at1) = decode_vec(VecSize::VecU16, b, pos)?;
        assert(b@.skip(at1 as int) =~= s.skip((at1 - pos) as int));
        let (ciphertext, at2) = decode_vec(VecSize::VecU16, b, at1)?;
        Ok((HpkeCiphertext { kem_output, ciphertext }, at2))
    }
}

/// Appends a vector of HPKE ciphertexts behind its length prefix.
pub fn encode_ciphertexts(v: &Vec<HpkeCiphertext>, buffer: &mut Vec<u8>) -> (r: Result<(), CodecError>)
    ensures
        r is Ok <==> ciphertexts_ok(ciphertext_views(v@)),
        r is Ok ==> final(buffer)@ == old(buffer)@ + vec_bytes(ciphertext_views(v@), ciphertext_enc(), VecSize::VecU32),
{
    reveal(vec_bytes);
    let ghost views = ciphertext_views(v@);
    let mut body: Vec<u8> = Vec::new();
    let mut i: usize = 0;
    while i < v.len()
        invariant
            i <= v@.len(),
            views == ciphertext_views(v@),
            forall|j: int| 0 <= j < i ==> ciphertext_ok(#[trigger] views[j]),
            body@ == list_bytes(views.take(i as int), ciphertext_enc()),
        decreases v@.len() - i,
    {
        assert(views[i as int] == v@[i as int]@);
        match v[i].encode(&mut body) {
            Ok(()) => {},
            Err(e) => {
                return Err(e);
            },
        }
        proof {
            assert(views.take(i + 1) =~= views.take(i as int).push(views[i as int]));
            lemma_list_bytes_push(views.take(i as int), views[i as int], ciphertext_enc());
        }
        i = i + 1;
    }
    proof {
        assert(views.take(i as int) =~= views);
    }
    encode_vec(VecSize::VecU32, buffer, body.as_slice())
}

/// Reads a vector of HPKE ciphertexts behind its length prefix.
pub fn decode_ciphertexts(b: &[u8], pos: usize) -> (r: Result<(Vec<HpkeCiphertext>, usize), CodecError>)
    requires
        pos <= b@.len(),
    ensures
        match parse_vec(b@.skip(pos as int), ciphertext_parse(), VecSize::VecU32) {
            None => r is Err,
            Some((m, k)) => r is Ok && ciphertext_views(r->Ok_0.0@) == m && r->Ok_0.1 == pos + k,
        },
        r is Ok ==> pos <= r->Ok_0.1 <= b@.len(),
        r is Err ==> r->Err_0 == CodecError::DecodingError,
{
    reveal(parse_vec);
    let (body, next) = decode_vec(VecSize::VecU32, b, pos)?;
    let mut out: Vec<HpkeCiphertext> = Vec::new();
    proof {
        assert(body@.skip(0) =~= body@);
        assert(ciphertext_views(out@) =~= Seq::empty());
        let whole = parse_list(body@, ciphertext_parse());
        if whole is Some {
            assert(ciphertext_views(out@) + whole->Some_0 =~= whole->Some_0);
        }
    }
    let mut p: usize = 0;
    while p < body.len()
        invariant
            p <= body@.len(),
            pos <= next <= b@.len(),
            parse_vec(b@.skip(pos as int), ciphertext_parse(), VecSize::VecU32) == match parse_list(
                body@,
                ciphertext_parse(),
            ) {
                None => None,
                Some(m) => Some((m, (next - pos) as nat)),
            },
            parse_list(body@, ciphertext_parse()) == match parse_list(body@.skip(p as int), ciphertext_parse()) {
                None => None,
                Some(tail) => Some(ciphertext_views(out@) + tail),
            },
        decreases body@.len() - p,
    {
        let ghost before = out@;
        let (e, at2) = match HpkeCiphertext::decode(body.as_slice(), p) {
            Ok(x) => x,
            Err(err) => {
                proof {
                    let rest = body@.skip(p as int);
                    assert(rest.len() > 0);
                    assert(ciphertext_parse()(rest) == parse_ciphertext(rest));
                    assert(parse_list(rest, ciphertext_parse()) is None);
                }
                return Err(err);
            },
        };
        if at2 == p || at2 > body.len() {
            return Err(CodecError::DecodingError);
        }
        out.push(e);
        proof {
            assert(body@.skip(p as int).skip((at2 - p) as int) =~= body@.skip(at2 as int));
            assert(ciphertext_views(out@) =~= ciphertext_views(before).push(e@));
            let tail = parse_list(body@.skip(at2 as int), ciphertext_parse());
            if tail is Some {
                assert(ciphertext_views(out@) + tail->Some_0 =~= ciphertext_views(before) + (seq![e@] + tail->Some_0));
            }
        }
        p = at2;
    }
    proof {
        assert(ciphertext_views(out@) + Seq::empty() =~= ciphertext_views(out@));
    }
    Ok((out, next))
}

// ---------------------------------------------------------------------------
// UpdatePathNode
// ---------------------------------------------------------------------------

pub open spec fn path_node_ok(m: UpdatePathNodeModel) -> bool {
    m.public_key.len() <= 0xffff && ciphertexts_ok(m.encrypted_path_secret)
}

#[verifier::opaque]
pub open spec fn path_node_bytes(m: UpdatePathNodeModel) -> Seq<u8> {
    opaque_bytes(m.public_key, VecSize::VecU16) + vec_bytes(
        m.encrypted_path_secret,
        ciphertext_enc(),
        VecSize::VecU32,
    )
}

#[verifier::opaque]
pub open spec fn parse_path_node(b: Seq<u8>) -> Option<(UpdatePathNodeModel, nat)> {
    match parse_opaque(b, VecSize::VecU16) {
        None => None,
        Some((pk, n1)) => match parse_vec(b.skip(n1 as int), ciphertext_parse(), VecSize::VecU32) {
            None => None,
            Some((cts, n2)) => Some(
                (UpdatePathNodeModel { public_key: pk, encrypted_path_secret: cts }, n1 + n2),
            ),
        },
    }
}

pub open spec fn path_node_enc() -> spec_fn(UpdatePathNodeModel) -> Seq<u8> {
    |m: UpdatePathNodeModel| path_node_bytes(m)
}

pub open spec fn path_node_parse() -> spec_fn(Seq<u8>) -> Option<(UpdatePathNodeModel, nat)> {
    |b: Seq<u8>| parse_path_node(b)
}

pub open spec fn path_nodes_ok(v: Seq<UpdatePathNodeModel>) -> bool {
    &&& forall|i: int| 0 <= i < v.len() ==> path_node_ok(#[trigger] v[i])
    &&& list_bytes(v, path_node_enc()).len() <= 0xffff
}

pub proof fn lemma_path_node_round_trip(m: UpdatePathNodeModel, rest: Seq<u8>)
    requires
        path_node_ok(m),
    ensures
        parse_path_node(path_node_bytes(m) + rest) == Some((m, path_node_bytes(m).len())),
        path_node_bytes(m).len() > 0,
{
    reveal(parse_path_node);
    reveal(path_node_bytes);
    let a = opaque_bytes(m.public_key, VecSize::VecU16);
    let b = vec_bytes(m.encrypted_path_secret, ciphertext_enc(), VecSize::VecU32);
    let t = path_node_bytes(m) + rest;
    lemma_opaque_round_trip(m.public_key, VecSize::VecU16, b + rest);
    lemma_ciphertexts_invert(m.encrypted_path_secret);
    lemma_vec_round_trip(
        m.encrypted_path_secret,
        ciphertext_enc(),
        ciphertext_parse(),
        VecSize::VecU32,
        rest,
    );
    assert(t =~= a + (b + rest));
    assert(t.skip(a.len() as int) =~= b + rest);
}

proof fn lemma_path_nodes_invert(v: Seq<UpdatePathNodeModel>)
    requires
        forall|i: int| 0 <= i < v.len() ==> path_node_ok(#[trigger] v[i]),
    ensures
        forall|i: int|
            0 <= i < v.len() ==> inverts(path_node_enc(), path_node_parse(), #[trigger] v[i]),
{
    assert forall|i: int| 0 <= i < v.len() implies inverts(
        path_node_enc(),
        path_node_parse(),
        #[trigger] v[i],
    ) by {
        assert forall|rest: Seq<u8>| #[trigger]
            path_node_parse()(path_node_enc()(v[i]) + rest) == Some(
                (v[i], path_node_enc()(v[i]).len()),
            ) by {
            lemma_path_node_round_trip(v[i], rest);
        }
        lemma_path_node_round_trip(v[i], Seq::empty());
    }
}

impl UpdatePathNode {
    pub fn encode(&self, buffer: &mut Vec<u8>) -> (r: Result<(), CodecError>)
        ensures
            r is Ok <==> path_node_ok(self@),
            r is Ok ==> final(buffer)@ == old(buffer)@ + path_node_bytes(self@),
    {
        reveal(path_node_bytes);
        let ghost start = buffer@;
        if self.public_key.len() > 0xffff {
            return Err(CodecError::EncodingError);
        }
        let mut tail: Vec<u8> = Vec::new();
        encode_ciphertexts(&self.encrypted_path_secret, &mut tail)?;
        encode_vec(VecSize::VecU16, buffer, self.public_key.as_slice())?;
        append_bytes(buffer, &tail);
        proof {
            assert(buffer@ =~= start + path_node_bytes(self@));
        }
        Ok(())
    }

    pub fn decode(b: &[u8], pos: usize) -> (r: Result<(UpdatePathNode, usize), CodecError>)
        requires
            pos <= b@.len(),
        ensures
            match parse_path_node(b@.skip(pos as int)) {
                None => r is Err,
                Some((m, k)) => r is Ok && r->Ok_0.0@ == m && r->Ok_0.1 == pos + k,
            },
            r is Ok ==> pos <= r->Ok_0.1 <= b@.len(),
            r is Err ==> r->Err_0 == CodecError::DecodingError,
    {
        reveal(parse_path_node);
        let ghost s = b@.skip(pos as int);
        let (public_key, at1) = decode_vec(VecSize::VecU16, b, pos)?;
        assert(b@.skip(at1 as int) =~= s.skip((at1 - pos) as int));
        let (encrypted_path_secret, at2) = decode_ciphertexts(b, at1)?;
        Ok((UpdatePathNode { public_key, encrypted_path_secret }, at2))
    }
}

/// Appends a vector of update path nodes behind its length prefix.
pub fn encode_path_nodes(v: &Vec<UpdatePathNode>, buffer: &mut Vec<u8>) -> (r: Result<(), CodecError>)
    ensures
        r is Ok <==> path_nodes_ok(path_node_views(v@)),
        r is Ok ==> final(buffer)@ == old(buffer)@ + vec_bytes(path_node_views(v@), path_node_enc(), VecSize::VecU16),
{
    reveal(vec_bytes);
    let ghost views = path_node_views(v@);
    let mut body: Vec<u8> = Vec::new();
    let mut i: usize = 0;
    while i < v.len()
        invariant
            i <= v@.len(),
            views == path_node_views(v@),
            forall|j: int| 0 <= j < i ==> path_node_ok(#[trigger] views[j]),
            body@ == list_bytes(views.take(i as int), path_node_enc()),
        decreases v@.len() - i,
    {
        assert(views[i as int] == v@[i as int]@);
        match v[i].encode(&mut body) {
            Ok(()) => {},
            Err(e) => {
                return Err(e);
            },
        }
        proof {
            assert(views.take(i + 1) =~= views.take(i as int).push(views[i as int]));
            lemma_list_bytes_push(views.take(i as int), views[i as int], path_node_enc());
        }
        i = i + 1;
    }
    proof {
        assert(views.take(i as int) =~= views);
    }
    encode_vec(VecSize::VecU16, buffer, body.as_slice())
}

/// Reads a vector of update path nodes behind its length prefix.
pub fn decode_path_nodes(b: &[u8], pos: usize) -> (r: Result<(Vec<UpdatePathNode>, usize), CodecError>)
    requires
        pos <= b@.len(),
    ensures
        match parse_vec(b@.skip(pos as int), path_node_parse(), VecSize::VecU16) {
            None => r is Err,
            Some((m, k)) => r is Ok && path_node_views(r->Ok_0.0@) == m && r->Ok_0.1 == pos + k,
        },
        r is Ok ==> pos <= r->Ok_0.1 <= b@.len(),
        r is Err ==> r->Err_0 == CodecError::DecodingError,
{
    reveal(parse_vec);
    let (body, next) = decode_vec(VecSize::VecU16, b, pos)?;
    let mut out: Vec<UpdatePathNode> = Vec::new();
    proof {
        assert(body@.skip(0) =~= body@);
        assert(path_node_views(out@) =~= Seq::empty());
        let whole = parse_list(body@, path_node_parse());
        if whole is Some {
            assert(path_node_views(out@) + whole->Some_0 =~= whole->Some_0);
        }
    }
    let mut p: usize = 0;
    while p < body.len()
        invariant
            p <= body@.len(),
            pos <= next <= b@.len(),
            parse_vec(b@.skip(pos as int), path_node_parse(), VecSize::VecU16) == match parse_list(
                body@,
                path_node_parse(),
            ) {
                None => None,
                Some(m) => Some((m, (next - pos) as nat)),
            },
            parse_list(body@, path_node_parse()) == match parse_list(body@.skip(p as int), path_node_parse()) {
                None => None,
                Some(tail) => Some(path_node_views(out@) + tail),
            },
        decreases body@.len() - p,
    {
        let ghost before = out@;
        let (e, at2) = match UpdatePathNode::decode(body.as_slice(), p) {
            Ok(x) => x,
            Err(err) => {
                proof {
                    let rest = body@.skip(p as int);
                    assert(rest.len() > 0);
                    assert(path_node_parse()(rest) == parse_path_node(rest));
                    assert(parse_list(rest, path_node_parse()) is None);
                }
                return Err(err);
            },
        };
        if at2 == p || at2 > body.len() {
            return Err(CodecError::DecodingError);
        }
        out.push(e);
        proof {
            assert(body@.skip(p as int).skip((at2 - p) as int) =~= body@.skip(at2 as int));
            assert(path_node_views(out@) =~= path_node_views(before).push(e@));
            let tail = parse_list(body@.skip(at2 as int), path_node_parse());
            if tail is Some {
                assert(path_node_views(out@) + tail->Some_0 =~= path_node_views(before) + (seq![e@] + tail->Some_0));
            }
        }
        p = at2;
    }
    proof {
        assert(path_node_views(out@) + Seq::empty() =~= path_node_views(out@));
    }
    Ok((out, next))
}

// ---------------------------------------------------------------------------
// Leaf indices
// ---------------------------------------------------------------------------

pub open spec fn leaf_index_ok(m: nat) -> bool {
    m <= 0xffff_ffff
}

pub open spec fn leaf_index_bytes(m: nat) -> Seq<u8> {
    uint_bytes(m, VecSize::VecU32)
}

pub open spec fn parse_leaf_index(b: Seq<u8>) -> Option<(nat, nat)> {
    parse_uint(b, VecSize::VecU32)
}

pub open spec fn leaf_index_enc() -> spec_fn(nat) -> Seq<u8> {
    |m: nat| leaf_index_bytes(m)
}

pub open spec fn leaf_index_parse() -> spec_fn(Seq<u8>) -> Option<(nat, nat)> {
    |b: Seq<u8>| parse_leaf_index(b)
}

pub open spec fn leaf_indices_ok(v: Seq<nat>) -> bool {
    &&& forall|i: int| 0 <= i < v.len() ==> leaf_index_ok(#[trigger] v[i])
    &&& list_bytes(v, leaf_index_enc()).len() <= 0xffff_ffff
}

proof fn lemma_leaf_indices_invert(v: Seq<nat>)
    requires
        forall|i: int| 0 <= i < v.len() ==> leaf_index_ok(#[trigger] v[i]),
    ensures
        forall|i: int|
            0 <= i < v.len() ==> inverts(leaf_index_enc(), leaf_index_parse(), #[trigger] v[i]),
{
    assert forall|i: int| 0 <= i < v.len() implies inverts(
        leaf_index_enc(),
        leaf_index_parse(),
        #[trigger] v[i],
    ) by {
        assert forall|rest: Seq<u8>| #[trigger]
            leaf_index_parse()(leaf_index_enc()(v[i]) + rest) == Some(
                (v[i], leaf_index_enc()(v[i]).len()),
            ) by {
            lemma_uint_round_trip(v[i], VecSize::VecU32, rest);
        }
        lemma_uint_round_trip(v[i], VecSize::VecU32, Seq::empty());
    }
}

impl LeafIndex {
    pub fn encode(&self, buffer: &mut Vec<u8>) -> (r: Result<(), CodecError>)
        ensures
            r is Ok <==> leaf_index_ok(self@),
            r is Ok ==> final(buffer)@ == old(buffer)@ + leaf_index_bytes(self@),
    {
        write_uint(buffer, self.0 as u64, VecSize::VecU32);
        Ok(())
    }

    pub fn decode(b: &[u8], pos: usize) -> (r: Result<(LeafIndex, usize), CodecError>)
        requires
            pos <= b@.len(),
        ensures
            match parse_leaf_index(b@.skip(pos as int)) {
                None => r is Err,
                Some((m, k)) => r is Ok && r->Ok_0.0@ == m && r->Ok_0.1 == pos + k,
            },
            r is Ok ==> pos <= r->Ok_0.1 <= b@.len(),
            r is Err ==> r->Err_0 == CodecError::DecodingError,
    {
        let (v, at1) = read_uint(b, pos, VecSize::VecU32)?;
        Ok((LeafIndex(v as u32), at1))
    }
}

/// Appends a vector of leaf indices behind its length prefix.
pub fn encode_leaf_indices(v: &Vec<LeafIndex>, buffer: &mut Vec<u8>) -> (r: Result<(), CodecError>)
    ensures
        r is Ok <==> leaf_indices_ok(leaf_views(v@)),
        r is Ok ==> final(buffer)@ == old(buffer)@ + vec_bytes(leaf_views(v@), leaf_index_enc(), VecSize::VecU32),
{
    reveal(vec_bytes);
    let ghost views = leaf_views(v@);
    let mut body: Vec<u8> = Vec::new();
    let mut i: usize = 0;
    while i < v.len()
        invariant
            i <= v@.len(),
            views == leaf_views(v@),
            forall|j: int| 0 <= j < i ==> leaf_index_ok(#[trigger] views[j]),
            body@ == list_bytes(views.take(i as int), leaf_index_enc()),
        decreases v@.len() - i,
    {
        assert(views[i as int] == v@[i as int]@);
        match v[i].encode(&mut body) {
            Ok(()) => {},
            Err(e) => {
                return Err(e);
            },
        }
        proof {
            assert(views.take(i + 1) =~= views.take(i as int).push(views[i as int]));
            lemma_list_bytes_push(views.take(i as int), views[i as int], leaf_index_enc());
        }
        i = i + 1;
    }
    proof {
        assert(views.take(i as int) =~= views);
    }
    encode_vec(VecSize::VecU32, buffer, body.as_slice())
}

/// Reads a vector of leaf indices behind its length prefix.
pub fn decode_leaf_indices(b: &[u8], pos: usize) -> (r: Result<(Vec<LeafIndex>, usize), CodecError>)
    requires
        pos <= b@.len(),
    ensures
        match parse_vec(b@.skip(pos as int), leaf_index_parse(), VecSize::VecU32) {
            None => r is Err,
            Some((m, k)) => r is Ok && leaf_views(r->Ok_0.0@) == m && r->Ok_0.1 == pos + k,
        },
        r is Ok ==> pos <= r->Ok_0.1 <= b@.len(),
        r is Err ==> r->Err_0 == CodecError::DecodingError,
{
    reveal(parse_vec);
    let (body, next) = decode_vec(VecSize::VecU32, b, pos)?;
    let mut out: Vec<LeafIndex> = Vec::new();
    proof {
        assert(body@.skip(0) =~= body@);
        assert(leaf_views(out@) =~= Seq::empty());
        let whole = parse_list(body@, leaf_index_parse());
        if whole is Some {
            assert(leaf_views(out@) + whole->Some_0 =~= whole->Some_0);
        }
    }
    let mut p: usize = 0;
    while p < body.len()
        invariant
            p <= body@.len(),
            pos <= next <= b@.len(),
            parse_vec(b@.skip(pos as int), leaf_index_parse(), VecSize::VecU32) == match parse_list(
                body@,
                leaf_index_parse(),
            ) {
                None => None,
                Some(m) => Some((m, (next - pos) as nat)),
            },
            parse_list(body@, leaf_index_parse()) == match parse_list(body@.skip(p as int), leaf_index_parse()) {
                None => None,
                Some(tail) => Some(leaf_views(out@) + tail),
            },
        decreases body@.len() - p,
    {
        let ghost before = out@;
        let (e, at2) = match LeafIndex::decode(body.as_slice(), p) {
            Ok(x) => x,
            Err(err) => {
                proof {
                    let rest = body@.skip(p as int);
                    assert(rest.len() > 0);
                    assert(leaf_index_parse()(rest) == parse_leaf_index(rest));
                    assert(parse_list(rest, leaf_index_parse()) is None);
                }
                return Err(err);
            },
        };
        if at2 == p || at2 > body.len() {
            return Err(CodecError::DecodingError);
        }
        out.push(e);
        proof {
            assert(body@.skip(p as int).skip((at2 - p) as int) =~= body@.skip(at2 as int));
            assert(leaf_views(out@) =~= leaf_views(before).push(e@));
            let tail = parse_list(body@.skip(at2 as int), leaf_index_parse());
            if tail is Some {
                assert(leaf_views(out@) + tail->Some_0 =~= leaf_views(before) + (seq![e@] + tail->Some_0));
            }
        }
        p = at2;
    }
    proof {
        assert(leaf_views(out@) + Seq::empty() =~= leaf_views(out@));
    }
    Ok((out, next))
}

// ---------------------------------------------------------------------------
// ParentNode
// ---------------------------------------------------------------------------

pub open spec fn parent_node_ok(m: ParentNodeModel) -> bool {
    &&& m.public_key.len() <= 0xffff
    &&& leaf_indices_ok(m.unmerged_leaves)
    &&& m.parent_hash.len() <= 0xff
}

#[verifier::opaque]
pub open spec fn parent_node_bytes(m: ParentNodeModel) -> Seq<u8> {
    opaque_bytes(m.public_key, VecSize::VecU16) + vec_bytes(
        m.unmerged_leaves,
        leaf_index_enc(),
        VecSize::VecU32,
    ) + opaque_bytes(m.parent_hash, VecSize::VecU8)
}

#[verifier::opaque]
pub open spec fn parse_parent_node(b: Seq<u8>) -> Option<(ParentNodeModel, nat)> {
    match parse_opaque(b, VecSize::VecU16) {
        None => None,
        Some((pk, n1)) => match parse_vec(b.skip(n1 as int), leaf_index_parse(), VecSize::VecU32) {
            None => None,
            Some((leaves, n2)) => match parse_opaque(b.skip((n1 + n2) as int), VecSize::VecU8) {
                None => None,
                Some((ph, n3)) => Some(
                    (
                        ParentNodeModel {
                            public_key: pk,
                            unmerged_leaves: leaves,
                            parent_hash: ph,
                        },
                        n1 + n2 + n3,
                    ),
                ),
            },
        },
    }
}

/// Every encodable parent node reads back from its encoding, whatever
/// follows it.
pub proof fn lemma_parent_node_round_trip(m: ParentNodeModel, rest: Seq<u8>)
    requires
        parent_node_ok(m),
    ensures
        parse_parent_node(parent_node_bytes(m) + rest) == Some((m, parent_node_bytes(m).len())),
        parent_node_bytes(m).len() > 0,
{
    reveal(parse_parent_node);
    reveal(parent_node_bytes);
    let a = opaque_bytes(m.public_key, VecSize::VecU16);
    let b = vec_bytes(m.unmerged_leaves, leaf_index_enc(), VecSize::VecU32);
    let c = opaque_bytes(m.parent_hash, VecSize::VecU8);
    let t = parent_node_bytes(m) + rest;
    lemma_opaque_round_trip(m.public_key, VecSize::VecU16, b + c + rest);
    lemma_leaf_indices_invert(m.unmerged_leaves);
    lemma_vec_round_trip(
        m.unmerged_leaves,
        leaf_index_enc(),
        leaf_index_parse(),
        VecSize::VecU32,
        c + rest,
    );
    lemma_opaque_round_trip(m.parent_hash, VecSize::VecU8, rest);
    assert(t =~= a + (b + c + rest));
    assert(t.skip(a.len() as int) =~= b + (c + rest));
    assert(t.skip((a.len() + b.len()) as int) =~= c + rest);
}

impl ParentNode {
    pub fn encode(&self, buffer: &mut Vec<u8>) -> (r: Result<(), CodecError>)
        ensures
            r is Ok <==> parent_node_ok(self@),
            r is Ok ==> final(buffer)@ == old(buffer)@ + parent_node_bytes(self@),
    {
        reveal(parent_node_bytes);
        let ghost start = buffer@;
        if self.public_key.len() > 0xffff || self.parent_hash.len() > 0xff {
            return Err(CodecError::EncodingError);
        }
        let mut tail: Vec<u8> = Vec::new();
        encode_leaf_indices(&self.unmerged_leaves, &mut tail)?;
        encode_vec(VecSize::VecU8, &mut tail, self.parent_hash.as_slice())?;
        encode_vec(VecSize::VecU16, buffer, self.public_key.as_slice())?;
        append_bytes(buffer, &tail);
        proof {
            assert(buffer@ =~= start + parent_node_bytes(self@));
        }
        Ok(())
    }

    pub fn decode(b: &[u8], pos: usize) -> (r: Result<(ParentNode, usize), CodecError>)
        requires
            pos <= b@.len(),
        ensures
            match parse_parent_node(b@.skip(pos as int)) {
                None => r is Err,
                Some((m, k)) => r is Ok && r->Ok_0.0@ == m && r->Ok_0.1 == pos + k,
            },
            r is Ok ==> pos <= r->Ok_0.1 <= b@.len(),
            r is Err ==> r->Err_0 == CodecError::DecodingError,
    {
        reveal(parse_parent_node);
        let ghost s = b@.skip(pos as int);
        let (public_key, at1) = decode_vec(VecSize::VecU16, b, pos)?;
        assert(b@.skip(at1 as int) =~= s.skip((at1 - pos) as int));
        let (unmerged_leaves, at2) = decode_leaf_indices(b, at1)?;
        assert(b@.skip(at2 as int) =~= s.skip((at2 - pos) as int));
        let (parent_hash, at3) = decode_vec(VecSize::VecU8, b, at2)?;
        Ok((ParentNode { public_key, unmerged_leaves, parent_hash }, at3))
    }
}

// ---------------------------------------------------------------------------
// UpdatePath
// ---------------------------------------------------------------------------

pub open spec fn update_path_ok(m: UpdatePathModel) -> bool {
    key_package_ok(m.leaf_key_package) && path_nodes_ok(m.nodes)
}

#[verifier::opaque]
pub open spec fn update_path_bytes(m: UpdatePathModel) -> Seq<u8> {
    key_package_bytes(m.leaf_key_package) + vec_bytes(m.nodes, path_node_enc(), VecSize::VecU16)
}

#[verifier::opaque]
pub open spec fn parse_update_path(b: Seq<u8>) -> Option<(UpdatePathModel, nat)> {
    match parse_key_package(b) {
        None => None,
        Some((kp, n1)) => match parse_vec(b.skip(n1 as int), path_node_parse(), VecSize::VecU16) {
            None => None,
            Some((nodes, n2)) => Some(
                (UpdatePathModel { leaf_key_package: kp, nodes }, n1 + n2),
            ),
        },
    }
}

/// Every encodable update path reads back from its encoding, whatever
/// follows it.
pub proof fn lemma_update_path_round_trip(m: UpdatePathModel, rest: Seq<u8>)
    requires
        update_path_ok(m),
    ensures
        parse_update_path(update_path_bytes(m) + rest) == Some((m, update_path_bytes(m).len())),
        update_path_bytes(m).len() > 0,
{
    reveal(parse_update_path);
    reveal(update_path_bytes);
    let a = key_package_bytes(m.leaf_key_package);
    let b = vec_bytes(m.nodes, path_node_enc(), VecSize::VecU16);
    let t = update_path_bytes(m) + rest;
    lemma_key_package_round_trip(m.leaf_key_package, b + rest);
    lemma_path_nodes_invert(m.nodes);
    lemma_vec_round_trip(m.nodes, path_node_enc(), path_node_parse(), VecSize::VecU16, rest);
    assert(t =~= a + (b + rest));
    assert(t.skip(a.len() as int) =~= b + rest);
}

impl UpdatePath {
    pub fn encode(&self, buffer: &mut Vec<u8>) -> (r: Result<(), CodecError>)
        ensures
            r is Ok <==> update_path_ok(self@),
            r is Ok ==> final(buffer)@ == old(buffer)@ + update_path_bytes(self@),
    {
        reveal(update_path_bytes);
        let ghost start = buffer@;
        let mut tail: Vec<u8> = Vec::new();
        encode_path_nodes(&self.nodes, &mut tail)?;
        let mut head: Vec<u8> = Vec::new();
        self.leaf_key_package.encode(&mut head)?;
        append_bytes(buffer, &head);
        append_bytes(buffer, &tail);
        proof {
            assert(buffer@ =~= start + update_path_bytes(self@));
        }
        Ok(())
    }

    pub fn decode(b: &[u8], pos: usize) -> (r: Result<(UpdatePath, usize), CodecError>)
        requires
            pos <= b@.len(),
        ensures
            match parse_update_path(b@.skip(pos as int)) {
                None => r is Err,
                Some((m, k)) => r is Ok && r->Ok_0.0@ == m && r->Ok_0.1 == pos + k,
            },
            r is Ok ==> pos <= r->Ok_0.1 <= b@.len(),
            r is Err ==> r->Err_0 == CodecError::DecodingError,
    {
        reveal(parse_update_path);
        let ghost s = b@.skip(pos as int);
        let (leaf_key_package, at1) = KeyPackage::decode(b, pos)?;
        assert(b@.skip(at1 as int) =~= s.skip((at1 - pos) as int));
        let (nodes, at2) = decode_path_nodes(b, at1)?;
        Ok((UpdatePath { leaf_key_package, nodes }, at2))
    }
}

// ---------------------------------------------------------------------------
// Node
// ---------------------------------------------------------------------------

/// The tag byte of a node kind.
pub open spec fn node_type_byte(t: NodeType) -> u8 {
    match t {
        NodeType::Leaf => 1,
        NodeType::Parent => 2,
        NodeType::Default => 255,
    }
}

/// The node kind that a tag byte names; unknown bytes name `Default`.
pub open spec fn node_type_of(b: u8) -> NodeType {
    if b == 1 {
        NodeType::Leaf
    } else if b == 2 {
        NodeType::Parent
    } else {
        NodeType::Default
    }
}

impl NodeType {
    pub fn to_u8(&self) -> (r: u8)
        ensures
            r == node_type_byte(*self),
    {
        match self {
            NodeType::Leaf => 1,
            NodeType::Parent => 2,
            NodeType::Default => 255,
        }
    }

    pub fn from_u8(b: u8) -> (r: NodeType)
        ensures
            r == node_type_of(b),
    {
        if b == 1 {
            NodeType::Leaf
        } else if b == 2 {
            NodeType::Parent
        } else {
            NodeType::Default
        }
    }

    pub fn encode(&self, buffer: &mut Vec<u8>) -> (r: Result<(), CodecError>)
        ensures
            r is Ok,
            final(buffer)@ == old(buffer)@.push(node_type_byte(*self)),
    {
        buffer.push(self.to_u8());
        Ok(())
    }

    pub fn decode(b: &[u8], pos: usize) -> (r: Result<(NodeType, usize), CodecError>)
        requires
            pos <= b@.len(),
        ensures
            pos < b@.len() ==> r == Ok::<(NodeType, usize), CodecError>(
                (node_type_of(b@[pos as int]), (pos + 1) as usize),
            ),
            pos == b@.len() ==> r == Err::<(NodeType, usize), CodecError>(CodecError::DecodingError),
    {
        if pos >= b.len() {
            return Err(CodecError::DecodingError);
        }
        Ok((NodeType::from_u8(b[pos]), pos + 1))
    }
}

pub open spec fn node_ok(m: NodeModel) -> bool {
    match m {
        NodeModel::Leaf(kp) => key_package_ok(kp),
        NodeModel::Parent(p) => parent_node_ok(p),
    }
}

pub open spec fn node_bytes(m: NodeModel) -> Seq<u8> {
    match m {
        NodeModel::Leaf(kp) => seq![1u8] + key_package_bytes(kp),
        NodeModel::Parent(p) => seq![2u8] + parent_node_bytes(p),
    }
}

pub open spec fn parse_node(b: Seq<u8>) -> Option<(NodeModel, nat)> {
    if b.len() == 0 {
        None
    } else {
        match node_type_of(b[0]) {
            NodeType::Leaf => match parse_key_package(b.skip(1)) {
                None => None,
                Some((kp, k)) => Some((NodeModel::Leaf(kp), k + 1)),
            },
            NodeType::Parent => match parse_parent_node(b.skip(1)) {
                None => None,
                Some((p, k)) => Some((NodeModel::Parent(p), k + 1)),
            },
            NodeType::Default => None,
        }
    }
}

/// Every encodable node reads back from its encoding, whatever follows it.
pub proof fn lemma_node_round_trip(m: NodeModel, rest: Seq<u8>)
    requires
        node_ok(m),
    ensures
        parse_node(node_bytes(m) + rest) == Some((m, node_bytes(m).len())),
{
    let t = node_bytes(m) + rest;
    match m {
        NodeModel::Leaf(kp) => {
            lemma_key_package_round_trip(kp, rest);
            assert(t.skip(1) =~= key_package_bytes(kp) + rest);
        },
        NodeModel::Parent(p) => {
            lemma_parent_node_round_trip(p, rest);
            assert(t.skip(1) =~= parent_node_bytes(p) + rest);
        },
    }
}

impl Node {
    pub fn encode(&self, buffer: &mut Vec<u8>) -> (r: Result<(), CodecError>)
        ensures
            r is Ok <==> node_ok(self@),
            r is Ok ==> final(buffer)@ == old(buffer)@ + node_bytes(self@),
    {
        let ghost start = buffer@;
        let mut body: Vec<u8> = Vec::new();
        match self {
            Node::Leaf(kp) => {
                kp.encode(&mut body)?;
                NodeType::Leaf.encode(buffer)?;
            },
            Node::Parent(parent) => {
                parent.encode(&mut body)?;
                NodeType::Parent.encode(buffer)?;
            },
        }
        append_bytes(buffer, &body);
        proof {
            assert(buffer@ =~= start + node_bytes(self@));
        }
        Ok(())
    }

    pub fn decode(b: &[u8], pos: usize) -> (r: Result<(Node, usize), CodecError>)
        requires
            pos <= b@.len(),
        ensures
            match parse_node(b@.skip(pos as int)) {
                None => r is Err,
                Some((m, k)) => r is Ok && r->Ok_0.0@ == m && r->Ok_0.1 == pos + k,
            },
            r is Ok ==> pos <= r->Ok_0.1 <= b@.len(),
            r is Err ==> r->Err_0 == CodecError::DecodingError,
    {
        let ghost s = b@.skip(pos as int);
        if pos >= b.len() {
            return Err(CodecError::DecodingError);
        }
        let (node_type, at1) = NodeType::decode(b, pos)?;
        assert(at1 == pos + 1);
        assert(node_type == node_type_of(b@[pos as int]));
        assert(s[0] == b@[pos as int]);
        assert(b@.skip(at1 as int) =~= s.skip(1));
        match node_type {
            NodeType::Leaf => {
                let (key_package, at2) = KeyPackage::decode(b, at1)?;
                Ok((Node::Leaf(key_package), at2))
            },
            NodeType::Parent => {
                let (parent_node, at2) = ParentNode::decode(b, at1)?;
                Ok((Node::Parent(parent_node), at2))
            },
            NodeType::Default => Err(CodecError::DecodingError),
        }
    }
}

// ---------------------------------------------------------------------------
// Tree slots: optional nodes, as a ratchet tree travels on the wire
// ---------------------------------------------------------------------------

pub open spec fn slot_view(s: Option<Node>) -> Option<NodeModel> {
    match s {
        None => None,
        Some(n) => Some(n@),
    }
}

pub open spec fn slot_views(v: Seq<Option<Node>>) -> Seq<Option<NodeModel>> {
    v.map_values(|s: Option<Node>| slot_view(s))
}

pub open spec fn slot_ok(m: Option<NodeModel>) -> bool {
    match m {
        None => true,
        Some(n) => node_ok(n),
    }
}

pub open spec fn slot_bytes(m: Option<NodeModel>) -> Seq<u8> {
    match m {
        None => seq![0u8],
        Some(n) => seq![1u8] + node_bytes(n),
    }
}

pub open spec fn parse_slot(b: Seq<u8>) -> Option<(Option<NodeModel>, nat)> {
    if b.len() == 0 {
        None
    } else if b[0] == 0 {
        Some((None, 1))
    } else if b[0] == 1 {
        match parse_node(b.skip(1)) {
            None => None,
            Some((n, k)) => Some((Some(n), k + 1)),
        }
    } else {
        None
    }
}

pub open spec fn slot_enc() -> spec_fn(Option<NodeModel>) -> Seq<u8> {
    |m: Option<NodeModel>| slot_bytes(m)
}

pub open spec fn slot_parse() -> spec_fn(Seq<u8>) -> Option<(Option<NodeModel>, nat)> {
    |b: Seq<u8>| parse_slot(b)
}

pub open spec fn slots_ok(v: Seq<Option<NodeModel>>) -> bool {
    &&& forall|i: int| 0 <= i < v.len() ==> slot_ok(#[trigger] v[i])
    &&& list_bytes(v, slot_enc()).len() <= 0xffff_ffff
}

pub proof fn lemma_slot_round_trip(m: Option<NodeModel>, rest: Seq<u8>)
    requires
        slot_ok(m),
    ensures
        parse_slot(slot_bytes(m) + rest) == Some((m, slot_bytes(m).len())),
{
    let t = slot_bytes(m) + rest;
    match m {
        None => {},
        Some(n) => {
            lemma_node_round_trip(n, rest);
            assert(t.skip(1) =~= node_bytes(n) + rest);
        },
    }
}

proof fn lemma_slots_invert(v: Seq<Option<NodeModel>>)
    requires
        forall|i: int| 0 <= i < v.len() ==> slot_ok(#[trigger] v[i]),
    ensures
        forall|i: int| 0 <= i < v.len() ==> inverts(slot_enc(), slot_parse(), #[trigger] v[i]),
{
    assert forall|i: int| 0 <= i < v.len() implies inverts(
        slot_enc(),
        slot_parse(),
        #[trigger] v[i],
    ) by {
        assert forall|rest: Seq<u8>| #[trigger]
            slot_parse()(slot_enc()(v[i]) + rest) == Some((v[i], slot_enc()(v[i]).len())) by {
            lemma_slot_round_trip(v[i], rest);
        }
    }
}

/// A ratchet tree as a list of optional nodes reads back from its
/// encoding, whatever follows it.
pub proof fn lemma_tree_nodes_round_trip(v: Seq<Option<NodeModel>>, rest: Seq<u8>)
    requires
        slots_ok(v),
    ensures
        parse_vec(vec_bytes(v, slot_enc(), VecSize::VecU32) + rest, slot_parse(), VecSize::VecU32)
            == Some((v, vec_bytes(v, slot_enc(), VecSize::VecU32).len())),
{
    lemma_slots_invert(v);
    lemma_vec_round_trip(v, slot_enc(), slot_parse(), VecSize::VecU32, rest);
}

/// A copy of a slot.
pub fn duplicate_slot(s: &Option<Node>) -> (r: Option<Node>)
    ensures
        slot_view(r) == slot_view(*s),
{
    match s {
        None => None,
        Some(Node::Leaf(kp)) => Some(Node::Leaf(kp.duplicate())),
        Some(Node::Parent(p)) => Some(Node::Parent(p.duplicate())),
    }
}

/// A copy of a list of slots.
pub fn duplicate_slots(v: &Vec<Option<Node>>) -> (r: Vec<Option<Node>>)
    ensures
        slot_views(r@) == slot_views(v@),
{
    let mut out: Vec<Option<Node>> = Vec::new();
    let mut i: usize = 0;
    while i < v.len()
        invariant
            i <= v@.len(),
            slot_views(out@) == slot_views(v@.take(i as int)),
        decreases v@.len() - i,
    {
        let ghost before = out@;
        out.push(duplicate_slot(&v[i]));
        i = i + 1;
        proof {
            assert(v@.take(i as int) =~= v@.take(i - 1).push(v@[i - 1]));
            assert(slot_views(out@) =~= slot_views(before).push(slot_view(v@[i - 1])));
            assert(slot_views(v@.take(i as int)) =~= slot_views(v@.take(i - 1)).push(
                slot_view(v@[i - 1]),
            ));
        }
    }
    proof {
        assert(v@.take(i as int) =~= v@);
    }
    out
}

pub fn encode_slot(s: &Option<Node>, buffer: &mut Vec<u8>) -> (r: Result<(), CodecError>)
    ensures
        r is Ok <==> slot_ok(slot_view(*s)),
        r is Ok ==> final(buffer)@ == old(buffer)@ + slot_bytes(slot_view(*s)),
{
    match s {
        None => {
            buffer.push(0u8);
            Ok(())
        },
        Some(n) => {
            let mut body: Vec<u8> = Vec::new();
            n.encode(&mut body)?;
            buffer.push(1u8);
            let ghost mid = buffer@;
            append_bytes(buffer, &body);
            Ok(())
        },
    }
}

pub fn decode_slot(b: &[u8], pos: usize) -> (r: Result<(Option<Node>, usize), CodecError>)
    requires
        pos <= b@.len(),
    ensures
        match parse_slot(b@.skip(pos as int)) {
            None => r is Err,
            Some((m, k)) => r is Ok && slot_view(r->Ok_0.0) == m && r->Ok_0.1 == pos + k,
        },
        r is Ok ==> pos <= r->Ok_0.1 <= b@.len(),
        r is Err ==> r->Err_0 == CodecError::DecodingError,
{
    let ghost s = b@.skip(pos as int);
    if pos >= b.len() {
        return Err(CodecError::DecodingError);
    }
    assert(s[0] == b@[pos as int]);
    if b[pos] == 0 {
        Ok((None, pos + 1))
    } else if b[pos] == 1 {
        assert(b@.skip(pos + 1) =~= s.skip(1));
        let (n, p) = Node::decode(b, pos + 1)?;
        Ok((Some(n), p))
    } else {
        Err(CodecError::DecodingError)
    }
}

/// Appends a vector of optional nodes (a ratchet tree) behind its length prefix.
pub fn encode_tree_nodes(v: &Vec<Option<Node>>, buffer: &mut Vec<u8>) -> (r: Result<(), CodecError>)
    ensures
        r is Ok <==> slots_ok(slot_views(v@)),
        r is Ok ==> final(buffer)@ == old(buffer)@ + vec_bytes(slot_views(v@), slot_enc(), VecSize::VecU32),
{
    reveal(vec_bytes);
    let ghost views = slot_views(v@);
    let mut body: Vec<u8> = Vec::new();
    let mut i: usize = 0;
    while i < v.len()
        invariant
            i <= v@.len(),
            views == slot_views(v@),
            forall|j: int| 0 <= j < i ==> slot_ok(#[trigger] views[j]),
            body@ == list_bytes(views.take(i as int), slot_enc()),
        decreases v@.len() - i,
    {
        assert(views[i as int] == slot_view(v@[i as int]));
        match encode_slot(&v[i], &mut body) {
            Ok(()) => {},
            Err(e) => {
                return Err(e);
            },
        }
        proof {
            assert(views.take(i + 1) =~= views.take(i as int).push(views[i as int]));
            lemma_list_bytes_push(views.take(i as int), views[i as int], slot_enc());
        }
        i = i + 1;
    }
    proof {
        assert(views.take(i as int) =~= views);
    }
    encode_vec(VecSize::VecU32, buffer, body.as_slice())
}

/// Reads a vector of optional nodes (a ratchet tree) behind its length prefix.
pub fn decode_tree_nodes(b: &[u8], pos: usize) -> (r: Result<(Vec<Option<Node>>, usize), CodecError>)
    requires
        pos <= b@.len(),
    ensures
        match parse_vec(b@.skip(pos as int), slot_parse(), VecSize::VecU32) {
            None => r is Err,
            Some((m, k)) => r is Ok && slot_views(r->Ok_0.0@) == m && r->Ok_0.1 == pos + k,
        },
        r is Ok ==> pos <= r->Ok_0.1 <= b@.len(),
        r is Err ==> r->Err_0 == CodecError::DecodingError,
{
    reveal(parse_vec);
    let (body, next) = decode_vec(VecSize::VecU32, b, pos)?;
    let mut out: Vec<Option<Node>> = Vec::new();
    proof {
        assert(body@.skip(0) =~= body@);
        assert(slot_views(out@) =~= Seq::empty());
        let whole = parse_list(body@, slot_parse());
        if whole is Some {
            assert(slot_views(out@) + whole->Some_0 =~= whole->Some_0);
        }
    }
    let mut p: usize = 0;
    while p < body.len()
        invariant
            p <= body@.len(),
            pos <= next <= b@.len(),
            parse_vec(b@.skip(pos as int), slot_parse(), VecSize::VecU32) == match parse_list(
                body@,
                slot_parse(),
            ) {
                None => None,
                Some(m) => Some((m, (next - pos) as nat)),
            },
            parse_list(body@, slot_parse()) == match parse_list(body@.skip(p as int), slot_parse()) {
                None => None,
                Some(tail) => Some(slot_views(out@) + tail),
            },
        decreases body@.len() - p,
    {
        let ghost before = out@;
        let (e, at2) = match decode_slot(body.as_slice(), p) {
            Ok(x) => x,
            Err(err) => {
                proof {
                    let rest = body@.skip(p as int);
                    assert(rest.len() > 0);
                    assert(slot_parse()(rest) == parse_slot(rest));
                    assert(parse_list(rest, slot_parse()) is None);
                }
                return Err(err);
            },
        };
        if at2 == p || at2 > body.len() {
            return Err(CodecError::DecodingError);
        }
        out.push(e);
        proof {
            assert(body@.skip(p as int).skip((at2 - p) as int) =~= body@.skip(at2 as int));
            assert(slot_views(out@) =~= slot_views(before).push(slot_view(e)));
            let tail = parse_list(body@.skip(at2 as int), slot_parse());
            if tail is Some {
                assert(slot_views(out@) + tail->Some_0 =~= slot_views(before) + (seq![slot_view(e)] + tail->Some_0));
            }
        }
        p = at2;
    }
    proof {
        assert(slot_views(out@) + Seq::empty() =~= slot_views(out@));
    }
    Ok((out, next))
}

// ---------------------------------------------------------------------------
// SecretTreeNode
// ---------------------------------------------------------------------------

impl SecretTreeNode {
    pub fn encode(&self, buffer: &mut Vec<u8>) -> (r: Result<(), CodecError>)
        ensures
            r is Ok <==> self.secret@.len() <= 0xff,
            r is Ok ==> final(buffer)@ == old(buffer)@ + opaque_bytes(
                self.secret@,
                VecSize::VecU8,
            ),
    {
        encode_vec(VecSize::VecU8, buffer, self.secret.as_slice())
    }
}

} // verus!
