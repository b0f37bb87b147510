//! Proposals, references to them, and the queue that orders them.

use vstd::prelude::*;
use openmls_rust_crypto::OpenMlsRustCrypto;
use crate::ciphersuite::{CiphersuiteName, suite_hash};
use crate::codec::{
    CodecError, VecSize, append_bytes, copy_bytes, decode_vec, encode_vec, lemma_opaque_round_trip,
    lemma_uint_round_trip, opaque_bytes, parse_opaque, parse_uint, read_uint, uint_bytes,
    write_uint,
};
use crate::crypto::{hash, hash_of};
use crate::key_package::{
    KeyPackage, KeyPackageModel, key_package_bytes, key_package_ok, lemma_key_package_round_trip,
    parse_key_package,
};
use crate::secret::equal_ct;

verus! {

/// The kinds of proposals.
#[derive(Clone, Copy, Debug, PartialEq, Eq, Structural)]
pub enum ProposalType {
    Add,
    Update,
    Remove,
}

/// A proposal to remove the member at a leaf.
#[derive(Clone, Copy, Debug, PartialEq, Eq, Structural)]
pub struct RemoveProposal {
    pub removed: u32,
}

/// A proposed change to the group.
#[derive(Clone, Debug, PartialEq, Eq)]
pub enum Proposal {
    Add(KeyPackage),
    Update(KeyPackage),
    Remove(RemoveProposal),
}

pub enum ProposalModel {
    Add(KeyPackageModel),
    Update(KeyPackageModel),
    Remove(u32),
}

impl View for Proposal {
    type V = ProposalModel;

    open spec fn view(&self) -> ProposalModel {
        match self {
            Proposal::Add(kp) => ProposalModel::Add(kp@),
            Proposal::Update(kp) => ProposalModel::Update(kp@),
            Proposal::Remove(r) => ProposalModel::Remove(r.removed),
        }
    }
}

/// A reference to a proposal: the hash of its encoding.
#[derive(Clone, Debug, PartialEq, Eq)]
pub struct ProposalReference {
    pub value: Vec<u8>,
}

/// A proposal carried inline in a commit, or a reference to one sent
/// before.
#[derive(Clone, Debug, PartialEq, Eq)]
pub enum ProposalOrRef {
    Proposal(Proposal),
    Reference(ProposalReference),
}

pub enum ProposalOrRefModel {
    Proposal(ProposalModel),
    Reference(Seq<u8>),
}

impl View for ProposalOrRef {
    type V = ProposalOrRefModel;

    open spec fn view(&self) -> ProposalOrRefModel {
        match self {
            ProposalOrRef::Proposal(p) => ProposalOrRefModel::Proposal(p@),
            ProposalOrRef::Reference(r) => ProposalOrRefModel::Reference(r.value@),
        }
    }
}

pub open spec fn type_of(m: ProposalModel) -> ProposalType {
    match m {
        ProposalModel::Add(_) => ProposalType::Add,
        ProposalModel::Update(_) => ProposalType::Update,
        ProposalModel::Remove(_) => ProposalType::Remove,
    }
}

// ---------------------------------------------------------------------------
// Wire encoding
// ---------------------------------------------------------------------------

pub open spec fn proposal_ok(m: ProposalModel) -> bool {
    match m {
        ProposalModel::Add(kp) => key_package_ok(kp),
        ProposalModel::Update(kp) => key_package_ok(kp),
        ProposalModel::Remove(_) => true,
    }
}

pub open spec fn proposal_bytes(m: ProposalModel) -> Seq<u8> {
    match m {
        ProposalModel::Add(kp) => uint_bytes(1, VecSize::VecU16) + key_package_bytes(kp),
        ProposalModel::Update(kp) => uint_bytes(2, VecSize::VecU16) + key_package_bytes(kp),
        ProposalModel::Remove(r) => uint_bytes(3, VecSize::VecU16) + uint_bytes(
            r as nat,
            VecSize::VecU32,
        ),
    }
}

pub open spec fn parse_proposal(b: Seq<u8>) -> Option<(ProposalModel, nat)> {
    match parse_uint(b, VecSize::VecU16) {
        None => None,
        Some((t, n1)) => if t == 1 || t == 2 {
            match parse_key_package(b.skip(n1 as int)) {
                None => None,
                Some((kp, n2)) => Some(
                    (
                        if t == 1 {
                            ProposalModel::Add(kp)
                        } else {
                            ProposalModel::Update(kp)
                        },
                        n1 + n2,
                    ),
                ),
            }
        } else if t == 3 {
            match parse_uint(b.skip(n1 as int), VecSize::VecU32) {
                None => None,
                Some((r, n2)) => Some((ProposalModel::Remove(r as u32), n1 + n2)),
            }
        } else {
            None
        },
    }
}

/// Every encodable proposal reads back from its encoding, whatever follows
/// it.
pub proof fn lemma_proposal_round_trip(m: ProposalModel, rest: Seq<u8>)
    requires
        proposal_ok(m),
    ensures
        parse_proposal(proposal_bytes(m) + rest) == Some((m, proposal_bytes(m).len())),
{
    let t = proposal_bytes(m) + rest;
    match m {
        ProposalModel::Add(kp) => {
            let a = uint_bytes(1, VecSize::VecU16);
            lemma_uint_round_trip(1, VecSize::VecU16, key_package_bytes(kp) + rest);
            lemma_key_package_round_trip(kp, rest);
            assert(t =~= a + (key_package_bytes(kp) + rest));
            assert(t.skip(2) =~= key_package_bytes(kp) + rest);
        },
        ProposalModel::Update(kp) => {
            let a = uint_bytes(2, VecSize::VecU16);
            lemma_uint_round_trip(2, VecSize::VecU16, key_package_bytes(kp) + rest);
            lemma_key_package_round_trip(kp, rest);
            assert(t =~= a + (key_package_bytes(kp) + rest));
            assert(t.skip(2) =~= key_package_bytes(kp) + rest);
        },
        ProposalModel::Remove(r) => {
            let a = uint_bytes(3, VecSize::VecU16);
            let b = uint_bytes(r as nat, VecSize::VecU32);
            lemma_uint_round_trip(3, VecSize::VecU16, b + rest);
            lemma_uint_round_trip(r as nat, VecSize::VecU32, rest);
            assert(t =~= a + (b + rest));
            assert(t.skip(2) =~= b + rest);
        },
    }
}

pub open spec fn proposal_or_ref_ok(m: ProposalOrRefModel) -> bool {
    match m {
        ProposalOrRefModel::Proposal(p) => proposal_ok(p),
        ProposalOrRefModel::Reference(r) => r.len() <= 0xff,
    }
}

pub open spec fn proposal_or_ref_bytes(m: ProposalOrRefModel) -> Seq<u8> {
    match m {
        ProposalOrRefModel::Proposal(p) => seq![1u8] + proposal_bytes(p),
        ProposalOrRefModel::Reference(r) => seq![2u8] + opaque_bytes(r, VecSize::VecU8),
    }
}

pub open spec fn parse_proposal_or_ref(b: Seq<u8>) -> Option<(ProposalOrRefModel, nat)> {
    if b.len() == 0 {
        None
    } else if b[0] == 1 {
        match parse_proposal(b.skip(1)) {
            None => None,
            Some((p, k)) => Some((ProposalOrRefModel::Proposal(p), k + 1)),
        }
    } else if b[0] == 2 {
        match parse_opaque(b.skip(1), VecSize::VecU8) {
            None => None,
            Some((r, k)) => Some((ProposalOrRefModel::Reference(r), k + 1)),
        }
    } else {
        None
    }
}

/// Every encodable proposal or reference reads back from its encoding,
/// whatever follows it.
pub proof fn lemma_proposal_or_ref_round_trip(m: ProposalOrRefModel, rest: Seq<u8>)
    requires
        proposal_or_ref_ok(m),
    ensures
        parse_proposal_or_ref(proposal_or_ref_bytes(m) + rest) == Some(
            (m, proposal_or_ref_bytes(m).len()),
        ),
{
    let t = proposal_or_ref_bytes(m) + rest;
    match m {
        ProposalOrRefModel::Proposal(p) => {
            lemma_proposal_round_trip(p, rest);
            assert(t.skip(1) =~= proposal_bytes(p) + rest);
        },
        ProposalOrRefModel::Reference(r) => {
            lemma_opaque_round_trip(r, VecSize::VecU8, rest);
            assert(t.skip(1) =~= opaque_bytes(r, VecSize::VecU8) + rest);
        },
    }
}

impl Proposal {
    pub fn proposal_type(&self) -> (r: ProposalType)
        ensures
            r == type_of(self@),
    {
        match self {
            Proposal::Add(_) => ProposalType::Add,
            Proposal::Update(_) => ProposalType::Update,
            Proposal::Remove(_) => ProposalType::Remove,
        }
    }

    pub fn is_type(&self, proposal_type: ProposalType) -> (r: bool)
        ensures
            r == (type_of(self@) == proposal_type),
    {
        self.proposal_type() == proposal_type
    }

    /// A copy of the proposal.
    pub fn duplicate(&self) -> (r: Proposal)
        ensures
            r@ == self@,
    {
        match self {
            Proposal::Add(kp) => Proposal::Add(kp.duplicate()),
            Proposal::Update(kp) => Proposal::Update(kp.duplicate()),
            Proposal::Remove(r) => Proposal::Remove(RemoveProposal { removed: r.removed }),
        }
    }

    pub fn encode(&self, buffer: &mut Vec<u8>) -> (r: Result<(), CodecError>)
        ensures
            r is Ok <==> proposal_ok(self@),
            r is Ok ==> final(buffer)@ == old(buffer)@ + proposal_bytes(self@),
    {
        let ghost start = buffer@;
        match self {
            Proposal::Add(kp) => {
                let mut body: Vec<u8> = Vec::new();
                kp.encode(&mut body)?;
                write_uint(buffer, 1, VecSize::VecU16);
                append_bytes(buffer, &body);
            },
            Proposal::Update(kp) => {
                let mut body: Vec<u8> = Vec::new();
                kp.encode(&mut body)?;
                write_uint(buffer, 2, VecSize::VecU16);
                append_bytes(buffer, &body);
            },
            Proposal::Remove(r) => {
                write_uint(buffer, 3, VecSize::VecU16);
                write_uint(buffer, r.removed as u64, VecSize::VecU32);
            },
        }
        proof {
            assert(buffer@ =~= start + proposal_bytes(self@));
        }
        Ok(())
    }

    pub fn decode(b: &[u8], pos: usize) -> (r: Result<(Proposal, usize), CodecError>)
        requires
            pos <= b@.len(),
        ensures
            match parse_proposal(b@.skip(pos as int)) {
                None => r is Err,
                Some((m, k)) => r is Ok && r->Ok_0.0@ == m && r->Ok_0.1 == pos + k,
            },
            r is Ok ==> pos <= r->Ok_0.1 <= b@.len(),
            r is Err ==> r->Err_0 == CodecError::DecodingError,
    {
        let ghost s = b@.skip(pos as int);
        let (t, at1) = read_uint(b, pos, VecSize::VecU16)?;
        assert(b@.skip(at1 as int) =~= s.skip((at1 - pos) as int));
        if t == 1 || t == 2 {
            let (kp, at2) = KeyPackage::decode(b, at1)?;
            if t == 1 {
                Ok((Proposal::Add(kp), at2))
            } else {
                Ok((Proposal::Update(kp), at2))
            }
        } else if t == 3 {
            let (removed, at2) = read_uint(b, at1, VecSize::VecU32)?;
            Ok((Proposal::Remove(RemoveProposal { removed: removed as u32 }), at2))
        } else {
            Err(CodecError::DecodingError)
        }
    }
}

impl ProposalOrRef {
    pub fn encode(&self, buffer: &mut Vec<u8>) -> (r: Result<(), CodecError>)
        ensures
            r is Ok <==> proposal_or_ref_ok(self@),
            r is Ok ==> final(buffer)@ == old(buffer)@ + proposal_or_ref_bytes(self@),
    {
        let ghost start = buffer@;
        let mut body: Vec<u8> = Vec::new();
        match self {
            ProposalOrRef::Proposal(p) => {
                p.encode(&mut body)?;
                buffer.push(1u8);
            },
            ProposalOrRef::Reference(r) => {
                encode_vec(VecSize::VecU8, &mut body, r.value.as_slice())?;
                buffer.push(2u8);
            },
        }
        append_bytes(buffer, &body);
        proof {
            assert(buffer@ =~= start + proposal_or_ref_bytes(self@));
        }
        Ok(())
    }

    pub fn decode(b: &[u8], pos: usize) -> (r: Result<(ProposalOrRef, usize), CodecError>)
        requires
            pos <= b@.len(),
        ensures
            match parse_proposal_or_ref(b@.skip(pos as int)) {
                None => r is Err,
                Some((m, k)) => r is Ok && r->Ok_0.0@ == m && r->Ok_0.1 == pos + k,
            },
            r is Ok ==> pos <= r->Ok_0.1 <= b@.len(),
            r is Err ==> r->Err_0 == CodecError::DecodingError,
    {
        let ghost s = b@.skip(pos as int);
        if pos >= b.len() {
            return Err(CodecError::DecodingError);
        }
        assert(s[0] == b@[pos as int]);
        assert(b@.skip(pos + 1) =~= s.skip(1));
        if b[pos] == 1 {
            let (p, at2) = Proposal::decode(b, pos + 1)?;
            Ok((ProposalOrRef::Proposal(p), at2))
        } else if b[pos] == 2 {
            let (value, at2) = decode_vec(VecSize::VecU8, b, pos + 1)?;
            Ok((ProposalOrRef::Reference(ProposalReference { value }), at2))
        } else {
            Err(CodecError::DecodingError)
        }
    }
}

/// The reference of a proposal: the hash of its encoding.
pub open spec fn reference_of(suite: CiphersuiteName, p: ProposalModel) -> Seq<u8> {
    hash_of(suite_hash(suite), proposal_bytes(p))
}

impl ProposalReference {
    /// The reference of a proposal under the suite's hash.
    pub fn from_proposal(
        ciphersuite: CiphersuiteName,
        backend: &OpenMlsRustCrypto,
        proposal: &Proposal,
    ) -> (r: Result<ProposalReference, CodecError>)
        ensures
            r is Ok <==> proposal_ok(proposal@),
            r is Ok ==> r->Ok_0.value@ == reference_of(ciphersuite, proposal@),
    {
        let mut bytes: Vec<u8> = Vec::new();
        proposal.encode(&mut bytes)?;
        assert(bytes@ =~= proposal_bytes(proposal@));
        Ok(ProposalReference { value: hash(backend, ciphersuite.hash(), bytes.as_slice()) })
    }
}

// ---------------------------------------------------------------------------
// Proposal queue
// ---------------------------------------------------------------------------

/// Failures of building a proposal queue.
#[derive(Clone, Copy, Debug, PartialEq, Eq, Structural)]
pub enum ProposalQueueError {
    ProposalNotFound,
    EncodingError,
}

/// A proposal with its reference.
#[derive(Clone, Debug, PartialEq, Eq)]
pub struct QueuedProposal {
    pub proposal: Proposal,
    pub proposal_reference: ProposalReference,
}

pub open spec fn entry_view(q: QueuedProposal) -> (Seq<u8>, ProposalModel) {
    (q.proposal_reference.value@, q.proposal@)
}

pub open spec fn entry_views(v: Seq<QueuedProposal>) -> Seq<(Seq<u8>, ProposalModel)> {
    v.map_values(|q: QueuedProposal| entry_view(q))
}

/// Proposals in the order they are applied, no two with one reference.
pub struct ProposalQueue {
    pub queued: Vec<QueuedProposal>,
}

pub open spec fn has_ref(s: Seq<(Seq<u8>, ProposalModel)>, r: Seq<u8>) -> bool {
    exists|i: int| 0 <= i < s.len() && #[trigger] s[i].0 == r
}

/// Appends an entry unless one with its reference is there already.
pub open spec fn insert_unique(s: Seq<(Seq<u8>, ProposalModel)>, e: (Seq<u8>, ProposalModel)) -> Seq<
    (Seq<u8>, ProposalModel),
> {
    if has_ref(s, e.0) {
        s
    } else {
        s.push(e)
    }
}

/// The entries in order, each reference kept at its first occurrence.
pub open spec fn dedup_entries(s: Seq<(Seq<u8>, ProposalModel)>) -> Seq<(Seq<u8>, ProposalModel)>
    decreases s.len(),
{
    if s.len() == 0 {
        seq![]
    } else {
        insert_unique(dedup_entries(s.drop_last()), s.last())
    }
}

/// The first proposal with a reference among the available ones.
pub open spec fn lookup(available: Seq<(Seq<u8>, ProposalModel)>, r: Seq<u8>) -> Option<ProposalModel>
    decreases available.len(),
{
    if available.len() == 0 {
        None
    } else if available[0].0 == r {
        Some(available[0].1)
    } else {
        lookup(available.skip(1), r)
    }
}

/// What an entry of a commit stands for: an inline proposal and its
/// reference, or the available proposal that a reference names.
pub open spec fn resolve(
    suite: CiphersuiteName,
    item: ProposalOrRefModel,
    available: Seq<(Seq<u8>, ProposalModel)>,
) -> Result<(Seq<u8>, ProposalModel), ProposalQueueError> {
    match item {
        ProposalOrRefModel::Proposal(p) => if proposal_ok(p) {
            Ok((reference_of(suite, p), p))
        } else {
            Err(ProposalQueueError::EncodingError)
        },
        ProposalOrRefModel::Reference(r) => match lookup(available, r) {
            None => Err(ProposalQueueError::ProposalNotFound),
            Some(p) => Ok((r, p)),
        },
    }
}

/// Every entry of a commit resolved in order; the first failure otherwise.
pub open spec fn resolve_all(
    suite: CiphersuiteName,
    items: Seq<ProposalOrRefModel>,
    available: Seq<(Seq<u8>, ProposalModel)>,
) -> Result<Seq<(Seq<u8>, ProposalModel)>, ProposalQueueError>
    decreases items.len(),
{
    if items.len() == 0 {
        Ok(seq![])
    } else {
        match resolve_all(suite, items.drop_last(), available) {
            Err(e) => Err(e),
            Ok(s) => match resolve(suite, items.last(), available) {
                Err(e) => Err(e),
                Ok(e) => Ok(s.push(e)),
            },
        }
    }
}

/// The entries of a queue of the given type, in queue order.
pub open spec fn filter_type(s: Seq<(Seq<u8>, ProposalModel)>, t: ProposalType) -> Seq<
    (Seq<u8>, ProposalModel),
>
    decreases s.len(),
{
    if s.len() == 0 {
        seq![]
    } else if type_of(s.last().1) == t {
        filter_type(s.drop_last(), t).push(s.last())
    } else {
        filter_type(s.drop_last(), t)
    }
}

pub open spec fn proposal_entries(suite: CiphersuiteName, ps: Seq<Proposal>) -> Seq<
    (Seq<u8>, ProposalModel),
> {
    ps.map_values(|p: Proposal| (reference_of(suite, p@), p@))
}

pub open spec fn or_ref_views(v: Seq<ProposalOrRef>) -> Seq<ProposalOrRefModel> {
    v.map_values(|p: ProposalOrRef| p@)
}

impl QueuedProposal {
    pub fn proposal(&self) -> (r: &Proposal)
        ensures
            *r == self.proposal,
    {
        &self.proposal
    }

    pub fn proposal_reference(&self) -> (r: &ProposalReference)
        ensures
            *r == self.proposal_reference,
    {
        &self.proposal_reference
    }
}

impl ProposalQueue {
    pub fn new() -> (r: ProposalQueue)
        ensures
            entry_views(r.queued@) == Seq::<(Seq<u8>, ProposalModel)>::empty(),
    {
        let r = ProposalQueue { queued: Vec::new() };
        assert(entry_views(r.queued@) =~= Seq::<(Seq<u8>, ProposalModel)>::empty());
        r
    }

    /// Appends a proposal unless one with its reference is queued already.
    pub fn add(&mut self, entry: QueuedProposal)
        ensures
            entry_views(final(self).queued@) == insert_unique(
                entry_views(old(self).queued@),
                entry_view(entry),
            ),
    {
        let ghost views = entry_views(self.queued@);
        let mut i: usize = 0;
        while i < self.queued.len()
            invariant
                i <= self.queued@.len(),
                views == entry_views(self.queued@),
                forall|j: int| 0 <= j < i ==> views[j].0 != entry.proposal_reference.value@,
            decreases self.queued@.len() - i,
        {
            if equal_ct(
                self.queued[i].proposal_reference.value.as_slice(),
                entry.proposal_reference.value.as_slice(),
            ) {
                assert(views[i as int].0 == entry.proposal_reference.value@);
                return;
            }
            i = i + 1;
        }
        proof {
            assert(!has_ref(views, entry.proposal_reference.value@));
        }
        self.queued.push(entry);
        proof {
            assert(entry_views(self.queued@) =~= views.push(entry_view(entry)));
        }
    }

    /// A queue of proposals in the given order, each reference once.
    pub fn from_proposals_by_reference(
        ciphersuite: CiphersuiteName,
        backend: &OpenMlsRustCrypto,
        proposals: &[Proposal],
    ) -> (r: Result<ProposalQueue, ProposalQueueError>)
        ensures
            r is Ok <==> forall|i: int| 0 <= i < proposals@.len() ==> proposal_ok(#[trigger] proposals@[i]@),
            r is Err ==> r == Err::<ProposalQueue, ProposalQueueError>(ProposalQueueError::EncodingError),
            r is Ok ==> entry_views(r->Ok_0.queued@) == dedup_entries(
                proposal_entries(ciphersuite, proposals@),
            ),
    {
        let ghost entries = proposal_entries(ciphersuite, proposals@);
        let mut queue = ProposalQueue::new();
        let mut i: usize = 0;
        while i < proposals.len()
            invariant
                i <= proposals@.len(),
                entries == proposal_entries(ciphersuite, proposals@),
                forall|j: int| 0 <= j < i ==> proposal_ok(#[trigger] proposals@[j]@),
                entry_views(queue.queued@) == dedup_entries(entries.take(i as int)),
            decreases proposals@.len() - i,
        {
            let reference = match ProposalReference::from_proposal(ciphersuite, backend, &proposals[i]) {
                Ok(r) => r,
                Err(_) => {
                    return Err(ProposalQueueError::EncodingError);
                },
            };
            let entry = QueuedProposal { proposal: proposals[i].duplicate(), proposal_reference: reference };
            queue.add(entry);
            proof {
                assert(entries.take(i + 1).drop_last() =~= entries.take(i as int));
                assert(entries.take(i + 1).last() == entries[i as int]);
            }
            i = i + 1;
        }
        proof {
            assert(entries.take(i as int) =~= entries);
        }
        Ok(queue)
    }

    /// The first available proposal with the reference.
    fn find(available: &[QueuedProposal], reference: &ProposalReference) -> (r: Option<Proposal>)
        ensures
            match lookup(entry_views(available@), reference.value@) {
                None => r is None,
                Some(p) => r is Some && r->Some_0@ == p,
            },
    {
        let ghost views = entry_views(available@);
        let mut i: usize = 0;
        assert(views.skip(0) =~= views);
        while i < available.len()
            invariant
                i <= available@.len(),
                views == entry_views(available@),
                lookup(views, reference.value@) == lookup(views.skip(i as int), reference.value@),
            decreases available@.len() - i,
        {
            proof {
                assert(views.skip(i as int).skip(1) =~= views.skip(i + 1));
                assert(views.skip(i as int)[0] == entry_view(available@[i as int]));
            }
            if equal_ct(available[i].proposal_reference.value.as_slice(), reference.value.as_slice()) {
                return Some(available[i].proposal.duplicate());
            }
            i = i + 1;
        }
        None
    }

    /// The queue of a commit's proposals in the commit's order: inline
    /// proposals with their references, and referenced proposals looked up
    /// among the available ones.
    pub fn from_committed_proposals(
        ciphersuite: CiphersuiteName,
        backend: &OpenMlsRustCrypto,
        proposal_or_refs: &[ProposalOrRef],
        available: &[QueuedProposal],
    ) -> (r: Result<ProposalQueue, ProposalQueueError>)
        ensures
            match resolve_all(ciphersuite, or_ref_views(proposal_or_refs@), entry_views(available@)) {
                Err(e) => r == Err::<ProposalQueue, ProposalQueueError>(e),
                Ok(s) => r is Ok && entry_views(r->Ok_0.queued@) == dedup_entries(s),
            },
    {
        let ghost items = or_ref_views(proposal_or_refs@);
        let ghost av = entry_views(available@);
        let ghost resolved: Seq<(Seq<u8>, ProposalModel)> = seq![];
        let mut queue = ProposalQueue::new();
        let mut i: usize = 0;
        while i < proposal_or_refs.len()
            invariant
                i <= proposal_or_refs@.len(),
                items == or_ref_views(proposal_or_refs@),
                av == entry_views(available@),
                resolve_all(ciphersuite, items.take(i as int), av) == Ok::<
                    Seq<(Seq<u8>, ProposalModel)>,
                    ProposalQueueError,
                >(resolved),
                entry_views(queue.queued@) == dedup_entries(resolved),
            decreases proposal_or_refs@.len() - i,
        {
            proof {
                assert(items.take(i + 1).drop_last() =~= items.take(i as int));
                assert(items.take(i + 1).last() == proposal_or_refs@[i as int]@);
            }
            let entry = match &proposal_or_refs[i] {
                ProposalOrRef::Proposal(p) => {
                    let reference = match ProposalReference::from_proposal(ciphersuite, backend, p) {
                        Ok(r) => r,
                        Err(_) => {
                            proof {
                                assert(resolve_all(ciphersuite, items, av) == Err::<
                                    Seq<(Seq<u8>, ProposalModel)>,
                                    ProposalQueueError,
                                >(ProposalQueueError::EncodingError)) by {
                                    lemma_resolve_all_stops(ciphersuite, items, av, (i + 1) as nat);
                                }
                            }
                            return Err(ProposalQueueError::EncodingError);
                        },
                    };
                    QueuedProposal { proposal: p.duplicate(), proposal_reference: reference }
                },
                ProposalOrRef::Reference(reference) => {
                    match ProposalQueue::find(available, reference) {
                        Some(p) => QueuedProposal {
                            proposal: p,
                            proposal_reference: ProposalReference {
                                value: copy_bytes(reference.value.as_slice()),
                            },
                        },
                        None => {
                            proof {
                                lemma_resolve_all_stops(ciphersuite, items, av, (i + 1) as nat);
                            }
                            return Err(ProposalQueueError::ProposalNotFound);
                        },
                    }
                },
            };
            let ghost previous = resolved;
            proof {
                resolved = resolved.push(entry_view(entry));
                assert(resolved.drop_last() =~= previous);
            }
            queue.add(entry);
            i = i + 1;
        }
        proof {
            assert(items.take(i as int) =~= items);
        }
        Ok(queue)
    }

    /// The queued proposals of a type, in queue order.
    pub fn filtered_by_type(&self, proposal_type: ProposalType) -> (r: Vec<&QueuedProposal>)
        ensures
            r@.map_values(|q: &QueuedProposal| entry_view(*q)) == filter_type(
                entry_views(self.queued@),
                proposal_type,
            ),
    {
        let ghost views = entry_views(self.queued@);
        let mut out: Vec<&QueuedProposal> = Vec::new();
        let mut i: usize = 0;
        while i < self.queued.len()
            invariant
                i <= self.queued@.len(),
                views == entry_views(self.queued@),
                out@.map_values(|q: &QueuedProposal| entry_view(*q)) == filter_type(
                    views.take(i as int),
                    proposal_type,
                ),
            decreases self.queued@.len() - i,
        {
            let ghost before = out@;
            proof {
                assert(views.take(i + 1).drop_last() =~= views.take(i as int));
                assert(views.take(i + 1).last() == entry_view(self.queued@[i as int]));
            }
            if self.queued[i].proposal.is_type(proposal_type) {
                out.push(&self.queued[i]);
                proof {
                    assert(out@.map_values(|q: &QueuedProposal| entry_view(*q)) =~= before.map_values(
                        |q: &QueuedProposal| entry_view(*q),
                    ).push(entry_view(self.queued@[i as int])));
                }
            }
            i = i + 1;
        }
        proof {
            assert(views.take(i as int) =~= views);
        }
        out
    }

    /// Whether every reference is queued.
    pub fn contains(&self, references: &[ProposalReference]) -> (r: bool)
        ensures
            r == forall|i: int|
                0 <= i < references@.len() ==> has_ref(
                    entry_views(self.queued@),
                    #[trigger] references@[i].value@,
                ),
    {
        let ghost views = entry_views(self.queued@);
        let mut i: usize = 0;
        while i < references.len()
            invariant
                i <= references@.len(),
                views == entry_views(self.queued@),
                forall|k: int| 0 <= k < i ==> has_ref(views, #[trigger] references@[k].value@),
            decreases references@.len() - i,
        {
            let mut found = false;
            let mut j: usize = 0;
            while j < self.queued.len()
                invariant
                    j <= self.queued@.len(),
                    i < references@.len(),
                    views == entry_views(self.queued@),
                    found ==> has_ref(views, references@[i as int].value@),
                    !found ==> forall|k: int| 0 <= k < j ==> views[k].0 != references@[i as int].value@,
                decreases self.queued@.len() - j,
            {
                if !found && equal_ct(
                    self.queued[j].proposal_reference.value.as_slice(),
                    references[i].value.as_slice(),
                ) {
                    found = true;
                    assert(views[j as int].0 == references@[i as int].value@);
                }
                j = j + 1;
            }
            if !found {
                assert(!has_ref(entry_views(self.queued@), references@[i as int].value@));
                return false;
            }
            i = i + 1;
        }
        true
    }
}

/// Where the entry at position `k - 1` fails to resolve, and every entry
/// before it resolves, resolving the whole list fails with that error.
proof fn lemma_resolve_all_stops(
    suite: CiphersuiteName,
    items: Seq<ProposalOrRefModel>,
    available: Seq<(Seq<u8>, ProposalModel)>,
    k: nat,
)
    requires
        1 <= k <= items.len(),
        resolve_all(suite, items.take(k - 1), available) is Ok,
        resolve(suite, items[k - 1], available) is Err,
    ensures
        resolve_all(suite, items, available) == Err::<Seq<(Seq<u8>, ProposalModel)>, ProposalQueueError>(
            resolve(suite, items[k - 1], available)->Err_0,
        ),
    decreases items.len() - k,
{
    assert(items.take(k as int).drop_last() =~= items.take(k - 1));
    if k < items.len() {
        assert(items.take((k + 1) as int).take(k as int) =~= items.take(k as int));
        lemma_resolve_all_err_extends(suite, items, available, k);
    } else {
        assert(items.take(k as int) =~= items);
    }
}

/// A failure of resolving a prefix is a failure of resolving the list.
proof fn lemma_resolve_all_err_extends(
    suite: CiphersuiteName,
    items: Seq<ProposalOrRefModel>,
    available: Seq<(Seq<u8>, ProposalModel)>,
    k: nat,
)
    requires
        1 <= k <= items.len(),
        resolve_all(suite, items.take(k as int), available) is Err,
    ensures
        resolve_all(suite, items, available) == resolve_all(suite, items.take(k as int), available),
    decreases items.len() - k,
{
    if k == items.len() {
        assert(items.take(k as int) =~= items);
    } else {
        assert(items.take((k + 1) as int).drop_last() =~= items.take(k as int));
        lemma_resolve_all_err_extends(suite, items, available, k + 1);
    }
}

} // verus!
