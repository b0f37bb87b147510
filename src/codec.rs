//! TLS presentation language wire format: big-endian integers and vectors
//! prefixed with their length in bytes.
//!
//! Each encodable value has a mathematical encoding (`..._bytes`) and a
//! parser (`parse_...`) that reads it from the front of a byte sequence and
//! tells how many bytes it took. The executable encoders append exactly that
//! encoding; the executable decoders return exactly what the parser reads.

use vstd::prelude::*;

verus! {

/// Failures of the wire codec.
#[derive(Clone, Copy, Debug, PartialEq, Eq, Structural)]
pub enum CodecError {
    EncodingError,
    DecodingError,
}

/// Width of a vector's length prefix.
#[derive(Clone, Copy, Debug, PartialEq, Eq, Structural)]
pub enum VecSize {
    VecU8,
    VecU16,
    VecU32,
}

/// Number of bytes of a length prefix.
pub open spec fn width(s: VecSize) -> nat {
    match s {
        VecSize::VecU8 => 1,
        VecSize::VecU16 => 2,
        VecSize::VecU32 => 4,
    }
}

/// Largest value that a length prefix holds.
pub open spec fn max_len(s: VecSize) -> nat {
    match s {
        VecSize::VecU8 => 0xff,
        VecSize::VecU16 => 0xffff,
        VecSize::VecU32 => 0xffff_ffff,
    }
}

/// Big-endian bytes of `v` in the prefix width.
pub open spec fn uint_bytes(v: nat, s: VecSize) -> Seq<u8> {
    match s {
        VecSize::VecU8 => seq![v as u8],
        VecSize::VecU16 => seq![(v / 0x100) as u8, (v % 0x100) as u8],
        VecSize::VecU32 => seq![
            (v / 0x100_0000) as u8,
            ((v / 0x1_0000) % 0x100) as u8,
            ((v / 0x100) % 0x100) as u8,
            (v % 0x100) as u8,
        ],
    }
}

/// The big-endian integer that the first bytes of `b` hold.
pub open spec fn uint_value(b: Seq<u8>, s: VecSize) -> nat {
    match s {
        VecSize::VecU8 => b[0] as nat,
        VecSize::VecU16 => (b[0] as nat) * 0x100 + (b[1] as nat),
        VecSize::VecU32 => (b[0] as nat) * 0x100_0000 + (b[1] as nat) * 0x1_0000 + (b[2] as nat)
            * 0x100 + (b[3] as nat),
    }
}

pub open spec fn parse_uint(b: Seq<u8>, s: VecSize) -> Option<(nat, nat)> {
    if b.len() < width(s) {
        None
    } else {
        Some((uint_value(b, s), width(s)))
    }
}

/// Big-endian bytes of a 64-bit integer: its high and low 32-bit halves.
pub open spec fn u64_bytes(v: u64) -> Seq<u8> {
    uint_bytes(v as nat / 0x1_0000_0000, VecSize::VecU32) + uint_bytes(
        v as nat % 0x1_0000_0000,
        VecSize::VecU32,
    )
}

pub open spec fn parse_u64(b: Seq<u8>) -> Option<(u64, nat)> {
    if b.len() < 8 {
        None
    } else {
        Some(
            (
                (uint_value(b, VecSize::VecU32) * 0x1_0000_0000 + uint_value(
                    b.skip(4),
                    VecSize::VecU32,
                )) as u64,
                8,
            ),
        )
    }
}

/// A byte vector behind its length prefix.
pub open spec fn opaque_bytes(v: Seq<u8>, s: VecSize) -> Seq<u8> {
    uint_bytes(v.len(), s) + v
}

pub open spec fn parse_opaque(b: Seq<u8>, s: VecSize) -> Option<(Seq<u8>, nat)> {
    match parse_uint(b, s) {
        None => None,
        Some((l, k)) => if b.len() < k + l {
            None
        } else {
            Some((b.subrange(k as int, (k + l) as int), k + l))
        },
    }
}

/// Items encoded one after the other.
pub open spec fn list_bytes<M>(v: Seq<M>, e: spec_fn(M) -> Seq<u8>) -> Seq<u8>
    decreases v.len(),
{
    if v.len() == 0 {
        seq![]
    } else {
        e(v[0]) + list_bytes(v.skip(1), e)
    }
}

/// Items read one after the other until `b` is used up.
pub open spec fn parse_list<M>(b: Seq<u8>, p: spec_fn(Seq<u8>) -> Option<(M, nat)>) -> Option<
    Seq<M>,
>
    decreases b.len(),
{
    if b.len() == 0 {
        Some(seq![])
    } else {
        match p(b) {
            None => None,
            Some((m, k)) => if k == 0 || k > b.len() {
                None
            } else {
                match parse_list(b.skip(k as int), p) {
                    None => None,
                    Some(rest) => Some(seq![m] + rest),
                }
            },
        }
    }
}

/// A vector of items behind the length prefix of its encoding.
pub open spec fn vec_bytes<M>(v: Seq<M>, e: spec_fn(M) -> Seq<u8>, s: VecSize) -> Seq<u8> {
    opaque_bytes(list_bytes(v, e), s)
}

pub open spec fn parse_vec<M>(
    b: Seq<u8>,
    p: spec_fn(Seq<u8>) -> Option<(M, nat)>,
    s: VecSize,
) -> Option<(Seq<M>, nat)> {
    match parse_opaque(b, s) {
        None => None,
        Some((body, k)) => match parse_list(body, p) {
            None => None,
            Some(v) => Some((v, k)),
        },
    }
}

/// `p` reads back every item that `e` writes, whatever follows it.
pub open spec fn inverts<M>(
    e: spec_fn(M) -> Seq<u8>,
    p: spec_fn(Seq<u8>) -> Option<(M, nat)>,
    m: M,
) -> bool {
    &&& e(m).len() > 0
    &&& forall|rest: Seq<u8>| #[trigger] p(e(m) + rest) == Some((m, e(m).len()))
}

pub proof fn lemma_uint_round_trip(v: nat, s: VecSize, rest: Seq<u8>)
    requires
        v <= max_len(s),
    ensures
        uint_bytes(v, s).len() == width(s),
        parse_uint(uint_bytes(v, s) + rest, s) == Some((v, width(s))),
{
    let b = uint_bytes(v, s) + rest;
    match s {
        VecSize::VecU8 => {},
        VecSize::VecU16 => {
            assert(b[0] as nat == v / 0x100);
            assert(b[1] as nat == v % 0x100);
        },
        VecSize::VecU32 => {
            assert(b[0] as nat == v / 0x100_0000);
            assert(b[1] as nat == (v / 0x1_0000) % 0x100);
            assert(b[2] as nat == (v / 0x100) % 0x100);
            assert(b[3] as nat == v % 0x100);
        },
    }
}

pub proof fn lemma_u64_round_trip(v: u64, rest: Seq<u8>)
    ensures
        u64_bytes(v).len() == 8,
        parse_u64(u64_bytes(v) + rest) == Some((v, 8nat)),
{
    let hi = v as nat / 0x1_0000_0000;
    let lo = v as nat % 0x1_0000_0000;
    let b = u64_bytes(v) + rest;
    lemma_uint_round_trip(hi, VecSize::VecU32, uint_bytes(lo, VecSize::VecU32) + rest);
    lemma_uint_round_trip(lo, VecSize::VecU32, rest);
    assert(b =~= uint_bytes(hi, VecSize::VecU32) + (uint_bytes(lo, VecSize::VecU32) + rest));
    assert(b.skip(4) =~= uint_bytes(lo, VecSize::VecU32) + rest);
}

pub proof fn lemma_opaque_round_trip(v: Seq<u8>, s: VecSize, rest: Seq<u8>)
    requires
        v.len() <= max_len(s),
    ensures
        parse_opaque(opaque_bytes(v, s) + rest, s) == Some((v, width(s) + v.len())),
        opaque_bytes(v, s).len() == width(s) + v.len(),
{
    let pre = uint_bytes(v.len(), s);
    lemma_uint_round_trip(v.len(), s, v + rest);
    assert(opaque_bytes(v, s) + rest =~= pre + (v + rest));
    assert((pre + (v + rest)).subrange(width(s) as int, (width(s) + v.len()) as int) =~= v);
}

pub proof fn lemma_list_round_trip<M>(
    v: Seq<M>,
    e: spec_fn(M) -> Seq<u8>,
    p: spec_fn(Seq<u8>) -> Option<(M, nat)>,
)
    requires
        forall|i: int| 0 <= i < v.len() ==> inverts(e, p, #[trigger] v[i]),
    ensures
        parse_list(list_bytes(v, e), p) == Some(v),
    decreases v.len(),
{
    if v.len() > 0 {
        let tail = v.skip(1);
        assert forall|i: int| 0 <= i < tail.len() implies inverts(e, p, #[trigger] tail[i]) by {
            assert(tail[i] == v[i + 1]);
        }
        lemma_list_round_trip(tail, e, p);
        assert(inverts(e, p, v[0]));
        let b = list_bytes(v, e);
        assert(p(e(v[0]) + list_bytes(tail, e)) == Some((v[0], e(v[0]).len())));
        assert(b.skip(e(v[0]).len() as int) =~= list_bytes(tail, e));
        assert(seq![v[0]] + tail =~= v);
    }
}

pub proof fn lemma_vec_round_trip<M>(
    v: Seq<M>,
    e: spec_fn(M) -> Seq<u8>,
    p: spec_fn(Seq<u8>) -> Option<(M, nat)>,
    s: VecSize,
    rest: Seq<u8>,
)
    requires
        forall|i: int| 0 <= i < v.len() ==> inverts(e, p, #[trigger] v[i]),
        list_bytes(v, e).len() <= max_len(s),
    ensures
        parse_vec(vec_bytes(v, e, s) + rest, p, s) == Some((v, vec_bytes(v, e, s).len())),
        vec_bytes(v, e, s).len() > 0,
{
    reveal(vec_bytes);
    reveal(parse_vec);
    lemma_opaque_round_trip(list_bytes(v, e), s, rest);
    lemma_list_round_trip(v, e, p);
}

pub proof fn lemma_list_bytes_push<M>(v: Seq<M>, m: M, e: spec_fn(M) -> Seq<u8>)
    ensures
        list_bytes(v.push(m), e) == list_bytes(v, e) + e(m),
    decreases v.len(),
{
    if v.len() == 0 {
        assert(v.push(m).skip(1) =~= Seq::<M>::empty());
        assert(list_bytes(v.push(m).skip(1), e) == Seq::<u8>::empty());
        assert(v.push(m)[0] == m);
        assert(list_bytes(v.push(m), e) =~= e(m));
        assert(list_bytes(v, e) + e(m) =~= e(m));
    } else {
        assert(v.push(m).skip(1) =~= v.skip(1).push(m));
        lemma_list_bytes_push(v.skip(1), m, e);
        assert(list_bytes(v.push(m), e) =~= e(v[0]) + (list_bytes(v.skip(1), e) + e(m)));
    }
}

// ---------------------------------------------------------------------------
// Executable primitives
// ---------------------------------------------------------------------------

pub fn max_len_exec(s: VecSize) -> (r: u64)
    ensures
        r == max_len(s),
{
    match s {
        VecSize::VecU8 => 0xff,
        VecSize::VecU16 => 0xffff,
        VecSize::VecU32 => 0xffff_ffff,
    }
}

/// Appends `v` in big-endian order in the prefix width.
pub fn write_uint(buffer: &mut Vec<u8>, v: u64, s: VecSize)
    requires
        v <= max_len(s),
    ensures
        final(buffer)@ == old(buffer)@ + uint_bytes(v as nat, s),
{
    let ghost start = buffer@;
    match s {
        VecSize::VecU8 => {
            buffer.push(v as u8);
        },
        VecSize::VecU16 => {
            buffer.push((v / 0x100) as u8);
            buffer.push((v % 0x100) as u8);
        },
        VecSize::VecU32 => {
            buffer.push((v / 0x100_0000) as u8);
            buffer.push(((v / 0x1_0000) % 0x100) as u8);
            buffer.push(((v / 0x100) % 0x100) as u8);
            buffer.push((v % 0x100) as u8);
        },
    }
    proof {
        assert(buffer@ =~= start + uint_bytes(v as nat, s));
    }
}

/// Reads a big-endian integer of the prefix width at `pos`.
pub fn read_uint(b: &[u8], pos: usize, s: VecSize) -> (r: Result<(u64, usize), CodecError>)
    requires
        pos <= b@.len(),
    ensures
        match parse_uint(b@.skip(pos as int), s) {
            None => r is Err,
            Some((v, k)) => r is Ok && r->Ok_0.0 == v && r->Ok_0.1 == pos + k,
        },
        r is Err ==> r->Err_0 == CodecError::DecodingError,
{
    let ghost rest = b@.skip(pos as int);
    match s {
        VecSize::VecU8 => {
            if b.len() - pos < 1 {
                return Err(CodecError::DecodingError);
            }
            assert(rest[0] == b@[pos as int]);
            Ok((b[pos] as u64, pos + 1))
        },
        VecSize::VecU16 => {
            if b.len() - pos < 2 {
                return Err(CodecError::DecodingError);
            }
            assert(rest[0] == b@[pos as int]);
            assert(rest[1] == b@[pos + 1]);
            Ok(((b[pos] as u64) * 0x100 + (b[pos + 1] as u64), pos + 2))
        },
        VecSize::VecU32 => {
            if b.len() - pos < 4 {
                return Err(CodecError::DecodingError);
            }
            assert(rest[0] == b@[pos as int]);
            assert(rest[1] == b@[pos + 1]);
            assert(rest[2] == b@[pos + 2]);
            assert(rest[3] == b@[pos + 3]);
            Ok((
                (b[pos] as u64) * 0x100_0000 + (b[pos + 1] as u64) * 0x1_0000 + (b[pos + 2] as u64)
                    * 0x100 + (b[pos + 3] as u64),
                pos + 4,
            ))
        },
    }
}

/// Appends a 64-bit integer in big-endian order.
pub fn write_u64(buffer: &mut Vec<u8>, v: u64)
    ensures
        final(buffer)@ == old(buffer)@ + u64_bytes(v),
{
    let ghost start = buffer@;
    write_uint(buffer, v / 0x1_0000_0000, VecSize::VecU32);
    write_uint(buffer, v % 0x1_0000_0000, VecSize::VecU32);
    proof {
        assert(buffer@ =~= start + u64_bytes(v));
    }
}

/// Reads a big-endian 64-bit integer at `pos`.
pub fn read_u64(b: &[u8], pos: usize) -> (r: Result<(u64, usize), CodecError>)
    requires
        pos <= b@.len(),
    ensures
        match parse_u64(b@.skip(pos as int)) {
            None => r is Err,
            Some((v, k)) => r is Ok && r->Ok_0.0 == v && r->Ok_0.1 == pos + k,
        },
        r is Err ==> r->Err_0 == CodecError::DecodingError,
{
    if b.len() - pos < 8 {
        return Err(CodecError::DecodingError);
    }
    let (hi, at1) = read_uint(b, pos, VecSize::VecU32)?;
    let (lo, at2) = read_uint(b, at1, VecSize::VecU32)?;
    proof {
        let s = b@.skip(pos as int);
        assert(b@.skip(at1 as int) =~= s.skip(4));
    }
    Ok((hi * 0x1_0000_0000 + lo, at2))
}

/// Appends a byte vector behind its length prefix; fails where the length
/// does not fit the prefix.
pub fn encode_vec(s: VecSize, buffer: &mut Vec<u8>, v: &[u8]) -> (r: Result<(), CodecError>)
    ensures
        r is Ok <==> v@.len() <= max_len(s),
        r is Ok ==> final(buffer)@ == old(buffer)@ + opaque_bytes(v@, s),
        r is Err ==> final(buffer)@ == old(buffer)@,
{
    if v.len() as u64 > max_len_exec(s) {
        return Err(CodecError::EncodingError);
    }
    let ghost start = buffer@;
    write_uint(buffer, v.len() as u64, s);
    let mut i: usize = 0;
    while i < v.len()
        invariant
            i <= v@.len(),
            buffer@ == start + uint_bytes(v@.len(), s) + v@.take(i as int),
        decreases v@.len() - i,
    {
        buffer.push(v[i]);
        i = i + 1;
        proof {
            assert(v@.take(i as int) =~= v@.take(i - 1).push(v@[i - 1]));
        }
    }
    proof {
        assert(v@.take(i as int) =~= v@);
    }
    Ok(())
}

/// Reads a byte vector behind its length prefix at `pos`.
pub fn decode_vec(s: VecSize, b: &[u8], pos: usize) -> (r: Result<(Vec<u8>, usize), CodecError>)
    requires
        pos <= b@.len(),
    ensures
        match parse_opaque(b@.skip(pos as int), s) {
            None => r is Err,
            Some((v, k)) => r is Ok && r->Ok_0.0@ == v && r->Ok_0.1 == pos + k,
        },
        r is Err ==> r->Err_0 == CodecError::DecodingError,
{
    let (l, start) = read_uint(b, pos, s)?;
    if l > (b.len() - start) as u64 {
        return Err(CodecError::DecodingError);
    }
    let end = start + l as usize;
    let mut v: Vec<u8> = Vec::new();
    let mut i: usize = start;
    while i < end
        invariant
            start <= i <= end <= b@.len(),
            v@ == b@.subrange(start as int, i as int),
        decreases end - i,
    {
        v.push(b[i]);
        i = i + 1;
        proof {
            assert(v@ =~= b@.subrange(start as int, i as int));
        }
    }
    proof {
        assert(b@.skip(pos as int).subrange((start - pos) as int, (end - pos) as int) =~= v@);
    }
    Ok((v, end))
}

/// Appends bytes to a buffer.
pub fn append_bytes(buffer: &mut Vec<u8>, v: &Vec<u8>)
    ensures
        final(buffer)@ == old(buffer)@ + v@,
{
    let ghost start = buffer@;
    let mut i: usize = 0;
    while i < v.len()
        invariant
            i <= v@.len(),
            buffer@ == start + v@.take(i as int),
        decreases v@.len() - i,
    {
        buffer.push(v[i]);
        i = i + 1;
        proof {
            assert(v@.take(i as int) =~= v@.take(i - 1).push(v@[i - 1]));
        }
    }
    proof {
        assert(v@.take(i as int) =~= v@);
    }
}

/// A fresh vector with the same bytes.
pub fn copy_bytes(v: &[u8]) -> (r: Vec<u8>)
    ensures
        r@ == v@,
{
    let mut out: Vec<u8> = Vec::new();
    let mut i: usize = 0;
    while i < v.len()
        invariant
            i <= v@.len(),
            out@ == v@.take(i as int),
        decreases v@.len() - i,
    {
        out.push(v[i]);
        i = i + 1;
        proof {
            assert(v@.take(i as int) =~= v@.take(i - 1).push(v@[i - 1]));
        }
    }
    proof {
        assert(v@.take(i as int) =~= v@);
    }
    out
}

} // verus!
