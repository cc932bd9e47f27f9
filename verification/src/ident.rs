//! The identifier deriver: a stable 64-bit identifier computed from an
//! endpoint declaration's full structural signature — its name, remaining
//! attributes, parameters in declared order, return type and original body —
//! and from nothing else. Client stub generation and dispatch arm generation
//! both go through [`endpoint_id`], so the two artifacts agree on every
//! identifier with no shared registry.

use vstd::prelude::*;
use crate::ast::{DeclV, FnDecl, ParamV, bytes2_view, params_view};

verus! {

/// The offset basis of the 64-bit hash.
pub const HASH_BASIS: u64 = 0xcbf29ce484222325;

/// The multiplicative prime of the 64-bit hash.
pub const HASH_PRIME: u64 = 0x100000001b3;

/// One step of the hash: fold one byte into the accumulator.
pub open spec fn hash_step(acc: u64, b: u8) -> u64 {
    ((acc ^ (b as u64)) * (HASH_PRIME as u64)) as u64
}

/// The hash of a byte sequence folded left to right onto `HASH_BASIS`.
pub open spec fn spec_hash(s: Seq<u8>) -> u64
    decreases s.len(),
{
    if s.len() == 0 {
        HASH_BASIS
    } else {
        hash_step(spec_hash(s.subrange(0, s.len() - 1)), s[s.len() - 1])
    }
}

/// The fixed, order-sensitive, non-cryptographic hash of a byte string:
/// a 64-bit value that depends on the bytes alone.
pub fn quick_hash(bytes: &Vec<u8>) -> (r: u64)
    ensures
        r == spec_hash(bytes@),
{
    let mut h: u64 = HASH_BASIS;
    let mut i: usize = 0;
    while i < bytes.len()
        invariant
            i <= bytes.len(),
            h == spec_hash(bytes@.subrange(0, i as int)),
        decreases bytes.len() - i,
    {
        proof {
            assert(bytes@.subrange(0, i + 1).subrange(0, i as int) =~= bytes@.subrange(
                0,
                i as int,
            ));
            assert(bytes@.subrange(0, i + 1)[i as int] == bytes@[i as int]);
        }
        let x: u64 = h ^ (bytes[i] as u64);
        let wide: u128 = (x as u128) * (HASH_PRIME as u128);
        h = #[verifier::truncate] (wide as u64);
        i = i + 1;
    }
    proof {
        assert(bytes@.subrange(0, bytes@.len() as int) =~= bytes@);
    }
    h
}

/// The little-endian eight-byte image of a 64-bit value.
pub open spec fn u64_le(x: u64) -> Seq<u8> {
    seq![
        (x & 0xff) as u8,
        ((x >> 8) & 0xff) as u8,
        ((x >> 16) & 0xff) as u8,
        ((x >> 24) & 0xff) as u8,
        ((x >> 32) & 0xff) as u8,
        ((x >> 40) & 0xff) as u8,
        ((x >> 48) & 0xff) as u8,
        ((x >> 56) & 0xff) as u8,
    ]
}

/// Appends the little-endian eight-byte image of `x` to `out`.
pub fn push_u64_le(out: &mut Vec<u8>, x: u64)
    ensures
        final(out)@ == old(out)@ + u64_le(x),
{
    out.push((x & 0xff) as u8);
    out.push(((x >> 8) & 0xff) as u8);
    out.push(((x >> 16) & 0xff) as u8);
    out.push(((x >> 24) & 0xff) as u8);
    out.push(((x >> 32) & 0xff) as u8);
    out.push(((x >> 40) & 0xff) as u8);
    out.push(((x >> 48) & 0xff) as u8);
    out.push(((x >> 56) & 0xff) as u8);
    proof {
        assert(out@ =~= old(out)@ + u64_le(x));
    }
}

/// Reads back the 64-bit value whose little-endian image is `u64_le`.
pub open spec fn u64_from_le(b0: u8, b1: u8, b2: u8, b3: u8, b4: u8, b5: u8, b6: u8, b7: u8) -> u64 {
    (b0 as u64) | ((b1 as u64) << 8) | ((b2 as u64) << 16) | ((b3 as u64) << 24) | ((b4 as u64)
        << 32) | ((b5 as u64) << 40) | ((b6 as u64) << 48) | ((b7 as u64) << 56)
}

/// Composing the two little-endian images is the identity.
pub proof fn lemma_u64_le_round_trip(x: u64)
    ensures
        u64_from_le(
            u64_le(x)[0],
            u64_le(x)[1],
            u64_le(x)[2],
            u64_le(x)[3],
            u64_le(x)[4],
            u64_le(x)[5],
            u64_le(x)[6],
            u64_le(x)[7],
        ) == x,
{
    assert(((x & 0xff) as u8 as u64) | ((((x >> 8) & 0xff) as u8 as u64) << 8) | ((((x >> 16)
        & 0xff) as u8 as u64) << 16) | ((((x >> 24) & 0xff) as u8 as u64) << 24) | ((((x >> 32)
        & 0xff) as u8 as u64) << 32) | ((((x >> 40) & 0xff) as u8 as u64) << 40) | ((((x >> 48)
        & 0xff) as u8 as u64) << 48) | ((((x >> 56) & 0xff) as u8 as u64) << 56) == x) by (bit_vector);
}

/// The canonical byte image of a byte string inside a structural signature:
/// its length, then its bytes, so that field boundaries are unambiguous.
pub open spec fn enc_bytes(s: Seq<u8>) -> Seq<u8> {
    u64_le(s.len() as u64) + s
}

pub open spec fn enc_bytes_seq(s: Seq<Seq<u8>>) -> Seq<u8>
    decreases s.len(),
{
    if s.len() == 0 {
        Seq::empty()
    } else {
        enc_bytes_seq(s.subrange(0, s.len() - 1)) + enc_bytes(s[s.len() - 1])
    }
}

pub open spec fn enc_params(s: Seq<ParamV>) -> Seq<u8>
    decreases s.len(),
{
    if s.len() == 0 {
        Seq::empty()
    } else {
        enc_params(s.subrange(0, s.len() - 1)) + enc_bytes(s[s.len() - 1].pat) + enc_bytes(
            s[s.len() - 1].ty,
        )
    }
}

pub open spec fn enc_opt_bytes(s: Option<Seq<u8>>) -> Seq<u8> {
    match s {
        None => seq![0u8],
        Some(b) => seq![1u8] + enc_bytes(b),
    }
}

/// The canonical byte image of a declaration's structural signature, the
/// exact input of identifier derivation: name, remaining attributes,
/// receiver mark, parameters in declared order, return type, original body.
pub open spec fn enc_decl(d: DeclV) -> Seq<u8> {
    enc_bytes(d.name) + u64_le(d.attrs.len() as u64) + enc_bytes_seq(d.attrs) + seq![
        if d.receiver {
            1u8
        } else {
            0u8
        },
    ] + u64_le(d.params.len() as u64) + enc_params(d.params) + enc_opt_bytes(d.ret) + enc_bytes(
        d.body,
    )
}

/// The identifier of an endpoint declaration: the hash of its canonical
/// structural signature. Both generators derive identifiers through this
/// function and through nothing else.
pub open spec fn spec_endpoint_id(d: DeclV) -> u64 {
    spec_hash(enc_decl(d))
}

/// Appends the canonical image of a byte string.
fn push_enc_bytes(out: &mut Vec<u8>, s: &Vec<u8>)
    ensures
        final(out)@ == old(out)@ + enc_bytes(s@),
{
    push_u64_le(out, s.len() as u64);
    let mut i: usize = 0;
    while i < s.len()
        invariant
            i <= s.len(),
            out@ =~= old(out)@ + u64_le(s@.len() as u64) + s@.subrange(0, i as int),
        decreases s.len() - i,
    {
        out.push(s[i]);
        i = i + 1;
    }
    proof {
        assert(s@.subrange(0, s@.len() as int) =~= s@);
        assert(out@ =~= old(out)@ + enc_bytes(s@));
    }
}

/// The canonical byte image of a declaration, executably.
pub fn encode_decl(d: &FnDecl) -> (r: Vec<u8>)
    ensures
        r@ == enc_decl(d@),
{
    let mut out: Vec<u8> = Vec::new();
    push_enc_bytes(&mut out, &d.name);
    push_u64_le(&mut out, d.attrs.len() as u64);
    let ghost mid0: Seq<u8> = out@;
    let mut i: usize = 0;
    while i < d.attrs.len()
        invariant
            i <= d.attrs.len(),
            out@ =~= mid0 + enc_bytes_seq(bytes2_view(d.attrs).subrange(0, i as int)),
        decreases d.attrs.len() - i,
    {
        proof {
            assert(bytes2_view(d.attrs).subrange(0, i + 1).subrange(0, i as int) =~= bytes2_view(
                d.attrs,
            ).subrange(0, i as int));
            assert(bytes2_view(d.attrs).subrange(0, i + 1)[i as int] == d.attrs@[i as int]@);
        }
        push_enc_bytes(&mut out, &d.attrs[i]);
        i = i + 1;
    }
    proof {
        assert(bytes2_view(d.attrs).subrange(0, bytes2_view(d.attrs).len() as int) =~= bytes2_view(
            d.attrs,
        ));
    }
    if d.receiver {
        out.push(1u8);
    } else {
        out.push(0u8);
    }
    push_u64_le(&mut out, d.params.len() as u64);
    let ghost mid1: Seq<u8> = out@;
    let mut j: usize = 0;
    while j < d.params.len()
        invariant
            j <= d.params.len(),
            out@ =~= mid1 + enc_params(params_view(d.params).subrange(0, j as int)),
        decreases d.params.len() - j,
    {
        proof {
            assert(params_view(d.params).subrange(0, j + 1).subrange(0, j as int) =~= params_view(
                d.params,
            ).subrange(0, j as int));
            assert(params_view(d.params).subrange(0, j + 1)[j as int] == d.params@[j as int]@);
        }
        push_enc_bytes(&mut out, &d.params[j].pat);
        push_enc_bytes(&mut out, &d.params[j].ty);
        j = j + 1;
    }
    proof {
        assert(params_view(d.params).subrange(0, params_view(d.params).len() as int)
            =~= params_view(d.params));
    }
    match &d.ret {
        None => {
            out.push(0u8);
        },
        Some(b) => {
            out.push(1u8);
            push_enc_bytes(&mut out, b);
        },
    }
    push_enc_bytes(&mut out, &d.body);
    proof {
        assert(out@ =~= enc_decl(d@));
    }
    out
}

/// The identifier of an endpoint declaration, executably: the same value
/// wherever the same declaration is met.
pub fn endpoint_id(d: &FnDecl) -> (r: u64)
    ensures
        r == spec_endpoint_id(d@),
{
    let encoded: Vec<u8> = encode_decl(d);
    quick_hash(&encoded)
}

/// Identifier determinism: the identifier is a function of the declaration's
/// structural signature alone, so regenerating from an identical declaration
/// yields an identical identifier, in whatever artifact it is computed for.
pub proof fn lemma_identifier_deterministic(d1: DeclV, d2: DeclV)
    requires
        d1 == d2,
    ensures
        spec_endpoint_id(d1) == spec_endpoint_id(d2),
{
}

} // verus!
