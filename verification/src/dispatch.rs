//! The dispatch table generator and the routing contract of its entry point.
//!
//! The whole namespace tree is flattened into one table of arms keyed by
//! identifier: each arm names the local implementation by its qualified
//! path and binds the declared parameter patterns, so rendering can decode
//! the argument tuple, invoke that function, and encode the result. A request
//! buffer is the fixed-width little-endian identifier followed by the
//! codec's encoding of the argument tuple; routing reads the prefix and
//! picks the arm, and an unknown identifier is a recoverable, explicit
//! error carrying the offending value — never an abort.

use vstd::prelude::*;
use crate::ast::{
    DeclV, FnDecl, NamespaceNode, NodeV, ParamV, bytes2_view, copy_bytes, copy_bytes2, decls_view,
    node_view,
};
use crate::ident::{spec_endpoint_id, endpoint_id, u64_le, u64_from_le, lemma_u64_le_round_trip};

verus! {

broadcast use crate::ast::lemma_nodes_view, vstd::seq::axiom_seq_index_decreases, vstd::std_specs::vec::axiom_vec_decreases_to_view, vstd::std_specs::vec::axiom_vec_index_decreases;

/// One routing entry: the identifier, the qualified path of the local
/// implementation, and the parameter binding patterns in declared order.
#[derive(Debug)]
pub struct DispatchArm {
    pub id: u64,
    pub path: Vec<Vec<u8>>,
    pub pats: Vec<Vec<u8>>,
}

pub ghost struct ArmV {
    pub id: u64,
    pub path: Seq<Seq<u8>>,
    pub pats: Seq<Seq<u8>>,
}

impl View for DispatchArm {
    type V = ArmV;

    open spec fn view(&self) -> ArmV {
        ArmV { id: self.id, path: bytes2_view(self.path), pats: bytes2_view(self.pats) }
    }
}

pub open spec fn arms_view(s: Seq<DispatchArm>) -> Seq<ArmV> {
    Seq::new(s.len(), |i: int| s[i]@)
}

/// The parameter binding patterns of a declaration, in declared order.
pub open spec fn pats_of(params: Seq<ParamV>) -> Seq<Seq<u8>> {
    Seq::new(params.len(), |i: int| params[i].pat)
}

/// The arm of one endpoint declaration found under `prefix`: its identifier
/// is derived from the declaration's structural signature, exactly as the
/// client stub derives it.
pub open spec fn arm_of(prefix: Seq<Seq<u8>>, d: DeclV) -> ArmV {
    ArmV { id: spec_endpoint_id(d), path: prefix.push(d.name), pats: pats_of(d.params) }
}

/// The arms of one namespace's own endpoints, in declaration order.
pub open spec fn arms_own(prefix: Seq<Seq<u8>>, eps: Seq<DeclV>) -> Seq<ArmV>
    decreases eps.len(),
{
    if eps.len() == 0 {
        Seq::empty()
    } else {
        arms_own(prefix, eps.subrange(0, eps.len() - 1)).push(arm_of(prefix, eps[eps.len() - 1]))
    }
}

pub broadcast proof fn lemma_arms_own_index(prefix: Seq<Seq<u8>>, eps: Seq<DeclV>)
    ensures
        (#[trigger] arms_own(prefix, eps)).len() == eps.len(),
        forall|i: int| 0 <= i < eps.len() ==> arms_own(prefix, eps)[i] == arm_of(prefix, eps[i]),
    decreases eps.len(),
{
    if eps.len() > 0 {
        lemma_arms_own_index(prefix, eps.subrange(0, eps.len() - 1));
    }
}

/// The flattened arms of a whole namespace subtree: the namespace's own
/// endpoints first, then each child subtree in child order.
pub open spec fn arms_of(n: NodeV, prefix: Seq<Seq<u8>>) -> Seq<ArmV>
    decreases n,
{
    arms_own(prefix, n.endpoints) + arms_children(n.children, prefix)
}

pub open spec fn arms_children(s: Seq<NodeV>, prefix: Seq<Seq<u8>>) -> Seq<ArmV>
    decreases s,
{
    if s.len() == 0 {
        Seq::empty()
    } else {
        arms_children(s.subrange(0, s.len() - 1), prefix) + arms_of(
            s[s.len() - 1],
            prefix.push(s[s.len() - 1].name),
        )
    }
}

/// Flattens the subtree under `n` into dispatch arms, appended to `out`.
pub fn write_arms(n: &NamespaceNode, prefix: &Vec<Vec<u8>>, out: &mut Vec<DispatchArm>)
    ensures
        arms_view(final(out)@) == arms_view(old(out)@) + arms_of(n@, bytes2_view(*prefix)),
    decreases *n,
{
    let ghost pv = bytes2_view(*prefix);
    let ghost ev = decls_view(n.endpoints);
    let ghost base = arms_view(out@);
    let mut i: usize = 0;
    #[verifier::loop_isolation(false)]
    while i < n.endpoints.len()
        invariant
            i <= n.endpoints.len(),
            arms_view(out@) == base + arms_own(pv, ev.subrange(0, i as int)),
        decreases n.endpoints.len() - i,
    {
        proof {
            assert(ev.subrange(0, i + 1).subrange(0, i as int) =~= ev.subrange(0, i as int));
            assert(ev.subrange(0, i + 1)[i as int] == n.endpoints@[i as int]@);
        }
        let d: &FnDecl = &n.endpoints[i];
        let mut path: Vec<Vec<u8>> = copy_bytes2(prefix);
        path.push(copy_bytes(&d.name));
        proof {
            assert(bytes2_view(path) =~= pv.push(d@.name));
        }
        let mut pats: Vec<Vec<u8>> = Vec::new();
        let mut j: usize = 0;
        #[verifier::loop_isolation(false)]
        while j < d.params.len()
            invariant
                j <= d.params.len(),
                bytes2_view(pats) =~= pats_of(d@.params).subrange(0, j as int),
            decreases d.params.len() - j,
        {
            pats.push(copy_bytes(&d.params[j].pat));
            proof {
                assert(bytes2_view(pats) =~= pats_of(d@.params).subrange(0, j + 1));
            }
            j = j + 1;
        }
        proof {
            assert(pats_of(d@.params).subrange(0, pats_of(d@.params).len() as int) =~= pats_of(
                d@.params,
            ));
        }
        let arm: DispatchArm = DispatchArm { id: endpoint_id(d), path, pats };
        let ghost before = arms_view(out@);
        out.push(arm);
        proof {
            assert(arms_view(out@) =~= before.push(arm_of(pv, ev[i as int])));
        }
        i = i + 1;
    }
    proof {
        assert(ev.subrange(0, ev.len() as int) =~= ev);
    }
    let ghost cs = node_view(*n).children;
    proof {
        crate::ast::lemma_nodes_view(n.children@);
        assert(cs == crate::ast::nodes_view(n.children@));
    }
    let mut k: usize = 0;
    #[verifier::loop_isolation(false)]
    while k < n.children.len()
        invariant
            k <= n.children.len(),
            arms_view(out@) == base + arms_own(pv, ev) + arms_children(
                cs.subrange(0, k as int),
                pv,
            ),
        decreases n.children.len() - k,
    {
        proof {
            assert(cs.subrange(0, k + 1).subrange(0, k as int) =~= cs.subrange(0, k as int));
            assert(cs.subrange(0, k + 1)[k as int] == node_view(n.children@[k as int]));
        }
        let child: &NamespaceNode = &n.children[k];
        let mut sub_prefix: Vec<Vec<u8>> = copy_bytes2(prefix);
        sub_prefix.push(copy_bytes(&child.name));
        proof {
            assert(bytes2_view(sub_prefix) =~= pv.push(cs[k as int].name));
        }
        write_arms(child, &sub_prefix, out);
        k = k + 1;
    }
    proof {
        assert(cs.subrange(0, cs.len() as int) =~= cs);
    }
}

// ---------------------------------------------------------------------------
// The wire format and the routing contract.
// ---------------------------------------------------------------------------

/// A recoverable error of the dispatch entry point.
#[derive(Debug, PartialEq, Eq, Structural)]
pub enum DispatchError {
    /// The identifier prefix matches no known arm; the value is carried.
    UnknownMethod { id: u64 },
    /// The buffer is shorter than the fixed-width identifier prefix.
    Truncated,
}

/// A request buffer: the fixed-width little-endian identifier, immediately
/// followed by the codec's encoding of the argument tuple.
pub open spec fn spec_request(id: u64, payload: Seq<u8>) -> Seq<u8> {
    u64_le(id) + payload
}

pub fn encode_request(id: u64, payload: &Vec<u8>) -> (r: Vec<u8>)
    ensures
        r@ == spec_request(id, payload@),
{
    let mut out: Vec<u8> = Vec::new();
    crate::ident::push_u64_le(&mut out, id);
    let mut i: usize = 0;
    #[verifier::loop_isolation(false)]
    while i < payload.len()
        invariant
            i <= payload.len(),
            out@ =~= u64_le(id) + payload@.subrange(0, i as int),
        decreases payload.len() - i,
    {
        out.push(payload[i]);
        i = i + 1;
    }
    proof {
        assert(payload@.subrange(0, payload@.len() as int) =~= payload@);
    }
    out
}

/// The identifier prefix of a request buffer.
pub open spec fn spec_read_ident(b: Seq<u8>) -> u64
    recommends
        b.len() >= 8,
{
    u64_from_le(b[0], b[1], b[2], b[3], b[4], b[5], b[6], b[7])
}

/// Reads the fixed-width identifier prefix of a request buffer.
pub fn read_ident(buf: &Vec<u8>) -> (r: Result<u64, DispatchError>)
    ensures
        buf@.len() >= 8 ==> r == Ok::<u64, DispatchError>(spec_read_ident(buf@)),
        buf@.len() < 8 ==> r == Err::<u64, DispatchError>(DispatchError::Truncated),
{
    if buf.len() < 8 {
        return Err(DispatchError::Truncated);
    }
    Ok(
        (buf[0] as u64) | ((buf[1] as u64) << 8) | ((buf[2] as u64) << 16) | ((buf[3] as u64)
            << 24) | ((buf[4] as u64) << 32) | ((buf[5] as u64) << 40) | ((buf[6] as u64) << 48) | (
        (buf[7] as u64) << 56),
    )
}

/// The first arm carrying `id`, if any.
pub fn find_arm(arms: &Vec<DispatchArm>, id: u64) -> (r: Option<usize>)
    ensures
        match r {
            Some(i) => i < arms@.len() && arms@[i as int].id == id && (forall|j: int|
                0 <= j < i ==> arms@[j].id != id),
            None => forall|j: int| 0 <= j < arms@.len() ==> arms@[j].id != id,
        },
{
    let mut i: usize = 0;
    #[verifier::loop_isolation(false)]
    while i < arms.len()
        invariant
            i <= arms.len(),
            forall|j: int| 0 <= j < i ==> arms@[j].id != id,
        decreases arms.len() - i,
    {
        if arms[i].id == id {
            return Some(i);
        }
        i = i + 1;
    }
    None
}

/// The routing step of the dispatch entry point: reads the identifier
/// prefix and picks the arm that decodes the remaining bytes and invokes
/// the local implementation. A short buffer and an unknown identifier
/// are explicit errors, never an abort; the remaining bytes are returned
/// beside the arm for the codec.
pub fn route<'a>(arms: &'a Vec<DispatchArm>, buf: &Vec<u8>) -> (r: Result<
    (&'a DispatchArm, Vec<u8>),
    DispatchError,
>)
    ensures
        buf@.len() < 8 ==> r == Err::<(&'a DispatchArm, Vec<u8>), DispatchError>(
            DispatchError::Truncated,
        ),
        buf@.len() >= 8 ==> match r {
            Ok((arm, rest)) => {
                &&& arm@.id == spec_read_ident(buf@)
                &&& rest@ == buf@.subrange(8, buf@.len() as int)
                &&& exists|i: int| 0 <= i < arms@.len() && arms@[i] == *arm
            },
            Err(e) => {
                &&& e == (DispatchError::UnknownMethod { id: spec_read_ident(buf@) })
                &&& forall|i: int| 0 <= i < arms@.len() ==> arms@[i].id != spec_read_ident(buf@)
            },
        },
{
    let id: u64 = match read_ident(buf) {
        Ok(v) => v,
        Err(e) => {
            return Err(e);
        },
    };
    match find_arm(arms, id) {
        Some(i) => {
            let mut rest: Vec<u8> = Vec::new();
            let mut k: usize = 8;
            #[verifier::loop_isolation(false)]
            while k < buf.len()
                invariant
                    8 <= k <= buf.len(),
                    buf@.len() >= 8,
                    rest@ =~= buf@.subrange(8, k as int),
                decreases buf.len() - k,
            {
                rest.push(buf[k]);
                k = k + 1;
            }
            proof {
                assert(rest@ =~= buf@.subrange(8, buf@.len() as int));
            }
            Ok((&arms[i], rest))
        },
        None => Err(DispatchError::UnknownMethod { id }),
    }
}

/// Round-trip of the request framing: a buffer built from an identifier and
/// a payload reads back as exactly that identifier and exactly that payload.
pub proof fn lemma_request_round_trip(id: u64, payload: Seq<u8>)
    ensures
        spec_request(id, payload).len() == 8 + payload.len(),
        spec_read_ident(spec_request(id, payload)) == id,
        spec_request(id, payload).subrange(8, spec_request(id, payload).len() as int) == payload,
{
    lemma_u64_le_round_trip(id);
    let b = spec_request(id, payload);
    assert(b[0] == u64_le(id)[0]);
    assert(b[1] == u64_le(id)[1]);
    assert(b[2] == u64_le(id)[2]);
    assert(b[3] == u64_le(id)[3]);
    assert(b[4] == u64_le(id)[4]);
    assert(b[5] == u64_le(id)[5]);
    assert(b[6] == u64_le(id)[6]);
    assert(b[7] == u64_le(id)[7]);
    assert(b.subrange(8, b.len() as int) =~= payload);
}

/// Identifier agreement: the identifier embedded in the client stub of a
/// declaration equals the identifier keying the dispatch arm of the same
/// declaration, wherever in the tree the declaration stands.
pub proof fn lemma_identifier_agreement(d: DeclV, prefix: Seq<Seq<u8>>)
    ensures
        crate::surface::stub_of(d).id == arm_of(prefix, d).id,
{
}

/// Identifier agreement across a whole namespace: stub and arm lists derive
/// identical identifiers position by position.
pub proof fn lemma_namespace_agreement(eps: Seq<DeclV>, prefix: Seq<Seq<u8>>, i: int)
    requires
        0 <= i < eps.len(),
    ensures
        crate::surface::stubs_of(eps).len() == arms_own(prefix, eps).len(),
        crate::surface::stubs_of(eps)[i].id == arms_own(prefix, eps)[i].id,
{
    crate::surface::lemma_stubs_of_index(eps);
    lemma_arms_own_index(prefix, eps);
}

/// One routing entry per endpoint declaration: flattening a subtree yields
/// exactly as many arms as the subtree declares endpoints.
pub proof fn lemma_one_arm_per_endpoint(n: NodeV, prefix: Seq<Seq<u8>>)
    ensures
        arms_of(n, prefix).len() == crate::surface::count_eps(n),
    decreases n,
{
    lemma_arms_own_index(prefix, n.endpoints);
    lemma_arms_children_len(n.children, prefix);
}

proof fn lemma_arms_children_len(s: Seq<NodeV>, prefix: Seq<Seq<u8>>)
    ensures
        arms_children(s, prefix).len() == crate::surface::count_children(s),
    decreases s,
{
    if s.len() > 0 {
        lemma_arms_children_len(s.subrange(0, s.len() - 1), prefix);
        lemma_one_arm_per_endpoint(s[s.len() - 1], prefix.push(s[s.len() - 1].name));
    }
}

/// Identifier agreement between the two artifacts of one namespace: the
/// stubs of its generated surface module and the arms its subtree
/// contributes open with the same identifiers, declaration by declaration —
/// both sides read the same tree and the same derivation.
pub proof fn lemma_module_agreement(n: NodeV, prefix: Seq<Seq<u8>>, i: int)
    requires
        0 <= i < n.endpoints.len(),
    ensures
        crate::surface::surface_module(n).stubs.len() == n.endpoints.len(),
        i < arms_of(n, prefix).len(),
        crate::surface::surface_module(n).stubs[i].id == arms_of(n, prefix)[i].id,
{
    crate::surface::lemma_stubs_of_index(n.endpoints);
    lemma_arms_own_index(prefix, n.endpoints);
    assert(arms_of(n, prefix)[i] == arms_own(prefix, n.endpoints)[i]);
}

} // verus!
