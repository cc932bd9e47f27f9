//! The client surface generator.
//!
//! Every endpoint declaration is rewritten into a call stub: same name, same
//! parameter list, the return type defaulted to the unit type where absent
//! (rendering wraps it in the fallible result type), the declaration body
//! discarded, and the endpoint's identifier embedded. Namespace nesting is
//! preserved, so callers reach a stub under its original qualified path;
//! a namespace whose subtree declares no endpoint contributes nothing.

use vstd::prelude::*;
use crate::ast::{
    DeclV, ErrV, FnDecl, GenError, NamespaceNode, NodeV, Param, ParamV, copy_bytes, copy_params,
    decls_view, lemma_nodes_view, node_view, nodes_view, params_view,
};
use crate::ident::{endpoint_id, spec_endpoint_id};

verus! {

broadcast use crate::ast::lemma_nodes_view, vstd::seq::axiom_seq_index_decreases, vstd::std_specs::vec::axiom_vec_decreases_to_view, vstd::std_specs::vec::axiom_vec_index_decreases;

/// A generated client call stub: the declaration's shape with its body
/// replaced by a remote invocation keyed by `id`.
#[derive(Debug)]
pub struct ClientStub {
    pub name: Vec<u8>,
    pub params: Vec<Param>,
    pub ret: Vec<u8>,
    pub id: u64,
}

pub ghost struct StubV {
    pub name: Seq<u8>,
    pub params: Seq<ParamV>,
    pub ret: Seq<u8>,
    pub id: u64,
}

impl View for ClientStub {
    type V = StubV;

    open spec fn view(&self) -> StubV {
        StubV {
            name: self.name@,
            params: params_view(self.params),
            ret: self.ret@,
            id: self.id,
        }
    }
}

/// A namespace of the generated client surface: its stubs in declaration
/// order, then its child namespaces.
#[derive(Debug)]
pub struct ClientModule {
    pub name: Vec<u8>,
    pub stubs: Vec<ClientStub>,
    pub children: Vec<ClientModule>,
}

pub ghost struct ModuleV {
    pub name: Seq<u8>,
    pub stubs: Seq<StubV>,
    pub children: Seq<ModuleV>,
}

pub open spec fn stubs_view(v: Vec<ClientStub>) -> Seq<StubV> {
    Seq::new(v@.len(), |i: int| v@[i]@)
}

pub open spec fn module_view(m: ClientModule) -> ModuleV
    decreases m,
{
    ModuleV {
        name: m.name@,
        stubs: stubs_view(m.stubs),
        children: modules_view(m.children@),
    }
}

pub open spec fn modules_view(s: Seq<ClientModule>) -> Seq<ModuleV>
    decreases s,
{
    if s.len() == 0 {
        Seq::empty()
    } else {
        modules_view(s.subrange(0, s.len() - 1)).push(module_view(s[s.len() - 1]))
    }
}

impl View for ClientModule {
    type V = ModuleV;

    open spec fn view(&self) -> ModuleV {
        module_view(*self)
    }
}

pub broadcast proof fn lemma_modules_view(s: Seq<ClientModule>)
    ensures
        (#[trigger] modules_view(s)).len() == s.len(),
        forall|i: int| 0 <= i < s.len() ==> modules_view(s)[i] == module_view(s[i]),
    decreases s.len(),
{
    if s.len() > 0 {
        lemma_modules_view(s.subrange(0, s.len() - 1));
    }
}

/// The unit type, the default return type of a declaration without one.
pub open spec fn unit_ty() -> Seq<u8> {
    seq![40u8, 41u8]
}

pub open spec fn ret_or_unit(r: Option<Seq<u8>>) -> Seq<u8> {
    match r {
        Some(b) => b,
        None => unit_ty(),
    }
}

/// The stub of one endpoint declaration: same name and parameters, the
/// return type made explicit, the body discarded, the identifier derived
/// from the declaration's structural signature.
pub open spec fn stub_of(d: DeclV) -> StubV {
    StubV { name: d.name, params: d.params, ret: ret_or_unit(d.ret), id: spec_endpoint_id(d) }
}

/// The stubs of a namespace's endpoints, in declaration order.
pub open spec fn stubs_of(eps: Seq<DeclV>) -> Seq<StubV>
    decreases eps.len(),
{
    if eps.len() == 0 {
        Seq::empty()
    } else {
        stubs_of(eps.subrange(0, eps.len() - 1)).push(stub_of(eps[eps.len() - 1]))
    }
}

pub broadcast proof fn lemma_stubs_of_index(eps: Seq<DeclV>)
    ensures
        (#[trigger] stubs_of(eps)).len() == eps.len(),
        forall|i: int| 0 <= i < eps.len() ==> stubs_of(eps)[i] == stub_of(eps[i]),
    decreases eps.len(),
{
    if eps.len() > 0 {
        lemma_stubs_of_index(eps.subrange(0, eps.len() - 1));
    }
}

/// How many endpoints a namespace subtree declares.
pub open spec fn count_eps(n: NodeV) -> nat
    decreases n,
{
    n.endpoints.len() + count_children(n.children)
}

pub open spec fn count_children(s: Seq<NodeV>) -> nat
    decreases s,
{
    if s.len() == 0 {
        0
    } else {
        count_children(s.subrange(0, s.len() - 1)) + count_eps(s[s.len() - 1])
    }
}

/// The client surface of a namespace's children: one module per child whose
/// subtree declares at least one endpoint, in child order, each holding its
/// own stubs and its surviving children.
pub open spec fn filtered_modules(s: Seq<NodeV>) -> Seq<ModuleV>
    decreases s,
{
    if s.len() == 0 {
        Seq::empty()
    } else {
        filtered_modules(s.subrange(0, s.len() - 1)) + (if count_eps(s[s.len() - 1]) > 0 {
            seq![surface_module(s[s.len() - 1])]
        } else {
            Seq::<ModuleV>::empty()
        })
    }
}

pub open spec fn surface_module(n: NodeV) -> ModuleV
    decreases n,
{
    ModuleV {
        name: n.name,
        stubs: stubs_of(n.endpoints),
        children: filtered_modules(n.children),
    }
}

/// Rewrites one marked declaration — as an attribute macro receives it, the
/// marker already stripped — into its client stub. A declaration with a
/// receiver-like first parameter is the unsupported shape, a fatal error.
pub fn server(d: &FnDecl) -> (r: Result<ClientStub, GenError>)
    ensures
        match r {
            Ok(s) => !d@.receiver && s@ == stub_of(d@),
            Err(e) => d@.receiver && e@ == (ErrV::ReceiverParam { name: d@.name }),
        },
{
    if d.receiver {
        return Err(GenError::ReceiverParam { name: copy_bytes(&d.name) });
    }
    let ret: Vec<u8> = match &d.ret {
        Some(b) => copy_bytes(b),
        None => {
            let mut u: Vec<u8> = Vec::new();
            u.push(40u8);
            u.push(41u8);
            proof {
                assert(u@ =~= unit_ty());
            }
            u
        },
    };
    Ok(ClientStub {
        name: copy_bytes(&d.name),
        params: copy_params(&d.params),
        ret,
        id: endpoint_id(d),
    })
}

/// Whether a namespace subtree declares any endpoint at all.
pub fn has_endpoints(n: &NamespaceNode) -> (r: bool)
    ensures
        r == (count_eps(n@) > 0),
    decreases *n,
{
    if n.endpoints.len() > 0 {
        proof {
            assert(count_eps(n@) >= node_view(*n).endpoints.len());
        }
        return true;
    }
    let ghost cs = node_view(*n).children;
    proof {
        lemma_nodes_view(n.children@);
        assert(cs == nodes_view(n.children@));
    }
    let mut i: usize = 0;
    #[verifier::loop_isolation(false)]
    while i < n.children.len()
        invariant
            i <= n.children.len(),
            count_children(cs.subrange(0, i as int)) == 0,
        decreases n.children.len() - i,
    {
        proof {
            assert(cs.subrange(0, i + 1).subrange(0, i as int) =~= cs.subrange(0, i as int));
            assert(cs.subrange(0, i + 1)[i as int] == node_view(n.children@[i as int]));
        }
        if has_endpoints(&n.children[i]) {
            proof {
                lemma_count_children_ge(cs, i as int);
            }
            return true;
        }
        i = i + 1;
    }
    proof {
        assert(cs.subrange(0, cs.len() as int) =~= cs);
    }
    false
}

proof fn lemma_count_children_ge(s: Seq<NodeV>, i: int)
    requires
        0 <= i < s.len(),
    ensures
        count_children(s) >= count_eps(s[i]),
    decreases s.len(),
{
    if i < s.len() - 1 {
        lemma_count_children_ge(s.subrange(0, s.len() - 1), i);
    }
}

/// How many endpoints a namespace subtree declares, executably.
pub fn total_fns(n: &NamespaceNode) -> (r: usize)
    requires
        count_eps(n@) <= usize::MAX,
    ensures
        r == count_eps(n@),
    decreases *n,
{
    let ghost cs = node_view(*n).children;
    proof {
        lemma_nodes_view(n.children@);
        assert(cs == nodes_view(n.children@));
    }
    let mut sum: usize = n.endpoints.len();
    let mut i: usize = 0;
    #[verifier::loop_isolation(false)]
    while i < n.children.len()
        invariant
            i <= n.children.len(),
            sum == node_view(*n).endpoints.len() + count_children(cs.subrange(0, i as int)),
        decreases n.children.len() - i,
    {
        proof {
            assert(cs.subrange(0, i + 1).subrange(0, i as int) =~= cs.subrange(0, i as int));
            assert(cs.subrange(0, i + 1)[i as int] == node_view(n.children@[i as int]));
            lemma_count_children_ge(cs, i as int);
            lemma_count_children_prefix_le(cs, i + 1);
        }
        let part: usize = total_fns(&n.children[i]);
        sum = sum + part;
        i = i + 1;
    }
    proof {
        assert(cs.subrange(0, cs.len() as int) =~= cs);
    }
    sum
}

/// A prefix of the children counts no more than all of them.
proof fn lemma_count_children_prefix_le(s: Seq<NodeV>, i: int)
    requires
        0 <= i <= s.len(),
    ensures
        count_children(s.subrange(0, i)) <= count_children(s),
    decreases s.len() - i,
{
    if i < s.len() {
        lemma_count_children_prefix_le(s, i + 1);
        assert(s.subrange(0, i + 1).subrange(0, i) =~= s.subrange(0, i));
        assert(s.subrange(0, i + 1)[i] == s[i]);
    } else {
        assert(s.subrange(0, s.len() as int) =~= s);
    }
}

/// The stubs of a list of endpoint declarations, in order.
pub fn write_stubs(eps: &Vec<FnDecl>) -> (r: Vec<ClientStub>)
    requires
        forall|i: int| 0 <= i < decls_view(*eps).len() ==> !decls_view(*eps)[i].receiver,
    ensures
        stubs_view(r) == stubs_of(decls_view(*eps)),
{
    let ghost ev = decls_view(*eps);
    let mut out: Vec<ClientStub> = Vec::new();
    proof {
        assert(stubs_view(out) =~= stubs_of(ev.subrange(0, 0)));
    }
    let mut i: usize = 0;
    #[verifier::loop_isolation(false)]
    while i < eps.len()
        invariant
            i <= eps.len(),
            stubs_view(out) == stubs_of(ev.subrange(0, i as int)),
        decreases eps.len() - i,
    {
        proof {
            assert(ev.subrange(0, i + 1).subrange(0, i as int) =~= ev.subrange(0, i as int));
            assert(ev.subrange(0, i + 1)[i as int] == eps@[i as int]@);
        }
        let stub: ClientStub = match server(&eps[i]) {
            Ok(s) => s,
            Err(_) => {
                proof {
                    assert(false);
                }
                unreached()
            },
        };
        let ghost before = stubs_view(out);
        out.push(stub);
        proof {
            assert(stubs_view(out) =~= before.push(stub_of(ev[i as int])));
        }
        i = i + 1;
    }
    proof {
        assert(ev.subrange(0, ev.len() as int) =~= ev);
    }
    out
}

/// The client surface of one resolved namespace: its own stubs, and one
/// module per child subtree that declares an endpoint, nesting preserved.
pub fn write_out(n: &NamespaceNode) -> (r: (Vec<ClientStub>, Vec<ClientModule>))
    requires
        tree_no_receivers(n@),
    ensures
        stubs_view(r.0) == stubs_of(n@.endpoints),
        modules_view(r.1@) == filtered_modules(n@.children),
    decreases *n,
{
    let stubs: Vec<ClientStub> = write_stubs(&n.endpoints);
    let ghost cs = node_view(*n).children;
    proof {
        lemma_nodes_view(n.children@);
        assert(cs == nodes_view(n.children@));
    }
    let mut modules: Vec<ClientModule> = Vec::new();
    proof {
        assert(modules_view(modules@) =~= filtered_modules(cs.subrange(0, 0)));
    }
    let mut i: usize = 0;
    #[verifier::loop_isolation(false)]
    while i < n.children.len()
        invariant
            i <= n.children.len(),
            modules_view(modules@) == filtered_modules(cs.subrange(0, i as int)),
        decreases n.children.len() - i,
    {
        proof {
            assert(cs.subrange(0, i + 1).subrange(0, i as int) =~= cs.subrange(0, i as int));
            assert(cs.subrange(0, i + 1)[i as int] == node_view(n.children@[i as int]));
        }
        if has_endpoints(&n.children[i]) {
            proof {
                lemma_tree_no_receivers_child(n@, i as int);
            }
            let (sub_stubs, sub_modules): (Vec<ClientStub>, Vec<ClientModule>) = write_out(
                &n.children[i],
            );
            let module: ClientModule = ClientModule {
                name: copy_bytes(&n.children[i].name),
                stubs: sub_stubs,
                children: sub_modules,
            };
            let ghost before = modules_view(modules@);
            let ghost oldm = modules@;
            proof {
                assert(module_view(module) == surface_module(cs[i as int]));
            }
            modules.push(module);
            proof {
                assert(modules@.subrange(0, modules@.len() - 1) =~= oldm);
                assert(modules_view(modules@) == modules_view(oldm).push(module_view(module)));
                assert(modules_view(modules@) =~= before + seq![surface_module(cs[i as int])]);
            }
        } else {
            proof {
                assert(modules_view(modules@) =~= modules_view(modules@) + Seq::<
                    ModuleV,
                >::empty());
            }
        }
        i = i + 1;
    }
    proof {
        assert(cs.subrange(0, cs.len() as int) =~= cs);
    }
    (stubs, modules)
}

/// No endpoint anywhere in the tree kept a receiver-like first parameter:
/// resolution rejects them, so every resolved tree satisfies this.
pub open spec fn tree_no_receivers(n: NodeV) -> bool
    decreases n,
{
    (forall|i: int| 0 <= i < n.endpoints.len() ==> !n.endpoints[i].receiver)
        && children_no_receivers(n.children)
}

pub open spec fn children_no_receivers(s: Seq<NodeV>) -> bool
    decreases s,
{
    if s.len() == 0 {
        true
    } else {
        tree_no_receivers(s[0]) && children_no_receivers(s.subrange(1, s.len() as int))
    }
}

pub proof fn lemma_tree_no_receivers_child(n: NodeV, i: int)
    requires
        tree_no_receivers(n),
        0 <= i < n.children.len(),
    ensures
        tree_no_receivers(n.children[i]),
{
    lemma_children_no_receivers_index(n.children, i);
}

proof fn lemma_children_no_receivers_index(s: Seq<NodeV>, i: int)
    requires
        children_no_receivers(s),
        0 <= i < s.len(),
    ensures
        tree_no_receivers(s[i]),
    decreases s.len(),
{
    if i > 0 {
        lemma_children_no_receivers_index(s.subrange(1, s.len() as int), i - 1);
    }
}

/// Ordering preservation: endpoints declared in source order appear in the
/// same order in the generated client surface of their namespace — the
/// stub at a position is the stub of the declaration at that position.
pub proof fn lemma_ordering_preserved(eps: Seq<DeclV>, i: int)
    requires
        0 <= i < eps.len(),
    ensures
        stubs_of(eps).len() == eps.len(),
        stubs_of(eps)[i] == stub_of(eps[i]),
        stubs_of(eps)[i].name == eps[i].name,
{
    lemma_stubs_of_index(eps);
}

} // verus!
