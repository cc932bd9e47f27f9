//! The multi-root merger: one resolver run per root, in root order, and the
//! per-root client surfaces and dispatch arms concatenated into one combined
//! pair of artifacts. Both generators read the same resolved tree, so every
//! identifier agrees on both sides. An identifier collision anywhere in the
//! merged arm table is an explicit, fatal generation error carrying the
//! colliding value.

use vstd::prelude::*;
use crate::ast::{ContentV, ErrV, FsDir, FsDirV, GenError, ItemV, NodeV, bytes2_view};
use crate::dispatch::{ArmV, DispatchArm, arms_of, arms_view, write_arms};
use crate::resolve::{
    child_dir, empty_nodev, has_marker, insert_child_v, items_size, lemma_child_dir_height,
    lookup_file_in, mod_rs, opt_height, rs_suffix, spec_lookup_file, spec_resolve_root,
    spec_visit, stripped_decl, resolve_root,
};
use crate::surface::{
    ClientModule, ClientStub, ModuleV, StubV, children_no_receivers, filtered_modules,
    lemma_modules_view, modules_view, stubs_of, stubs_view, surface_module, tree_no_receivers,
    write_out,
};

verus! {

broadcast use vstd::seq::axiom_seq_index_decreases, vstd::std_specs::vec::axiom_vec_decreases_to_view, vstd::std_specs::vec::axiom_vec_index_decreases;

/// One root source location: the unit's name and the directory context its
/// namespace references resolve against.
#[derive(Debug)]
pub struct Root {
    pub dir: FsDir,
    pub file: Vec<u8>,
}

pub ghost struct RootV {
    pub dir: FsDirV,
    pub file: Seq<u8>,
}

impl View for Root {
    type V = RootV;

    open spec fn view(&self) -> RootV {
        RootV { dir: self.dir@, file: self.file@ }
    }
}

pub open spec fn roots_view(v: Vec<Root>) -> Seq<RootV> {
    Seq::new(v@.len(), |i: int| v@[i]@)
}

/// The combined pair of artifacts: the namespace-preserving client surface
/// (root-level stubs and modules) and the flat dispatch arm table.
#[derive(Debug)]
pub struct Api {
    pub stubs: Vec<ClientStub>,
    pub modules: Vec<ClientModule>,
    pub arms: Vec<DispatchArm>,
}

pub ghost struct ApiV {
    pub stubs: Seq<StubV>,
    pub modules: Seq<ModuleV>,
    pub arms: Seq<ArmV>,
}

impl View for Api {
    type V = ApiV;

    open spec fn view(&self) -> ApiV {
        ApiV {
            stubs: stubs_view(self.stubs),
            modules: modules_view(self.modules@),
            arms: arms_view(self.arms@),
        }
    }
}

/// The merge of the roots' artifacts, in root order: each root is resolved
/// independently, its surface and arms are appended, and the first fatal
/// error aborts the merge. No deduplication, no renaming.
pub open spec fn spec_merge(marker: Seq<u8>, roots: Seq<RootV>) -> Result<ApiV, ErrV>
    decreases roots.len(),
{
    if roots.len() == 0 {
        Ok(ApiV { stubs: Seq::empty(), modules: Seq::empty(), arms: Seq::empty() })
    } else {
        match spec_merge(marker, roots.subrange(0, roots.len() - 1)) {
            Err(e) => Err(e),
            Ok(api) => match spec_resolve_root(
                marker,
                roots[roots.len() - 1].dir,
                roots[roots.len() - 1].file,
            ) {
                Err(e) => Err(e),
                Ok(node) => Ok(
                    ApiV {
                        stubs: api.stubs + stubs_of(node.endpoints),
                        modules: api.modules + filtered_modules(node.children),
                        arms: api.arms + arms_of(node, Seq::empty()),
                    },
                ),
            },
        }
    }
}

/// Every identifier in the merged arm table is distinct: the uniqueness
/// invariant of the identifier space.
pub open spec fn ids_distinct(arms: Seq<ArmV>) -> bool {
    forall|i: int, j: int| 0 <= i < j < arms.len() ==> arms[i].id != arms[j].id
}

/// Two distinct arms carry `id`: the collision that a duplicate-identifier
/// error reports.
pub open spec fn has_collision(arms: Seq<ArmV>, id: u64) -> bool {
    exists|i: int, j: int|
        #![trigger arms[i].id, arms[j].id]
        0 <= i < j < arms.len() && arms[i].id == id && arms[j].id == id
}

// ---------------------------------------------------------------------------
// Resolution leaves no receiver-like parameter in the tree.
// ---------------------------------------------------------------------------

proof fn lemma_insert_child_no_receivers(s: Seq<NodeV>, n: NodeV)
    requires
        children_no_receivers(s),
        tree_no_receivers(n),
    ensures
        children_no_receivers(insert_child_v(s, n)),
    decreases s.len(),
{
    let rest = s.subrange(1, s.len() as int);
    if s.len() == 0 {
        let r = seq![n];
        assert(insert_child_v(s, n) == r);
        assert(r.subrange(1, 1) =~= Seq::<NodeV>::empty());
        assert(children_no_receivers(r.subrange(1, r.len() as int)));
        assert(children_no_receivers(r));
    } else if s[0].name == n.name {
        let r = seq![n] + rest;
        assert(insert_child_v(s, n) == r);
        assert(r.subrange(1, r.len() as int) =~= rest);
        assert(r[0] == n);
        assert(children_no_receivers(r));
    } else {
        lemma_insert_child_no_receivers(rest, n);
        let r = seq![s[0]] + insert_child_v(rest, n);
        assert(insert_child_v(s, n) == r);
        assert(r.subrange(1, r.len() as int) =~= insert_child_v(rest, n));
        assert(r[0] == s[0]);
        assert(children_no_receivers(r));
    }
}

/// Resolution establishes receiver freedom: a marked declaration with a
/// receiver is rejected, so every tree resolution produces is receiver-free.
proof fn lemma_visit_no_receivers(
    marker: Seq<u8>,
    dir: Option<FsDirV>,
    acc: NodeV,
    items: Seq<ItemV>,
)
    requires
        tree_no_receivers(acc),
    ensures
        match spec_visit(marker, dir, acc, items) {
            Ok(n) => tree_no_receivers(n),
            Err(e) => !(e is DuplicateIdentifier),
        },
    decreases opt_height(dir), items_size(items),
{
    if items.len() > 0 {
        let rest = items.subrange(1, items.len() as int);
        crate::resolve::lemma_item_size_pos(items[0]);
        match items[0] {
            ItemV::Fn(d) => {
                if has_marker(d.attrs, marker) {
                    if !d.receiver {
                        let sd = stripped_decl(d, marker);
                        let acc2 = NodeV { endpoints: acc.endpoints.push(sd), ..acc };
                        assert(tree_no_receivers(acc2)) by {
                            assert(forall|i: int|
                                0 <= i < acc2.endpoints.len() ==> !acc2.endpoints[i].receiver);
                        }
                        lemma_visit_no_receivers(marker, dir, acc2, rest);
                    }
                } else {
                    lemma_visit_no_receivers(marker, dir, acc, rest);
                }
            },
            ItemV::Mod { name, meta, inline } => {
                lemma_child_dir_height(dir, name);
                let e0 = empty_nodev(name, meta);
                assert(tree_no_receivers(e0));
                let sub = match inline {
                    Some(u) => {
                        lemma_visit_no_receivers(marker, child_dir(dir, name), e0, u.items);
                        spec_visit(marker, child_dir(dir, name), e0, u.items)
                    },
                    None => match spec_lookup_file(dir, name + rs_suffix()) {
                        Some(ContentV::Parsed(u)) => {
                            lemma_visit_no_receivers(marker, child_dir(dir, name), e0, u.items);
                            spec_visit(marker, child_dir(dir, name), e0, u.items)
                        },
                        Some(ContentV::Malformed) => Err(ErrV::ParseFailed { name }),
                        None => match spec_lookup_file(child_dir(dir, name), mod_rs()) {
                            Some(ContentV::Parsed(u)) => {
                                lemma_visit_no_receivers(
                                    marker,
                                    child_dir(dir, name),
                                    e0,
                                    u.items,
                                );
                                spec_visit(marker, child_dir(dir, name), e0, u.items)
                            },
                            Some(ContentV::Malformed) => Err(ErrV::ParseFailed { name }),
                            None => Err(ErrV::ModuleNotFound { name }),
                        },
                    },
                };
                match sub {
                    Ok(c) => {
                        lemma_insert_child_no_receivers(acc.children, c);
                        let acc2 = NodeV { children: insert_child_v(acc.children, c), ..acc };
                        lemma_visit_no_receivers(marker, dir, acc2, rest);
                    },
                    Err(_) => {},
                }
            },
            ItemV::Other => {
                lemma_visit_no_receivers(marker, dir, acc, rest);
            },
        }
    }
}

/// A resolved root is receiver-free.
pub proof fn lemma_root_no_receivers(marker: Seq<u8>, dir: FsDirV, file: Seq<u8>)
    ensures
        match spec_resolve_root(marker, dir, file) {
            Ok(n) => tree_no_receivers(n),
            Err(e) => !(e is DuplicateIdentifier),
        },
{
    match lookup_file_in(dir.entries, file) {
        Some(ContentV::Parsed(u)) => {
            let e0 = empty_nodev(Seq::empty(), Seq::empty());
            assert(tree_no_receivers(e0));
            lemma_visit_no_receivers(marker, Some(dir), e0, u.items);
        },
        _ => {},
    }
}

/// A fatal error in a prefix of the roots is the error of the whole merge.
proof fn lemma_merge_err_prefix(marker: Seq<u8>, roots: Seq<RootV>, k: int)
    requires
        0 <= k <= roots.len(),
        spec_merge(marker, roots.subrange(0, k)) is Err,
    ensures
        spec_merge(marker, roots) == spec_merge(marker, roots.subrange(0, k)),
    decreases roots.len() - k,
{
    if k == roots.len() {
        assert(roots.subrange(0, k) =~= roots);
    } else {
        assert(roots.subrange(0, k + 1).subrange(0, k) =~= roots.subrange(0, k));
        lemma_merge_err_prefix(marker, roots, k + 1);
    }
}

// ---------------------------------------------------------------------------
// The merger, executably.
// ---------------------------------------------------------------------------

/// Derives the combined contract from the given roots: resolves each root in
/// order, generates the client surface and the dispatch table from the same
/// tree, concatenates the artifacts, and rejects any identifier collision
/// across the whole merged table.
#[verifier::rlimit(80)]
pub fn build_api(marker: &Vec<u8>, roots: &Vec<Root>) -> (r: Result<Api, GenError>)
    ensures
        match r {
            Ok(api) => spec_merge(marker@, roots_view(*roots)) == Ok::<ApiV, ErrV>(api@)
                && ids_distinct(api@.arms),
            Err(e) => match e@ {
                ErrV::DuplicateIdentifier { id } => {
                    &&& spec_merge(marker@, roots_view(*roots)) is Ok
                    &&& !ids_distinct(spec_merge(marker@, roots_view(*roots))->Ok_0.arms)
                    &&& has_collision(spec_merge(marker@, roots_view(*roots))->Ok_0.arms, id)
                },
                _ => spec_merge(marker@, roots_view(*roots)) == Err::<ApiV, ErrV>(e@),
            },
        },
{
    let ghost m = marker@;
    let ghost rv = roots_view(*roots);
    let mut stubs: Vec<ClientStub> = Vec::new();
    let mut modules: Vec<ClientModule> = Vec::new();
    let mut arms: Vec<DispatchArm> = Vec::new();
    proof {
        assert(rv.subrange(0, 0) =~= Seq::<RootV>::empty());
        assert(stubs_view(stubs) =~= Seq::<StubV>::empty());
        lemma_modules_view(modules@);
        assert(modules_view(modules@) =~= Seq::<ModuleV>::empty());
        assert(arms_view(arms@) =~= Seq::<ArmV>::empty());
    }
    let mut i: usize = 0;
    #[verifier::loop_isolation(false)]
    while i < roots.len()
        invariant
            i <= roots.len(),
            spec_merge(m, rv.subrange(0, i as int)) == Ok::<ApiV, ErrV>(
                ApiV {
                    stubs: stubs_view(stubs),
                    modules: modules_view(modules@),
                    arms: arms_view(arms@),
                },
            ),
        decreases roots.len() - i,
    {
        proof {
            assert(rv.subrange(0, i + 1).subrange(0, i as int) =~= rv.subrange(0, i as int));
            assert(rv.subrange(0, i + 1)[i as int] == roots@[i as int]@);
        }
        proof {
            lemma_root_no_receivers(m, roots@[i as int]@.dir, roots@[i as int]@.file);
        }
        let node = match resolve_root(marker, &roots[i].dir, &roots[i].file) {
            Ok(n) => n,
            Err(e) => {
                proof {
                    lemma_merge_err_prefix(m, rv, i + 1);
                }
                return Err(e);
            },
        };
        let (mut new_stubs, mut new_modules): (Vec<ClientStub>, Vec<ClientModule>) = write_out(
            &node,
        );
        let mut new_arms: Vec<DispatchArm> = Vec::new();
        let empty_prefix: Vec<Vec<u8>> = Vec::new();
        proof {
            assert(bytes2_view(empty_prefix) =~= Seq::<Seq<u8>>::empty());
            assert(arms_view(new_arms@) =~= Seq::<ArmV>::empty());
        }
        write_arms(&node, &empty_prefix, &mut new_arms);
        let ghost old_stubs = stubs_view(stubs);
        let ghost old_modules = modules_view(modules@);
        let ghost old_arms = arms_view(arms@);
        let ghost old_mvec = modules@;
        let ghost new_mvec = new_modules@;
        stubs.append(&mut new_stubs);
        modules.append(&mut new_modules);
        arms.append(&mut new_arms);
        proof {
            assert(stubs_view(stubs) =~= old_stubs + stubs_of(node@.endpoints));
            lemma_modules_view(old_mvec);
            lemma_modules_view(new_mvec);
            lemma_modules_view(modules@);
            assert(modules@ == old_mvec + new_mvec);
            assert(forall|k: int|
                0 <= k < old_mvec.len() ==> (old_mvec + new_mvec)[k] == old_mvec[k]);
            assert(forall|k: int|
                0 <= k < new_mvec.len() ==> (old_mvec + new_mvec)[old_mvec.len() + k]
                    == new_mvec[k]);
            assert(modules_view(modules@) =~= old_modules + filtered_modules(node@.children));
            assert(arms_view(arms@) =~= old_arms + (Seq::<ArmV>::empty() + arms_of(
                node@,
                Seq::empty(),
            )));
            assert(Seq::<ArmV>::empty() + arms_of(node@, Seq::empty()) =~= arms_of(
                node@,
                Seq::empty(),
            ));
        }
        i = i + 1;
    }
    proof {
        assert(rv.subrange(0, rv.len() as int) =~= rv);
    }
    let mut a: usize = 0;
    #[verifier::loop_isolation(false)]
    while a < arms.len()
        invariant
            a <= arms.len(),
            forall|x: int, y: int|
                0 <= x < y < arms@.len() && x < a ==> arms@[x].id != arms@[y].id,
        decreases arms.len() - a,
    {
        let mut b: usize = a + 1;
        #[verifier::loop_isolation(false)]
        while b < arms.len()
            invariant
                a < b <= arms.len(),
                forall|y: int| a < y < b ==> arms@[a as int].id != arms@[y].id,
            decreases arms.len() - b,
        {
            if arms[a].id == arms[b].id {
                proof {
                    assert(arms_view(arms@)[a as int].id == arms@[a as int].id);
                    assert(arms_view(arms@)[b as int].id == arms@[b as int].id);
                }
                return Err(GenError::DuplicateIdentifier { id: arms[a].id });
            }
            b = b + 1;
        }
        a = a + 1;
    }
    proof {
        assert(forall|x: int, y: int|
            0 <= x < y < arms_view(arms@).len() ==> arms_view(arms@)[x].id == arms@[x].id
                && arms_view(arms@)[y].id == arms@[y].id);
    }
    Ok(Api { stubs, modules, arms })
}

// ---------------------------------------------------------------------------
// Laws of the merged artifacts.
// ---------------------------------------------------------------------------

/// The identifiers of a stub list.
pub open spec fn stub_ids(s: Seq<StubV>) -> Seq<u64> {
    Seq::new(s.len(), |i: int| s[i].id)
}

/// The identifiers of an arm table.
pub open spec fn arm_ids(s: Seq<ArmV>) -> Seq<u64> {
    Seq::new(s.len(), |i: int| s[i].id)
}

/// The identifiers of every stub of a surface module, depth first.
pub open spec fn module_ids(m: ModuleV) -> Seq<u64>
    decreases m,
{
    stub_ids(m.stubs) + modules_ids(m.children)
}

pub open spec fn modules_ids(s: Seq<ModuleV>) -> Seq<u64>
    decreases s,
{
    if s.len() == 0 {
        Seq::empty()
    } else {
        modules_ids(s.subrange(0, s.len() - 1)) + module_ids(s[s.len() - 1])
    }
}

/// The identifiers of every stub the client surface of `n` exposes.
pub open spec fn surface_ids(n: NodeV) -> Seq<u64> {
    stub_ids(stubs_of(n.endpoints)) + modules_ids(filtered_modules(n.children))
}

proof fn lemma_concat_contains(a: Seq<u64>, b: Seq<u64>, x: u64)
    ensures
        (a + b).contains(x) <==> a.contains(x) || b.contains(x),
{
    if (a + b).contains(x) {
        let i = choose|i: int| 0 <= i < (a + b).len() && (a + b)[i] == x;
        if i < a.len() {
            assert(a[i] == x);
        } else {
            assert(b[i - a.len()] == x);
        }
    }
    if a.contains(x) {
        let i = choose|i: int| 0 <= i < a.len() && a[i] == x;
        assert((a + b)[i] == x);
    }
    if b.contains(x) {
        let i = choose|i: int| 0 <= i < b.len() && b[i] == x;
        assert((a + b)[a.len() + i] == x);
    }
}

/// Surface-to-table agreement, the completeness face: every identifier a
/// client stub anywhere in the generated surface of `n` carries also keys an
/// arm of the dispatch table flattened from the same tree.
pub proof fn lemma_surface_covered_by_arms(n: NodeV, prefix: Seq<Seq<u8>>, x: u64)
    requires
        surface_ids(n).contains(x),
    ensures
        arm_ids(arms_of(n, prefix)).contains(x),
    decreases n,
{
    crate::surface::lemma_stubs_of_index(n.endpoints);
    crate::dispatch::lemma_arms_own_index(prefix, n.endpoints);
    let own_stub_ids = stub_ids(stubs_of(n.endpoints));
    let child_ids = modules_ids(filtered_modules(n.children));
    let own_arm_ids = arm_ids(crate::dispatch::arms_own(prefix, n.endpoints));
    let child_arm_ids = arm_ids(crate::dispatch::arms_children(n.children, prefix));
    lemma_concat_contains(own_stub_ids, child_ids, x);
    assert(arm_ids(arms_of(n, prefix)) =~= own_arm_ids + child_arm_ids);
    lemma_concat_contains(own_arm_ids, child_arm_ids, x);
    if own_stub_ids.contains(x) {
        let i = choose|i: int| 0 <= i < own_stub_ids.len() && own_stub_ids[i] == x;
        assert(own_arm_ids[i] == x);
    } else {
        lemma_children_covered_by_arms(n.children, prefix, x);
    }
}

proof fn lemma_children_covered_by_arms(s: Seq<NodeV>, prefix: Seq<Seq<u8>>, x: u64)
    requires
        modules_ids(filtered_modules(s)).contains(x),
    ensures
        arm_ids(crate::dispatch::arms_children(s, prefix)).contains(x),
    decreases s,
{
    if s.len() > 0 {
        let head = s.subrange(0, s.len() - 1);
        let last = s[s.len() - 1];
        let fm = filtered_modules(s);
        let head_ids = modules_ids(filtered_modules(head));
        let last_arms = crate::dispatch::arms_of(last, prefix.push(last.name));
        let head_arm_ids = arm_ids(crate::dispatch::arms_children(head, prefix));
        assert(arm_ids(crate::dispatch::arms_children(s, prefix)) =~= head_arm_ids + arm_ids(
            last_arms,
        ));
        if crate::surface::count_eps(last) > 0 {
            let added = surface_module(last);
            assert(fm =~= filtered_modules(head).push(added));
            assert(fm.subrange(0, fm.len() - 1) =~= filtered_modules(head));
            assert(modules_ids(fm) == head_ids + module_ids(added));
            lemma_concat_contains(head_ids, module_ids(added), x);
            if head_ids.contains(x) {
                lemma_children_covered_by_arms(head, prefix, x);
                let i = choose|i: int| 0 <= i < head_arm_ids.len() && head_arm_ids[i] == x;
                assert((head_arm_ids + arm_ids(last_arms))[i] == x);
            } else {
                assert(module_ids(added) == surface_ids(last));
                lemma_surface_covered_by_arms(last, prefix.push(last.name), x);
                let i = choose|i: int|
                    0 <= i < arm_ids(last_arms).len() && arm_ids(last_arms)[i] == x;
                assert((head_arm_ids + arm_ids(last_arms))[head_arm_ids.len() + i] == x);
            }
        } else {
            assert(fm =~= filtered_modules(head));
            lemma_children_covered_by_arms(head, prefix, x);
            let i = choose|i: int| 0 <= i < head_arm_ids.len() && head_arm_ids[i] == x;
            assert((head_arm_ids + arm_ids(last_arms))[i] == x);
        }
    } else {
        assert(filtered_modules(s) =~= Seq::<ModuleV>::empty());
        assert(modules_ids(filtered_modules(s)) =~= Seq::<u64>::empty());
        assert(false);
    }
}

/// Generation determinism: the merged artifacts are a function of the roots'
/// content and the marker alone, so regenerating from identical input yields
/// identical artifacts — identifiers included.
pub proof fn lemma_generation_deterministic(marker: Seq<u8>, r1: Seq<RootV>, r2: Seq<RootV>)
    requires
        r1 == r2,
    ensures
        spec_merge(marker, r1) == spec_merge(marker, r2),
{
}

/// Multi-root merge: two roots that both resolve contribute their stubs,
/// their surface modules and their dispatch arms to the combined artifacts,
/// concatenated in root order.
pub proof fn lemma_multi_root_merge(marker: Seq<u8>, a: RootV, b: RootV, na: NodeV, nb: NodeV)
    requires
        spec_resolve_root(marker, a.dir, a.file) == Ok::<NodeV, ErrV>(na),
        spec_resolve_root(marker, b.dir, b.file) == Ok::<NodeV, ErrV>(nb),
    ensures
        spec_merge(marker, seq![a, b]) == Ok::<ApiV, ErrV>(
            ApiV {
                stubs: stubs_of(na.endpoints) + stubs_of(nb.endpoints),
                modules: filtered_modules(na.children) + filtered_modules(nb.children),
                arms: arms_of(na, Seq::empty()) + arms_of(nb, Seq::empty()),
            },
        ),
{
    let two = seq![a, b];
    let one = two.subrange(0, 1);
    let zero = one.subrange(0, 0);
    assert(zero =~= Seq::<RootV>::empty());
    assert(zero.len() == 0);
    assert(one[0] == a);
    assert(two[1] == b);
    assert(two.subrange(0, 1) =~= one);
    assert(one.subrange(0, 0) =~= zero);
    let e = ApiV { stubs: Seq::empty(), modules: Seq::empty(), arms: Seq::empty() };
    assert(spec_merge(marker, zero) == Ok::<ApiV, ErrV>(e));
    let first = ApiV {
        stubs: Seq::<StubV>::empty() + stubs_of(na.endpoints),
        modules: Seq::<ModuleV>::empty() + filtered_modules(na.children),
        arms: Seq::<ArmV>::empty() + arms_of(na, Seq::empty()),
    };
    assert(spec_merge(marker, one) == Ok::<ApiV, ErrV>(first));
    assert(first.stubs =~= stubs_of(na.endpoints));
    assert(first.modules =~= filtered_modules(na.children));
    assert(first.arms =~= arms_of(na, Seq::empty()));
    assert(spec_merge(marker, two) == Ok::<ApiV, ErrV>(
        ApiV {
            stubs: first.stubs + stubs_of(nb.endpoints),
            modules: first.modules + filtered_modules(nb.children),
            arms: first.arms + arms_of(nb, Seq::empty()),
        },
    ));
}

} // verus!
