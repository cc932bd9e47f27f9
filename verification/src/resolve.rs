//! The namespace resolver and endpoint extractor.
//!
//! Given the parsed top-level content of a root source unit and the content
//! tree it sits in, the resolver expands every nested namespace reference —
//! inline content directly, external content by trying first a unit named
//! after the namespace with the fixed `.rs` suffix, then a directory of that
//! name holding the fixed index unit `mod.rs` — and produces a namespace
//! tree. Along the way it extracts the declarations that carry the marker
//! attribute, strips the marker, and keeps them in declaration order; a
//! marked declaration with a receiver-like first parameter is a fatal error,
//! as is a reference with no resolvable content and a unit that exists but
//! does not parse.

use vstd::prelude::*;
use vstd::pervasive::VecAdditionalExecFns;
use crate::ast::{
    ContentV, DeclV, ErrV, FileContent, FnDecl, FsDir, FsDirV, FsEntry, FsEntryV, GenError, Item,
    ItemV, NamespaceNode, NodeV, bytes2_view, bytes_eq, copy_bytes, copy_bytes2, copy_params,
    decls_view, entries_view, entry_view, item_view, items_view, node_view, nodes_view,
    res_node_view,
};

verus! {

broadcast use crate::ast::lemma_items_view, crate::ast::lemma_entries_view, crate::ast::lemma_nodes_view, vstd::seq::axiom_seq_index_decreases, vstd::std_specs::vec::axiom_vec_decreases_to_view, vstd::std_specs::vec::axiom_vec_index_decreases;

/// The fixed suffix tried first for an external namespace: `.rs`.
pub open spec fn rs_suffix() -> Seq<u8> {
    seq![46u8, 114u8, 115u8]
}

/// The fixed index unit name tried second, inside a same-named directory:
/// `mod.rs`.
pub open spec fn mod_rs() -> Seq<u8> {
    seq![109u8, 111u8, 100u8, 46u8, 114u8, 115u8]
}

// ---------------------------------------------------------------------------
// Sizes and heights, the termination measures of resolution.
// ---------------------------------------------------------------------------

/// The size of one item: inline namespace content counts towards it.
pub open spec fn item_size(it: ItemV) -> nat
    decreases it,
{
    match it {
        ItemV::Mod { inline: Some(u), .. } => 1 + items_size(u.items),
        _ => 1,
    }
}

/// The summed size of a namespace body.
pub open spec fn items_size(s: Seq<ItemV>) -> nat
    decreases s,
{
    if s.len() == 0 {
        0
    } else {
        item_size(s[0]) + items_size(s.subrange(1, s.len() as int))
    }
}

pub open spec fn entry_height(e: FsEntryV) -> nat
    decreases e,
{
    match e {
        FsEntryV::File { .. } => 0,
        FsEntryV::Dir { dir, .. } => dir_height(dir),
    }
}

pub open spec fn entries_height(s: Seq<FsEntryV>) -> nat
    decreases s,
{
    if s.len() == 0 {
        0
    } else {
        let h0 = entry_height(s[0]);
        let hr = entries_height(s.subrange(1, s.len() as int));
        if h0 > hr {
            h0
        } else {
            hr
        }
    }
}

pub open spec fn dir_height(d: FsDirV) -> nat
    decreases d,
{
    1 + entries_height(d.entries)
}

/// The height of an optional directory context; a missing context is 0.
pub open spec fn opt_height(od: Option<FsDirV>) -> nat {
    match od {
        None => 0,
        Some(d) => dir_height(d),
    }
}

pub proof fn lemma_item_size_pos(it: ItemV)
    ensures
        item_size(it) >= 1,
{
}

/// Every item of a body weighs at least its own size.
pub proof fn lemma_items_size_ge(s: Seq<ItemV>, i: int)
    requires
        0 <= i < s.len(),
    ensures
        items_size(s) >= item_size(s[i]),
    decreases i,
{
    if i > 0 {
        lemma_items_size_ge(s.subrange(1, s.len() as int), i - 1);
    }
}

// ---------------------------------------------------------------------------
// Lookups in the content tree.
// ---------------------------------------------------------------------------

/// The content of the first unit named `name` among `s`, if any.
pub open spec fn lookup_file_in(s: Seq<FsEntryV>, name: Seq<u8>) -> Option<ContentV>
    decreases s.len(),
{
    if s.len() == 0 {
        None
    } else {
        match s[0] {
            FsEntryV::File { name: n, content } => if n == name {
                Some(content)
            } else {
                lookup_file_in(s.subrange(1, s.len() as int), name)
            },
            _ => lookup_file_in(s.subrange(1, s.len() as int), name),
        }
    }
}

/// The first directory named `name` among `s`, if any.
pub open spec fn lookup_dir_in(s: Seq<FsEntryV>, name: Seq<u8>) -> Option<FsDirV>
    decreases s.len(),
{
    if s.len() == 0 {
        None
    } else {
        match s[0] {
            FsEntryV::Dir { name: n, dir } => if n == name {
                Some(dir)
            } else {
                lookup_dir_in(s.subrange(1, s.len() as int), name)
            },
            _ => lookup_dir_in(s.subrange(1, s.len() as int), name),
        }
    }
}

pub open spec fn spec_lookup_file(od: Option<FsDirV>, name: Seq<u8>) -> Option<ContentV> {
    match od {
        None => None,
        Some(d) => lookup_file_in(d.entries, name),
    }
}

/// The directory context of a child namespace: the same-named directory of
/// the current context, if there is one.
pub open spec fn child_dir(od: Option<FsDirV>, name: Seq<u8>) -> Option<FsDirV> {
    match od {
        None => None,
        Some(d) => lookup_dir_in(d.entries, name),
    }
}

proof fn lemma_lookup_dir_height(s: Seq<FsEntryV>, name: Seq<u8>)
    ensures
        match lookup_dir_in(s, name) {
            Some(sub) => dir_height(sub) <= entries_height(s),
            None => true,
        },
    decreases s.len(),
{
    if s.len() > 0 {
        lemma_lookup_dir_height(s.subrange(1, s.len() as int), name);
        match s[0] {
            FsEntryV::Dir { name: n, dir } => {
                if n == name {
                    assert(entry_height(s[0]) == dir_height(dir));
                    assert(entries_height(s) >= entry_height(s[0]));
                }
            },
            _ => {},
        }
        assert(entries_height(s) >= entries_height(s.subrange(1, s.len() as int)));
    }
}

/// Descending into a child directory strictly shrinks the context height.
pub proof fn lemma_child_dir_height(od: Option<FsDirV>, name: Seq<u8>)
    ensures
        opt_height(child_dir(od, name)) <= opt_height(od),
        od is Some ==> opt_height(child_dir(od, name)) < opt_height(od),
{
    match od {
        None => {},
        Some(d) => {
            lemma_lookup_dir_height(d.entries, name);
        },
    }
}

// ---------------------------------------------------------------------------
// The marker attribute.
// ---------------------------------------------------------------------------

/// Whether some attribute equals the designated endpoint marker.
pub open spec fn has_marker(attrs: Seq<Seq<u8>>, marker: Seq<u8>) -> bool
    decreases attrs.len(),
{
    if attrs.len() == 0 {
        false
    } else {
        has_marker(attrs.subrange(0, attrs.len() - 1), marker) || attrs[attrs.len() - 1] == marker
    }
}

/// The attributes with every occurrence of the marker removed and every
/// other attribute kept, in order.
pub open spec fn strip_marker(attrs: Seq<Seq<u8>>, marker: Seq<u8>) -> Seq<Seq<u8>>
    decreases attrs.len(),
{
    if attrs.len() == 0 {
        Seq::empty()
    } else {
        strip_marker(attrs.subrange(0, attrs.len() - 1), marker) + (if attrs[attrs.len() - 1]
            == marker {
            Seq::<Seq<u8>>::empty()
        } else {
            seq![attrs[attrs.len() - 1]]
        })
    }
}

/// The declaration exactly as it enters identifier derivation and the
/// generated artifacts: the marker stripped, everything else untouched.
pub open spec fn stripped_decl(d: DeclV, marker: Seq<u8>) -> DeclV {
    DeclV { attrs: strip_marker(d.attrs, marker), ..d }
}

pub fn attrs_have_marker(attrs: &Vec<Vec<u8>>, marker: &Vec<u8>) -> (r: bool)
    ensures
        r == has_marker(bytes2_view(*attrs), marker@),
{
    let ghost av = bytes2_view(*attrs);
    let mut i: usize = 0;
    let mut found: bool = false;
    #[verifier::loop_isolation(false)]
    while i < attrs.len()
        invariant
            i <= attrs.len(),
            found == has_marker(av.subrange(0, i as int), marker@),
        decreases attrs.len() - i,
    {
        proof {
            assert(av.subrange(0, i + 1).subrange(0, i as int) =~= av.subrange(0, i as int));
            assert(av.subrange(0, i + 1)[i as int] == attrs@[i as int]@);
        }
        if bytes_eq(&attrs[i], marker) {
            found = true;
        }
        i = i + 1;
    }
    proof {
        assert(av.subrange(0, av.len() as int) =~= av);
    }
    found
}

pub fn strip_attrs(attrs: &Vec<Vec<u8>>, marker: &Vec<u8>) -> (r: Vec<Vec<u8>>)
    ensures
        bytes2_view(r) == strip_marker(bytes2_view(*attrs), marker@),
{
    let ghost av = bytes2_view(*attrs);
    let mut out: Vec<Vec<u8>> = Vec::new();
    let mut i: usize = 0;
    #[verifier::loop_isolation(false)]
    while i < attrs.len()
        invariant
            i <= attrs.len(),
            bytes2_view(out) == strip_marker(av.subrange(0, i as int), marker@),
        decreases attrs.len() - i,
    {
        proof {
            assert(av.subrange(0, i + 1).subrange(0, i as int) =~= av.subrange(0, i as int));
            assert(av.subrange(0, i + 1)[i as int] == attrs@[i as int]@);
        }
        if !bytes_eq(&attrs[i], marker) {
            let ghost before = bytes2_view(out);
            out.push(copy_bytes(&attrs[i]));
            proof {
                assert(bytes2_view(out) =~= before + seq![av[i as int]]);
            }
        } else {
            proof {
                assert(bytes2_view(out) =~= bytes2_view(out) + Seq::<Seq<u8>>::empty());
            }
        }
        i = i + 1;
    }
    proof {
        assert(av.subrange(0, av.len() as int) =~= av);
    }
    out
}

/// A marked declaration as recorded in the namespace tree: a copy with the
/// marker stripped.
pub fn extract_endpoint(d: &FnDecl, marker: &Vec<u8>) -> (r: FnDecl)
    ensures
        r@ == stripped_decl(d@, marker@),
{
    let ret: Option<Vec<u8>> = match &d.ret {
        Some(b) => Some(copy_bytes(b)),
        None => None,
    };
    FnDecl {
        name: copy_bytes(&d.name),
        attrs: strip_attrs(&d.attrs, marker),
        receiver: d.receiver,
        params: copy_params(&d.params),
        ret,
        body: copy_bytes(&d.body),
    }
}

// ---------------------------------------------------------------------------
// The ordered child mapping.
// ---------------------------------------------------------------------------

/// Inserting a child into the ordered mapping: the first same-named child is
/// replaced in place, otherwise the child is appended.
pub open spec fn insert_child_v(s: Seq<NodeV>, n: NodeV) -> Seq<NodeV>
    decreases s.len(),
{
    if s.len() == 0 {
        seq![n]
    } else if s[0].name == n.name {
        seq![n] + s.subrange(1, s.len() as int)
    } else {
        seq![s[0]] + insert_child_v(s.subrange(1, s.len() as int), n)
    }
}

proof fn lemma_insert_child_update(s: Seq<NodeV>, n: NodeV, k: int)
    requires
        0 <= k < s.len(),
        s[k].name == n.name,
        forall|j: int| 0 <= j < k ==> s[j].name != n.name,
    ensures
        insert_child_v(s, n) =~= s.update(k, n),
    decreases k,
{
    if k > 0 {
        lemma_insert_child_update(s.subrange(1, s.len() as int), n, k - 1);
        assert(s.update(k, n) =~= seq![s[0]] + s.subrange(1, s.len() as int).update(k - 1, n));
    }
}

proof fn lemma_insert_child_push(s: Seq<NodeV>, n: NodeV)
    requires
        forall|j: int| 0 <= j < s.len() ==> s[j].name != n.name,
    ensures
        insert_child_v(s, n) =~= s.push(n),
    decreases s.len(),
{
    if s.len() > 0 {
        lemma_insert_child_push(s.subrange(1, s.len() as int), n);
        assert(s.push(n) =~= seq![s[0]] + s.subrange(1, s.len() as int).push(n));
    }
}

pub fn insert_child(children: &mut Vec<NamespaceNode>, node: NamespaceNode)
    ensures
        nodes_view(final(children)@) == insert_child_v(nodes_view(old(children)@), node_view(node)),
{
    let ghost cv = nodes_view(children@);
    let mut k: usize = 0;
    #[verifier::loop_isolation(false)]
    while k < children.len()
        invariant
            k <= children.len(),
            *children == *old(children),
            forall|j: int| 0 <= j < k ==> cv[j].name != node_view(node).name,
        decreases children.len() - k,
    {
        if bytes_eq(&children[k].name, &node.name) {
            let ghost nv = node_view(node);
            proof {
                lemma_insert_child_update(cv, nv, k as int);
            }
            children.set(k, node);
            proof {
                assert(nodes_view(children@) =~= cv.update(k as int, nv));
            }
            return ;
        }
        k = k + 1;
    }
    let ghost nv = node_view(node);
    proof {
        lemma_insert_child_push(cv, nv);
    }
    let ghost before = nodes_view(children@);
    children.push(node);
    proof {
        assert(nodes_view(children@) =~= before.push(nv));
    }
}

// ---------------------------------------------------------------------------
// Lookups, executably.
// ---------------------------------------------------------------------------

pub open spec fn opt_dir_view(dir: Option<&FsDir>) -> Option<FsDirV> {
    match dir {
        None => None,
        Some(d) => Some(d@),
    }
}

/// The first unit named `name` in the context, by linear scan: the content
/// tree promises nothing about duplicate names, the first entry wins.
pub fn lookup_file<'a>(dir: Option<&'a FsDir>, name: &Vec<u8>) -> (r: Option<&'a FileContent>)
    ensures
        match r {
            Some(c) => spec_lookup_file(opt_dir_view(dir), name@) == Some(
                crate::ast::content_view(*c),
            ),
            None => spec_lookup_file(opt_dir_view(dir), name@) is None,
        },
{
    match dir {
        None => None,
        Some(d) => {
            let ghost ev = entries_view(d.entries@);
            proof {
                assert(ev.subrange(0, ev.len() as int) =~= ev);
            }
            let mut i: usize = 0;
            #[verifier::loop_isolation(false)]
            while i < d.entries.len()
                invariant
                    i <= d.entries.len(),
                    lookup_file_in(ev, name@) == lookup_file_in(
                        ev.subrange(i as int, ev.len() as int),
                        name@,
                    ),
                decreases d.entries.len() - i,
            {
                proof {
                    assert(ev.subrange(i as int, ev.len() as int)[0] == entry_view(
                        d.entries@[i as int],
                    ));
                    assert(ev.subrange(i as int, ev.len() as int).subrange(
                        1,
                        ev.len() - i as int,
                    ) =~= ev.subrange(i + 1, ev.len() as int));
                }
                match &d.entries[i] {
                    FsEntry::File { name: n, content } => {
                        if bytes_eq(n, name) {
                            return Some(content);
                        }
                    },
                    FsEntry::Dir { .. } => {},
                }
                i = i + 1;
            }
            proof {
                assert(ev.subrange(ev.len() as int, ev.len() as int) =~= Seq::<
                    FsEntryV,
                >::empty());
            }
            None
        },
    }
}

/// The same-named directory of the context, the child namespace's context.
pub fn lookup_subdir<'a>(dir: Option<&'a FsDir>, name: &Vec<u8>) -> (r: Option<&'a FsDir>)
    ensures
        opt_dir_view(r) == child_dir(opt_dir_view(dir), name@),
{
    match dir {
        None => None,
        Some(d) => {
            let ghost ev = entries_view(d.entries@);
            proof {
                assert(ev.subrange(0, ev.len() as int) =~= ev);
            }
            let mut i: usize = 0;
            #[verifier::loop_isolation(false)]
            while i < d.entries.len()
                invariant
                    i <= d.entries.len(),
                    lookup_dir_in(ev, name@) == lookup_dir_in(
                        ev.subrange(i as int, ev.len() as int),
                        name@,
                    ),
                decreases d.entries.len() - i,
            {
                proof {
                    assert(ev.subrange(i as int, ev.len() as int)[0] == entry_view(
                        d.entries@[i as int],
                    ));
                    assert(ev.subrange(i as int, ev.len() as int).subrange(
                        1,
                        ev.len() - i as int,
                    ) =~= ev.subrange(i + 1, ev.len() as int));
                }
                match &d.entries[i] {
                    FsEntry::Dir { name: n, dir: sub } => {
                        if bytes_eq(n, name) {
                            return Some(sub);
                        }
                    },
                    FsEntry::File { .. } => {},
                }
                i = i + 1;
            }
            proof {
                assert(ev.subrange(ev.len() as int, ev.len() as int) =~= Seq::<
                    FsEntryV,
                >::empty());
            }
            None
        },
    }
}

/// `name` with the fixed `.rs` suffix appended.
pub fn with_rs_suffix(name: &Vec<u8>) -> (r: Vec<u8>)
    ensures
        r@ == name@ + rs_suffix(),
{
    let mut out: Vec<u8> = copy_bytes(name);
    out.push(46u8);
    out.push(114u8);
    out.push(115u8);
    proof {
        assert(out@ =~= name@ + rs_suffix());
    }
    out
}

/// The fixed index unit name, `mod.rs`.
pub fn mod_rs_name() -> (r: Vec<u8>)
    ensures
        r@ == mod_rs(),
{
    let mut out: Vec<u8> = Vec::new();
    out.push(109u8);
    out.push(111u8);
    out.push(100u8);
    out.push(46u8);
    out.push(114u8);
    out.push(115u8);
    proof {
        assert(out@ =~= mod_rs());
    }
    out
}

// ---------------------------------------------------------------------------
// Resolution itself.
// ---------------------------------------------------------------------------

/// A namespace about to receive its body: no endpoints, no children yet.
pub open spec fn empty_nodev(name: Seq<u8>, meta: Seq<Seq<u8>>) -> NodeV {
    NodeV { name, meta, endpoints: Seq::empty(), children: Seq::empty() }
}

/// Resolution of one namespace body, item by item, onto the accumulated
/// node `acc`. A marked declaration joins `acc.endpoints` in declaration
/// order; a namespace reference is expanded — inline content directly, an
/// external reference through the suffixed unit first and the directory
/// index unit second — and the resolved child joins the ordered child
/// mapping; anything else is invisible. A reference with neither inline
/// content nor a resolvable unit, a unit that does not parse, and a marked
/// declaration with a receiver are fatal, named errors.
pub open spec fn spec_visit(
    marker: Seq<u8>,
    dir: Option<FsDirV>,
    acc: NodeV,
    items: Seq<ItemV>,
) -> Result<NodeV, ErrV>
    decreases opt_height(dir), items_size(items),
    via spec_visit_dec
{
    if items.len() == 0 {
        Ok(acc)
    } else {
        let rest = items.subrange(1, items.len() as int);
        match items[0] {
            ItemV::Fn(d) => {
                if has_marker(d.attrs, marker) {
                    if d.receiver {
                        Err(ErrV::ReceiverParam { name: d.name })
                    } else {
                        spec_visit(
                            marker,
                            dir,
                            NodeV { endpoints: acc.endpoints.push(stripped_decl(d, marker)), ..acc },
                            rest,
                        )
                    }
                } else {
                    spec_visit(marker, dir, acc, rest)
                }
            },
            ItemV::Mod { name, meta, inline } => {
                let sub = match inline {
                    Some(u) => spec_visit(
                        marker,
                        child_dir(dir, name),
                        empty_nodev(name, meta),
                        u.items,
                    ),
                    None => match spec_lookup_file(dir, name + rs_suffix()) {
                        Some(ContentV::Parsed(u)) => spec_visit(
                            marker,
                            child_dir(dir, name),
                            empty_nodev(name, meta),
                            u.items,
                        ),
                        Some(ContentV::Malformed) => Err(ErrV::ParseFailed { name }),
                        None => match spec_lookup_file(child_dir(dir, name), mod_rs()) {
                            Some(ContentV::Parsed(u)) => spec_visit(
                                marker,
                                child_dir(dir, name),
                                empty_nodev(name, meta),
                                u.items,
                            ),
                            Some(ContentV::Malformed) => Err(ErrV::ParseFailed { name }),
                            None => Err(ErrV::ModuleNotFound { name }),
                        },
                    },
                };
                match sub {
                    Err(e) => Err(e),
                    Ok(c) => spec_visit(
                        marker,
                        dir,
                        NodeV { children: insert_child_v(acc.children, c), ..acc },
                        rest,
                    ),
                }
            },
            ItemV::Other => spec_visit(marker, dir, acc, rest),
        }
    }
}

#[via_fn]
proof fn spec_visit_dec(marker: Seq<u8>, dir: Option<FsDirV>, acc: NodeV, items: Seq<ItemV>) {
    if items.len() > 0 {
        lemma_item_size_pos(items[0]);
        match items[0] {
            ItemV::Mod { name, .. } => {
                lemma_child_dir_height(dir, name);
            },
            _ => {},
        }
    }
}

/// Resolution of one root source unit: the unit named `file` inside `dir`
/// becomes the body of an anonymous root namespace whose references resolve
/// against `dir`.
pub open spec fn spec_resolve_root(marker: Seq<u8>, dir: FsDirV, file: Seq<u8>) -> Result<
    NodeV,
    ErrV,
> {
    match lookup_file_in(dir.entries, file) {
        Some(ContentV::Parsed(u)) => spec_visit(
            marker,
            Some(dir),
            empty_nodev(Seq::empty(), Seq::empty()),
            u.items,
        ),
        Some(ContentV::Malformed) => Err(ErrV::RootNotFound { name: file }),
        None => Err(ErrV::RootNotFound { name: file }),
    }
}

/// Resolves one namespace body into a node named `name` carrying `meta`,
/// against the directory context `dir`.
pub fn resolve_items(
    marker: &Vec<u8>,
    dir: Option<&FsDir>,
    name: Vec<u8>,
    meta: Vec<Vec<u8>>,
    items: &Vec<Item>,
) -> (r: Result<NamespaceNode, GenError>)
    ensures
        res_node_view(r) == spec_visit(
            marker@,
            opt_dir_view(dir),
            empty_nodev(name@, bytes2_view(meta)),
            items_view(items@),
        ),
    decreases opt_height(opt_dir_view(dir)), items_size(items_view(items@)),
{
    let ghost m = marker@;
    let ghost dv = opt_dir_view(dir);
    let ghost iv = items_view(items@);
    let ghost acc0 = empty_nodev(name@, bytes2_view(meta));
    let mut endpoints: Vec<FnDecl> = Vec::new();
    let mut children: Vec<NamespaceNode> = Vec::new();
    proof {
        assert(iv.subrange(0, iv.len() as int) =~= iv);
        assert(decls_view(endpoints) =~= Seq::<DeclV>::empty());
        assert(nodes_view(children@) =~= Seq::<NodeV>::empty());
    }
    let mut i: usize = 0;
    #[verifier::loop_isolation(false)]
    while i < items.len()
        invariant
            i <= items.len(),
            spec_visit(m, dv, acc0, iv) == spec_visit(
                m,
                dv,
                NodeV {
                    name: name@,
                    meta: bytes2_view(meta),
                    endpoints: decls_view(endpoints),
                    children: nodes_view(children@),
                },
                iv.subrange(i as int, iv.len() as int),
            ),
        decreases items.len() - i,
    {
        let ghost accv = NodeV {
            name: name@,
            meta: bytes2_view(meta),
            endpoints: decls_view(endpoints),
            children: nodes_view(children@),
        };
        proof {
            assert(iv.subrange(i as int, iv.len() as int)[0] == item_view(items@[i as int]));
            assert(iv.subrange(i as int, iv.len() as int).subrange(1, iv.len() - i as int)
                =~= iv.subrange(i + 1, iv.len() as int));
        }
        match &items[i] {
            Item::Fn(d) => {
                if attrs_have_marker(&d.attrs, marker) {
                    if d.receiver {
                        return Err(GenError::ReceiverParam { name: copy_bytes(&d.name) });
                    }
                    let stripped: FnDecl = extract_endpoint(d, marker);
                    let ghost before = decls_view(endpoints);
                    endpoints.push(stripped);
                    proof {
                        assert(decls_view(endpoints) =~= before.push(stripped_decl(d@, m)));
                    }
                }
            },
            Item::Mod { name: mod_name, meta: mod_meta, inline } => {
                let sub_dir: Option<&FsDir> = lookup_subdir(dir, mod_name);
                proof {
                    lemma_child_dir_height(dv, mod_name@);
                    lemma_items_size_ge(iv, i as int);
                }
                let sub: Result<NamespaceNode, GenError> = match inline {
                    Some(u) => {
                        resolve_items(
                            marker,
                            sub_dir,
                            copy_bytes(mod_name),
                            copy_bytes2(mod_meta),
                            &u.items,
                        )
                    },
                    None => {
                        let fname: Vec<u8> = with_rs_suffix(mod_name);
                        match lookup_file(dir, &fname) {
                            Some(FileContent::Parsed(u)) => {
                                resolve_items(
                                    marker,
                                    sub_dir,
                                    copy_bytes(mod_name),
                                    copy_bytes2(mod_meta),
                                    &u.items,
                                )
                            },
                            Some(FileContent::Malformed) => {
                                Err(GenError::ParseFailed { name: copy_bytes(mod_name) })
                            },
                            None => {
                                let index_name: Vec<u8> = mod_rs_name();
                                match lookup_file(sub_dir, &index_name) {
                                    Some(FileContent::Parsed(u)) => {
                                        resolve_items(
                                            marker,
                                            sub_dir,
                                            copy_bytes(mod_name),
                                            copy_bytes2(mod_meta),
                                            &u.items,
                                        )
                                    },
                                    Some(FileContent::Malformed) => {
                                        Err(GenError::ParseFailed { name: copy_bytes(mod_name) })
                                    },
                                    None => {
                                        Err(GenError::ModuleNotFound { name: copy_bytes(mod_name) })
                                    },
                                }
                            },
                        }
                    },
                };
                match sub {
                    Ok(c) => {
                        let ghost before = nodes_view(children@);
                        insert_child(&mut children, c);
                    },
                    Err(e) => {
                        return Err(e);
                    },
                }
            },
            Item::Other => {},
        }
        i = i + 1;
    }
    proof {
        assert(iv.subrange(iv.len() as int, iv.len() as int) =~= Seq::<ItemV>::empty());
    }
    Ok(NamespaceNode { name, meta, endpoints, children })
}

/// Resolves one root source unit against its directory context.
pub fn resolve_root(marker: &Vec<u8>, dir: &FsDir, file: &Vec<u8>) -> (r: Result<
    NamespaceNode,
    GenError,
>)
    ensures
        res_node_view(r) == spec_resolve_root(marker@, dir@, file@),
{
    match lookup_file(Some(dir), file) {
        Some(FileContent::Parsed(u)) => {
            let root_name: Vec<u8> = Vec::new();
            let root_meta: Vec<Vec<u8>> = Vec::new();
            proof {
                assert(root_name@ =~= Seq::<u8>::empty());
                assert(bytes2_view(root_meta) =~= Seq::<Seq<u8>>::empty());
            }
            resolve_items(marker, Some(dir), root_name, root_meta, &u.items)
        },
        Some(FileContent::Malformed) => Err(GenError::RootNotFound { name: copy_bytes(file) }),
        None => Err(GenError::RootNotFound { name: copy_bytes(file) }),
    }
}

} // verus!
