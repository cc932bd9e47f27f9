//! The data model: declarations, namespace bodies, the content tree that
//! module references are resolved against, and the resolved namespace tree.
//!
//! Every exec type has a ghost mirror (`...V`) holding the same data over
//! `Seq`, reached through `View`; all contracts speak of the mirrors.

use vstd::prelude::*;

verus! {

broadcast use vstd::seq::axiom_seq_index_decreases, vstd::std_specs::vec::axiom_vec_decreases_to_view, vstd::std_specs::vec::axiom_vec_index_decreases;

/// One function parameter: a binding pattern and a type, both as token text.
#[derive(Debug)]
pub struct Param {
    pub pat: Vec<u8>,
    pub ty: Vec<u8>,
}

pub ghost struct ParamV {
    pub pat: Seq<u8>,
    pub ty: Seq<u8>,
}

impl View for Param {
    type V = ParamV;

    open spec fn view(&self) -> ParamV {
        ParamV { pat: self.pat@, ty: self.ty@ }
    }
}

/// A function declaration as it stands in a namespace body.
///
/// `attrs` holds the paths of its attributes as token text; `receiver` says
/// whether the first parameter is an implicit self-like receiver; `ret` is
/// the declared return type, `None` when the declaration has none (which
/// means the unit type); `body` is the original body as token text.
#[derive(Debug)]
pub struct FnDecl {
    pub name: Vec<u8>,
    pub attrs: Vec<Vec<u8>>,
    pub receiver: bool,
    pub params: Vec<Param>,
    pub ret: Option<Vec<u8>>,
    pub body: Vec<u8>,
}

pub ghost struct DeclV {
    pub name: Seq<u8>,
    pub attrs: Seq<Seq<u8>>,
    pub receiver: bool,
    pub params: Seq<ParamV>,
    pub ret: Option<Seq<u8>>,
    pub body: Seq<u8>,
}

/// The ghost image of a `Vec<Vec<u8>>`.
pub open spec fn bytes2_view(v: Vec<Vec<u8>>) -> Seq<Seq<u8>> {
    Seq::new(v@.len(), |i: int| v@[i]@)
}

pub open spec fn params_view(v: Vec<Param>) -> Seq<ParamV> {
    Seq::new(v@.len(), |i: int| v@[i]@)
}

pub open spec fn opt_bytes_view(v: Option<Vec<u8>>) -> Option<Seq<u8>> {
    match v {
        Some(b) => Some(b@),
        None => None,
    }
}

impl View for FnDecl {
    type V = DeclV;

    open spec fn view(&self) -> DeclV {
        DeclV {
            name: self.name@,
            attrs: bytes2_view(self.attrs),
            receiver: self.receiver,
            params: params_view(self.params),
            ret: opt_bytes_view(self.ret),
            body: self.body@,
        }
    }
}

/// One declaration in a namespace body: a function, a nested namespace
/// reference (with its content inline or left to content-tree resolution),
/// or anything else, which the compiler ignores.
#[derive(Debug)]
pub enum Item {
    Fn(FnDecl),
    Mod { name: Vec<u8>, meta: Vec<Vec<u8>>, inline: Option<SourceUnit> },
    Other,
}

/// The parsed top-level content of one source unit.
#[derive(Debug)]
pub struct SourceUnit {
    pub items: Vec<Item>,
}

pub ghost enum ItemV {
    Fn(DeclV),
    Mod { name: Seq<u8>, meta: Seq<Seq<u8>>, inline: Option<UnitV> },
    Other,
}

pub ghost struct UnitV {
    pub items: Seq<ItemV>,
}

pub open spec fn item_view(it: Item) -> ItemV
    decreases it,
{
    match it {
        Item::Fn(d) => ItemV::Fn(d@),
        Item::Mod { name, meta, inline } => ItemV::Mod {
            name: name@,
            meta: bytes2_view(meta),
            inline: match inline {
                Some(u) => Some(unit_view(u)),
                None => None,
            },
        },
        Item::Other => ItemV::Other,
    }
}

pub open spec fn items_view(s: Seq<Item>) -> Seq<ItemV>
    decreases s,
{
    if s.len() == 0 {
        Seq::empty()
    } else {
        items_view(s.subrange(0, s.len() - 1)).push(item_view(s[s.len() - 1]))
    }
}

pub open spec fn unit_view(u: SourceUnit) -> UnitV
    decreases u,
{
    UnitV { items: items_view(u.items@) }
}

impl View for SourceUnit {
    type V = UnitV;

    open spec fn view(&self) -> UnitV {
        unit_view(*self)
    }
}

pub broadcast proof fn lemma_items_view(s: Seq<Item>)
    ensures
        (#[trigger] items_view(s)).len() == s.len(),
        forall|i: int| 0 <= i < s.len() ==> items_view(s)[i] == item_view(s[i]),
    decreases s.len(),
{
    if s.len() > 0 {
        lemma_items_view(s.subrange(0, s.len() - 1));
    }
}

/// Content of one unit in the content tree: its parsed top-level items, or
/// the mark that the unit exists but cannot be parsed.
#[derive(Debug)]
pub enum FileContent {
    Parsed(SourceUnit),
    Malformed,
}

/// One entry of a directory in the content tree.
#[derive(Debug)]
pub enum FsEntry {
    File { name: Vec<u8>, content: FileContent },
    Dir { name: Vec<u8>, dir: FsDir },
}

/// A directory of the content tree that module references resolve against.
#[derive(Debug)]
pub struct FsDir {
    pub entries: Vec<FsEntry>,
}

pub ghost enum ContentV {
    Parsed(UnitV),
    Malformed,
}

pub ghost enum FsEntryV {
    File { name: Seq<u8>, content: ContentV },
    Dir { name: Seq<u8>, dir: FsDirV },
}

pub ghost struct FsDirV {
    pub entries: Seq<FsEntryV>,
}

pub open spec fn content_view(c: FileContent) -> ContentV
    decreases c,
{
    match c {
        FileContent::Parsed(u) => ContentV::Parsed(unit_view(u)),
        FileContent::Malformed => ContentV::Malformed,
    }
}

pub open spec fn entry_view(e: FsEntry) -> FsEntryV
    decreases e,
{
    match e {
        FsEntry::File { name, content } => FsEntryV::File {
            name: name@,
            content: content_view(content),
        },
        FsEntry::Dir { name, dir } => FsEntryV::Dir { name: name@, dir: dir_view(dir) },
    }
}

pub open spec fn entries_view(s: Seq<FsEntry>) -> Seq<FsEntryV>
    decreases s,
{
    if s.len() == 0 {
        Seq::empty()
    } else {
        entries_view(s.subrange(0, s.len() - 1)).push(entry_view(s[s.len() - 1]))
    }
}

pub open spec fn dir_view(d: FsDir) -> FsDirV
    decreases d,
{
    FsDirV { entries: entries_view(d.entries@) }
}

impl View for FsDir {
    type V = FsDirV;

    open spec fn view(&self) -> FsDirV {
        dir_view(*self)
    }
}

pub broadcast proof fn lemma_entries_view(s: Seq<FsEntry>)
    ensures
        (#[trigger] entries_view(s)).len() == s.len(),
        forall|i: int| 0 <= i < s.len() ==> entries_view(s)[i] == entry_view(s[i]),
    decreases s.len(),
{
    if s.len() > 0 {
        lemma_entries_view(s.subrange(0, s.len() - 1));
    }
}

/// A node of the resolved namespace tree: its name, the metadata carried
/// through from the namespace reference, the endpoint declarations found
/// directly in it (marker stripped, in declaration order), and its child
/// namespaces (an ordered mapping: at most one child per name).
#[derive(Debug)]
pub struct NamespaceNode {
    pub name: Vec<u8>,
    pub meta: Vec<Vec<u8>>,
    pub endpoints: Vec<FnDecl>,
    pub children: Vec<NamespaceNode>,
}

pub ghost struct NodeV {
    pub name: Seq<u8>,
    pub meta: Seq<Seq<u8>>,
    pub endpoints: Seq<DeclV>,
    pub children: Seq<NodeV>,
}

pub open spec fn decls_view(v: Vec<FnDecl>) -> Seq<DeclV> {
    Seq::new(v@.len(), |i: int| v@[i]@)
}

pub open spec fn node_view(n: NamespaceNode) -> NodeV
    decreases n,
{
    NodeV {
        name: n.name@,
        meta: bytes2_view(n.meta),
        endpoints: decls_view(n.endpoints),
        children: nodes_view(n.children@),
    }
}

pub open spec fn nodes_view(s: Seq<NamespaceNode>) -> Seq<NodeV>
    decreases s,
{
    if s.len() == 0 {
        Seq::empty()
    } else {
        nodes_view(s.subrange(0, s.len() - 1)).push(node_view(s[s.len() - 1]))
    }
}

impl View for NamespaceNode {
    type V = NodeV;

    open spec fn view(&self) -> NodeV {
        node_view(*self)
    }
}

pub broadcast proof fn lemma_nodes_view(s: Seq<NamespaceNode>)
    ensures
        (#[trigger] nodes_view(s)).len() == s.len(),
        forall|i: int| 0 <= i < s.len() ==> nodes_view(s)[i] == node_view(s[i]),
    decreases s.len(),
{
    if s.len() > 0 {
        lemma_nodes_view(s.subrange(0, s.len() - 1));
    }
}

/// A fatal generation-time error. Each names the offending namespace,
/// declaration or root, or carries the colliding identifier.
#[derive(Debug)]
pub enum GenError {
    /// A namespace reference has neither inline content nor a resolvable
    /// external source unit.
    ModuleNotFound { name: Vec<u8> },
    /// An external source unit exists but cannot be parsed.
    ParseFailed { name: Vec<u8> },
    /// A marked declaration has an implicit receiver-like first parameter.
    ReceiverParam { name: Vec<u8> },
    /// A root source unit is missing or cannot be parsed.
    RootNotFound { name: Vec<u8> },
    /// Two distinct endpoint declarations derive the same identifier.
    DuplicateIdentifier { id: u64 },
}

pub ghost enum ErrV {
    ModuleNotFound { name: Seq<u8> },
    ParseFailed { name: Seq<u8> },
    ReceiverParam { name: Seq<u8> },
    RootNotFound { name: Seq<u8> },
    DuplicateIdentifier { id: u64 },
}

impl View for GenError {
    type V = ErrV;

    open spec fn view(&self) -> ErrV {
        match self {
            GenError::ModuleNotFound { name } => ErrV::ModuleNotFound { name: name@ },
            GenError::ParseFailed { name } => ErrV::ParseFailed { name: name@ },
            GenError::ReceiverParam { name } => ErrV::ReceiverParam { name: name@ },
            GenError::RootNotFound { name } => ErrV::RootNotFound { name: name@ },
            GenError::DuplicateIdentifier { id } => ErrV::DuplicateIdentifier { id: *id },
        }
    }
}

/// The ghost image of a resolution result.
pub open spec fn res_node_view(r: Result<NamespaceNode, GenError>) -> Result<NodeV, ErrV> {
    match r {
        Ok(n) => Ok(node_view(n)),
        Err(e) => Err(e@),
    }
}

/// Byte-vector equality, the comparison every name lookup goes through.
pub fn bytes_eq(a: &Vec<u8>, b: &Vec<u8>) -> (r: bool)
    ensures
        r <==> a@ == b@,
{
    if a.len() != b.len() {
        proof {
            assert(a@.len() != b@.len());
        }
        return false;
    }
    let mut i: usize = 0;
    while i < a.len()
        invariant
            i <= a.len(),
            a@.len() == b@.len(),
            forall|j: int| 0 <= j < i ==> a@[j] == b@[j],
        decreases a.len() - i,
    {
        if a[i] != b[i] {
            return false;
        }
        i = i + 1;
    }
    proof {
        assert(a@ =~= b@);
    }
    true
}

/// A copy of a byte vector.
pub fn copy_bytes(v: &Vec<u8>) -> (r: Vec<u8>)
    ensures
        r@ == v@,
{
    let mut out: Vec<u8> = Vec::new();
    let mut i: usize = 0;
    while i < v.len()
        invariant
            i <= v.len(),
            out@ =~= v@.subrange(0, i as int),
        decreases v.len() - i,
    {
        out.push(v[i]);
        i = i + 1;
    }
    proof {
        assert(out@ =~= v@);
    }
    out
}

/// A copy of a vector of byte vectors.
pub fn copy_bytes2(v: &Vec<Vec<u8>>) -> (r: Vec<Vec<u8>>)
    ensures
        bytes2_view(r) == bytes2_view(*v),
{
    let mut out: Vec<Vec<u8>> = Vec::new();
    let mut i: usize = 0;
    while i < v.len()
        invariant
            i <= v.len(),
            out@.len() == i,
            forall|j: int| 0 <= j < i ==> out@[j]@ == v@[j]@,
        decreases v.len() - i,
    {
        out.push(copy_bytes(&v[i]));
        i = i + 1;
    }
    proof {
        assert(bytes2_view(out) =~= bytes2_view(*v));
    }
    out
}

/// A copy of a parameter list.
pub fn copy_params(v: &Vec<Param>) -> (r: Vec<Param>)
    ensures
        params_view(r) == params_view(*v),
{
    let mut out: Vec<Param> = Vec::new();
    let mut i: usize = 0;
    while i < v.len()
        invariant
            i <= v.len(),
            out@.len() == i,
            forall|j: int| 0 <= j < i ==> out@[j]@ == v@[j]@,
        decreases v.len() - i,
    {
        out.push(Param { pat: copy_bytes(&v[i].pat), ty: copy_bytes(&v[i].ty) });
        i = i + 1;
    }
    proof {
        assert(params_view(out) =~= params_view(*v));
    }
    out
}

} // verus!
