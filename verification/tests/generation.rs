use pu_239::api::{build_api, Root};
use pu_239::ast::{FileContent, FnDecl, FsDir, FsEntry, GenError, Item, Param, SourceUnit};
use pu_239::resolve::resolve_root;

fn b(s: &str) -> Vec<u8> {
    s.as_bytes().to_vec()
}

fn marker() -> Vec<u8> {
    b("pu_239::server")
}

fn decl(name: &str, params: &[(&str, &str)], ret: Option<&str>, body: &str) -> FnDecl {
    FnDecl {
        name: b(name),
        attrs: vec![marker()],
        receiver: false,
        params: params.iter().map(|(p, t)| Param { pat: b(p), ty: b(t) }).collect(),
        ret: ret.map(b),
        body: b(body),
    }
}

fn unit(items: Vec<Item>) -> SourceUnit {
    SourceUnit { items }
}

fn file(name: &str, u: SourceUnit) -> FsEntry {
    FsEntry::File { name: b(name), content: FileContent::Parsed(u) }
}

#[test]
fn resolves_inline_namespace() {
    let root = unit(vec![Item::Mod {
        name: b("inner"),
        meta: vec![],
        inline: Some(unit(vec![Item::Fn(decl("f", &[], None, "{ () }"))])),
    }]);
    let dir = FsDir { entries: vec![file("root.rs", root)] };
    let node = resolve_root(&marker(), &dir, &b("root.rs")).unwrap();
    assert_eq!(node.children.len(), 1);
    assert_eq!(node.children[0].name, b("inner"));
    assert_eq!(node.children[0].endpoints.len(), 1);
    assert_eq!(node.children[0].endpoints[0].name, b("f"));
}

#[test]
fn fallback_prefers_suffixed_file() {
    // Both the suffixed unit and the directory index exist: the suffixed
    // unit must win.
    let root = unit(vec![Item::Mod { name: b("m"), meta: vec![], inline: None }]);
    let from_file = unit(vec![Item::Fn(decl("from_file", &[], None, "{}"))]);
    let from_index = unit(vec![Item::Fn(decl("from_index", &[], None, "{}"))]);
    let dir = FsDir {
        entries: vec![
            file("root.rs", root),
            file("m.rs", from_file),
            FsEntry::Dir {
                name: b("m"),
                dir: FsDir { entries: vec![file("mod.rs", from_index)] },
            },
        ],
    };
    let node = resolve_root(&marker(), &dir, &b("root.rs")).unwrap();
    assert_eq!(node.children[0].endpoints[0].name, b("from_file"));
}

#[test]
fn fallback_uses_index_file() {
    // Only the directory index exists: it must be loaded.
    let root = unit(vec![Item::Mod { name: b("m"), meta: vec![], inline: None }]);
    let from_index = unit(vec![Item::Fn(decl("from_index", &[], None, "{}"))]);
    let dir = FsDir {
        entries: vec![
            file("root.rs", root),
            FsEntry::Dir {
                name: b("m"),
                dir: FsDir { entries: vec![file("mod.rs", from_index)] },
            },
        ],
    };
    let node = resolve_root(&marker(), &dir, &b("root.rs")).unwrap();
    assert_eq!(node.children[0].endpoints[0].name, b("from_index"));
}

#[test]
fn fallback_fails_with_named_error() {
    let root = unit(vec![Item::Mod { name: b("lost"), meta: vec![], inline: None }]);
    let dir = FsDir { entries: vec![file("root.rs", root)] };
    let err = resolve_root(&marker(), &dir, &b("root.rs")).unwrap_err();
    assert!(matches!(err, GenError::ModuleNotFound { ref name } if *name == b("lost")));
}

#[test]
fn malformed_file_is_parse_error() {
    let root = unit(vec![Item::Mod { name: b("m"), meta: vec![], inline: None }]);
    let dir = FsDir {
        entries: vec![
            file("root.rs", root),
            FsEntry::File { name: b("m.rs"), content: FileContent::Malformed },
        ],
    };
    let err = resolve_root(&marker(), &dir, &b("root.rs")).unwrap_err();
    assert!(matches!(err, GenError::ParseFailed { ref name } if *name == b("m")));
}

#[test]
fn missing_root_is_error() {
    let dir = FsDir { entries: vec![] };
    let err = resolve_root(&marker(), &dir, &b("root.rs")).unwrap_err();
    assert!(matches!(err, GenError::RootNotFound { ref name } if *name == b("root.rs")));
}

#[test]
fn receiver_parameter_is_fatal() {
    let mut d = decl("method", &[], None, "{}");
    d.receiver = true;
    let root = unit(vec![Item::Fn(d)]);
    let dir = FsDir { entries: vec![file("root.rs", root)] };
    let err = resolve_root(&marker(), &dir, &b("root.rs")).unwrap_err();
    assert!(matches!(err, GenError::ReceiverParam { ref name } if *name == b("method")));
}

#[test]
fn marker_is_stripped_and_other_attrs_kept() {
    let mut d = decl("f", &[], None, "{}");
    d.attrs = vec![b("inline"), marker(), b("doc")];
    let root = unit(vec![Item::Fn(d)]);
    let dir = FsDir { entries: vec![file("root.rs", root)] };
    let node = resolve_root(&marker(), &dir, &b("root.rs")).unwrap();
    assert_eq!(node.endpoints[0].attrs, vec![b("inline"), b("doc")]);
}

#[test]
fn unmarked_declarations_are_invisible() {
    let mut plain = decl("helper", &[], None, "{}");
    plain.attrs = vec![];
    let root = unit(vec![
        Item::Fn(plain),
        Item::Other,
        Item::Fn(decl("api_fn", &[], None, "{}")),
    ]);
    let dir = FsDir { entries: vec![file("root.rs", root)] };
    let node = resolve_root(&marker(), &dir, &b("root.rs")).unwrap();
    assert_eq!(node.endpoints.len(), 1);
    assert_eq!(node.endpoints[0].name, b("api_fn"));
}

#[test]
fn duplicate_identifiers_are_rejected() {
    // The same declaration under two roots derives the same identifier, so
    // the merged table holds a collision and the merge must fail.
    let mk = || {
        let root = unit(vec![Item::Fn(decl("ping", &[], None, "{}"))]);
        FsDir { entries: vec![file("root.rs", root)] }
    };
    let roots = vec![
        Root { dir: mk(), file: b("root.rs") },
        Root { dir: mk(), file: b("root.rs") },
    ];
    let err = build_api(&marker(), &roots).unwrap_err();
    assert!(matches!(err, GenError::DuplicateIdentifier { .. }));
}

#[test]
fn same_named_sibling_namespace_replaces_earlier() {
    let first = unit(vec![Item::Fn(decl("old_fn", &[], None, "{}"))]);
    let second = unit(vec![Item::Fn(decl("new_fn", &[], None, "{}"))]);
    let root = unit(vec![
        Item::Mod { name: b("m"), meta: vec![], inline: Some(first) },
        Item::Mod { name: b("m"), meta: vec![], inline: Some(second) },
    ]);
    let dir = FsDir { entries: vec![file("root.rs", root)] };
    let node = resolve_root(&marker(), &dir, &b("root.rs")).unwrap();
    assert_eq!(node.children.len(), 1);
    assert_eq!(node.children[0].endpoints[0].name, b("new_fn"));
}

#[test]
fn namespace_metadata_is_carried_through() {
    let root = unit(vec![Item::Mod {
        name: b("m"),
        meta: vec![b("cfg(test)"), b("doc")],
        inline: Some(unit(vec![Item::Fn(decl("f", &[], None, "{}"))])),
    }]);
    let dir = FsDir { entries: vec![file("root.rs", root)] };
    let node = resolve_root(&marker(), &dir, &b("root.rs")).unwrap();
    assert_eq!(node.children[0].meta, vec![b("cfg(test)"), b("doc")]);
}
